//! Copying byte blocks.

use vstd::prelude::*;

verus! {

/// Appends a copy of `data` to `bytes`.
pub fn append_bytes(bytes: &mut Vec<u8>, data: &Vec<u8>)
    ensures
        final(bytes)@ == old(bytes)@ + data@,
{
    let mut k: usize = 0;
    while k < data.len()
        invariant
            k <= data@.len(),
            bytes@ == old(bytes)@ + data@.take(k as int),
        decreases data@.len() - k,
    {
        bytes.push(data[k]);
        assert(data@.take(k as int + 1) =~= data@.take(k as int).push(data@[k as int]));
        k = k + 1;
    }
    assert(data@.take(k as int) =~= data@);
}

/// A copy of `data`.
pub fn copy_bytes(data: &Vec<u8>) -> (copy: Vec<u8>)
    ensures
        copy@ == data@,
{
    let mut copy: Vec<u8> = Vec::new();
    append_bytes(&mut copy, data);
    copy
}

} // verus!
