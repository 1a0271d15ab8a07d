//! Naming the file that a download is written to: `download.txt` first,
//! then `download(1).txt`, `download(2).txt` and so on, until a name is
//! found that the target directory does not hold yet.

use vstd::prelude::*;
use vstd::string::*;

verus! {

/// The character of a decimal digit.
pub open spec fn digit_char(digit: nat) -> char {
    if digit == 0 {
        '0'
    } else if digit == 1 {
        '1'
    } else if digit == 2 {
        '2'
    } else if digit == 3 {
        '3'
    } else if digit == 4 {
        '4'
    } else if digit == 5 {
        '5'
    } else if digit == 6 {
        '6'
    } else if digit == 7 {
        '7'
    } else if digit == 8 {
        '8'
    } else {
        '9'
    }
}

/// The decimal digit that a character stands for; zero for any other
/// character.
pub open spec fn digit_value(c: char) -> nat {
    if c == '1' {
        1
    } else if c == '2' {
        2
    } else if c == '3' {
        3
    } else if c == '4' {
        4
    } else if c == '5' {
        5
    } else if c == '6' {
        6
    } else if c == '7' {
        7
    } else if c == '8' {
        8
    } else if c == '9' {
        9
    } else {
        0
    }
}

/// A number in decimal, without leading zeros.
pub open spec fn decimal(n: nat) -> Seq<char>
    decreases n,
{
    if n < 10 {
        seq![digit_char(n)]
    } else {
        decimal(n / 10).push(digit_char(n % 10))
    }
}

/// The number that a run of decimal digits stands for.
pub open spec fn decimal_value(digits: Seq<char>) -> nat
    decreases digits.len(),
{
    if digits.len() == 0 {
        0
    } else {
        decimal_value(digits.drop_last()) * 10 + digit_value(digits.last())
    }
}

/// The name that is tried after `counter` names were found in use.
pub open spec fn spec_file_name(counter: nat) -> Seq<char> {
    if counter == 0 {
        "download.txt"@
    } else {
        "download("@ + decimal(counter) + ").txt"@
    }
}

/// The contents of a list of names, as sequences of characters.
pub open spec fn names_of(taken: Seq<String>) -> Seq<Seq<char>> {
    Seq::new(taken.len(), |i: int| taken[i]@)
}

/// `counter` is the first whose name is free: its name is not in use, and
/// the name of every smaller counter is.
pub open spec fn is_first_free(taken: Seq<Seq<char>>, counter: nat) -> bool {
    &&& !taken.contains(spec_file_name(counter))
    &&& forall|j: nat| j < counter ==> taken.contains(#[trigger] spec_file_name(j))
}

/// The first counter whose name is free.
pub open spec fn first_free(taken: Seq<Seq<char>>) -> nat {
    choose|counter: nat| is_first_free(taken, counter)
}

/// Reading a number back from its decimal form gives the number.
pub proof fn lemma_decimal_value(n: nat)
    ensures
        decimal_value(decimal(n)) == n,
    decreases n,
{
    if n < 10 {
        assert(decimal(n).drop_last() =~= Seq::<char>::empty());
        assert(decimal_value(decimal(n).drop_last()) == 0);
    } else {
        lemma_decimal_value(n / 10);
        assert(decimal(n).drop_last() =~= decimal(n / 10));
    }
}

/// Two counters with the same name are the same counter.
pub proof fn lemma_file_name_injective(a: nat, b: nat)
    requires
        spec_file_name(a) == spec_file_name(b),
    ensures
        a == b,
{
    reveal_strlit("download.txt");
    reveal_strlit("download(");
    reveal_strlit(").txt");
    if a == 0 && b != 0 {
        assert(spec_file_name(a)[8] == '.');
        assert(spec_file_name(b)[8] == '(');
    } else if a != 0 && b == 0 {
        assert(spec_file_name(b)[8] == '.');
        assert(spec_file_name(a)[8] == '(');
    } else if a != 0 && b != 0 {
        let name_a = spec_file_name(a);
        let name_b = spec_file_name(b);
        assert(name_a.subrange(9, name_a.len() - 5) =~= decimal(a));
        assert(name_b.subrange(9, name_b.len() - 5) =~= decimal(b));
        lemma_decimal_value(a);
        lemma_decimal_value(b);
    }
}

/// A list that holds the names of the first `count` counters has at least
/// `count` entries.
pub proof fn lemma_names_need_room(taken: Seq<Seq<char>>, count: nat)
    requires
        forall|j: nat| j < count ==> taken.contains(#[trigger] spec_file_name(j)),
    ensures
        count <= taken.len(),
    decreases count,
{
    if count > 0 {
        let top = (count - 1) as nat;
        assert(taken.contains(spec_file_name(top)));
        let at = choose|i: int| 0 <= i < taken.len() && taken[i] == spec_file_name(top);
        let rest = taken.remove(at);
        assert forall|j: nat| j < top implies rest.contains(#[trigger] spec_file_name(j)) by {
            assert(taken.contains(spec_file_name(j)));
            let q = choose|i: int| 0 <= i < taken.len() && taken[i] == spec_file_name(j);
            if q == at {
                lemma_file_name_injective(j, top);
            } else if q < at {
                assert(rest[q] == taken[q]);
            } else {
                assert(rest[q - 1] == taken[q]);
            }
        }
        lemma_names_need_room(rest, top);
    }
}

/// The first free counter is what its name says: the only counter that is
/// first and free.
pub proof fn lemma_first_free_unique(taken: Seq<Seq<char>>, counter: nat)
    requires
        is_first_free(taken, counter),
    ensures
        first_free(taken) == counter,
{
    let chosen = first_free(taken);
    assert(is_first_free(taken, chosen));
    if chosen < counter {
        assert(taken.contains(spec_file_name(chosen)));
    } else if counter < chosen {
        assert(taken.contains(spec_file_name(counter)));
    }
}

fn digit_str(digit: u64) -> (text: &'static str)
    requires
        digit < 10,
    ensures
        text@ == seq![digit_char(digit as nat)],
{
    proof {
        reveal_strlit("0");
        reveal_strlit("1");
        reveal_strlit("2");
        reveal_strlit("3");
        reveal_strlit("4");
        reveal_strlit("5");
        reveal_strlit("6");
        reveal_strlit("7");
        reveal_strlit("8");
        reveal_strlit("9");
    }
    let text = if digit == 0 {
        "0"
    } else if digit == 1 {
        "1"
    } else if digit == 2 {
        "2"
    } else if digit == 3 {
        "3"
    } else if digit == 4 {
        "4"
    } else if digit == 5 {
        "5"
    } else if digit == 6 {
        "6"
    } else if digit == 7 {
        "7"
    } else if digit == 8 {
        "8"
    } else {
        "9"
    };
    assert(text@ =~= seq![digit_char(digit as nat)]);
    text
}

fn push_decimal(text: &mut String, n: u64)
    ensures
        final(text)@ == old(text)@ + decimal(n as nat),
    decreases n,
{
    if n >= 10 {
        push_decimal(text, n / 10);
    }
    text.append(digit_str(n % 10));
    assert(text@ =~= old(text)@ + decimal(n as nat));
}

/// The name that is tried after `counter` names were found in use:
/// `download.txt` at first, then `download(1).txt`, `download(2).txt`, ...
pub fn file_name(counter: u64) -> (name: String)
    ensures
        name@ == spec_file_name(counter as nat),
{
    if counter == 0 {
        return String::from_str("download.txt");
    }
    let mut name = String::from_str("download(");
    push_decimal(&mut name, counter);
    name.append(").txt");
    name
}

/// The directory that downloads are written to.
pub fn target_dir() -> (dir: String)
    ensures
        dir@ == "/tmp"@,
{
    String::from_str("/tmp")
}

/// Whether a name is among those in use.
pub fn is_taken(taken: &Vec<String>, name: &String) -> (found: bool)
    ensures
        found == names_of(taken@).contains(name@),
{
    let mut i: usize = 0;
    while i < taken.len()
        invariant
            i <= taken@.len(),
            forall|k: int| 0 <= k < i ==> names_of(taken@)[k] != name@,
        decreases taken@.len() - i,
    {
        if taken[i] == *name {
            assert(names_of(taken@)[i as int] == name@);
            return true;
        }
        i = i + 1;
    }
    false
}

/// Picks the name of the file to create in a directory that holds the
/// names in `taken`: the first of `download.txt`, `download(1).txt`,
/// `download(2).txt`, ... that is not among them.
pub fn create_file(taken: &Vec<String>) -> (name: String)
    ensures
        is_first_free(names_of(taken@), first_free(names_of(taken@))),
        name@ == spec_file_name(first_free(names_of(taken@))),
        !names_of(taken@).contains(name@),
{
    let in_use: usize = taken.len();
    let mut counter: u64 = 0;
    let mut file_name = file_name(counter);
    while is_taken(taken, &file_name)
        invariant
            file_name@ == spec_file_name(counter as nat),
            counter <= taken@.len() == in_use,
            forall|j: nat| j < counter ==> names_of(taken@).contains(#[trigger] spec_file_name(j)),
        decreases taken@.len() - counter,
    {
        proof {
            assert(names_of(taken@).contains(spec_file_name(counter as nat)));
            lemma_names_need_room(names_of(taken@), (counter + 1) as nat);
        }
        counter = counter + 1;
        file_name = self::file_name(counter);
    }
    proof {
        lemma_first_free_unique(names_of(taken@), counter as nat);
    }
    file_name
}

} // verus!
