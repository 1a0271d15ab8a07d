use file_storage::error::CustomError;
use file_storage::structs::{ChunkRecord, FileMetadata};
use uuid::Uuid;

#[test]
fn file_metadata_holds_its_fields() {
    let id = Uuid::from_u128(42);
    let meta = FileMetadata::new(id, "a.txt".to_string(), 2);
    assert_eq!(meta.id(), id);
    assert_eq!(meta.name(), "a.txt");
    assert_eq!(meta.chunk_count(), 2);
    assert_eq!(meta, FileMetadata::new(id, "a.txt".to_string(), 2));
    assert_ne!(meta, FileMetadata::new(id, "a.txt".to_string(), 3));
}

#[test]
fn file_metadata_may_be_unnamed_and_empty() {
    let meta = FileMetadata::new(Uuid::nil(), String::new(), 0);
    assert_eq!(meta.id(), Uuid::nil());
    assert_eq!(meta.name(), "");
    assert_eq!(meta.chunk_count(), 0);
}

#[test]
fn chunk_record_holds_its_fields() {
    let id = Uuid::from_u128(1);
    let file_id = Uuid::from_u128(2);
    let chunk = ChunkRecord::new(id, file_id, 5, vec![1, 2, 3]);
    assert_eq!(chunk.id(), id);
    assert_eq!(chunk.file_id(), file_id);
    assert_eq!(chunk.chunk_num(), 5);
    assert_eq!(chunk.data(), &vec![1, 2, 3]);
    assert_eq!(chunk.into_row(), (5, vec![1, 2, 3]));
}

#[test]
fn error_texts_name_the_kind_of_failure() {
    assert_eq!(CustomError::IoError("disk full".to_string()).to_message(), "I/O Error: disk full");
    assert_eq!(
        CustomError::ParseError("no boundary".to_string()).to_message(),
        "Parse error: no boundary"
    );
    assert_eq!(
        CustomError::ConnectionError("timed out".to_string()).to_message(),
        "Connection error: timed out"
    );
    assert_eq!(
        CustomError::SendError("sending on a closed channel".to_string()).to_message(),
        "Send error: sending on a closed channel"
    );
    assert_eq!(
        CustomError::RecvError("receiving on a closed channel".to_string()).to_message(),
        "Receive error: receiving on a closed channel"
    );
    assert_eq!(
        CustomError::DatabaseError("duplicate key".to_string()).to_message(),
        "Database error: duplicate key"
    );
    assert_eq!(CustomError::NullError.to_message(), "Value is Null");
}

#[test]
fn error_text_with_empty_detail_is_the_prefix() {
    assert_eq!(CustomError::IoError(String::new()).to_message(), "I/O Error: ");
}

#[test]
fn error_copy_equals_the_error() {
    let errors = vec![
        CustomError::IoError("a".to_string()),
        CustomError::ParseError("b".to_string()),
        CustomError::ConnectionError("c".to_string()),
        CustomError::SendError("d".to_string()),
        CustomError::RecvError("e".to_string()),
        CustomError::DatabaseError("f".to_string()),
        CustomError::NullError,
    ];
    for error in &errors {
        assert_eq!(&error.duplicate(), error);
    }
    assert_ne!(errors[0].duplicate(), errors[1]);
}
