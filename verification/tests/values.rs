use tagstore::config::{pool_size, port, Config};
use tagstore::digest::{Digest, HashError, DIGEST_LEN};
use tagstore::error::{Code, Error, Status, StorageError};
use tagstore::tag::{Tag, TagError};

#[test]
fn port_defaults_to_8080() {
    assert_eq!(port(), 8080);
}

#[test]
fn pool_size_defaults_to_16() {
    assert_eq!(pool_size(), 16);
}

#[test]
fn config_takes_defaults_for_what_is_missing() {
    let config = Config::new("postgres://db".to_string(), None, None);
    assert_eq!(config.postgres_url, "postgres://db");
    assert_eq!(config.port, 8080);
    assert_eq!(config.pool_size, 16);
}

#[test]
fn config_keeps_what_is_given() {
    let config = Config::new("postgres://db".to_string(), Some(9000), Some(4));
    assert_eq!(config.postgres_url, "postgres://db");
    assert_eq!(config.port, 9000);
    assert_eq!(config.pool_size, 4);
}

#[test]
fn digest_length_is_256_bits() {
    assert_eq!(DIGEST_LEN, 32);
}

#[test]
fn digest_accepts_32_bytes() {
    let bytes: Vec<u8> = (0u8..32).collect();
    let digest = Digest::try_from(&bytes[..]).unwrap();
    assert_eq!(digest.to_vec(), bytes);
}

#[test]
fn digest_rejects_other_lengths() {
    assert_eq!(Digest::try_from(&[][..]).unwrap_err(), HashError { len: 0 });
    assert_eq!(Digest::try_from(&[1u8; 31][..]).unwrap_err(), HashError { len: 31 });
    assert_eq!(Digest::try_from(&[1u8; 33][..]).unwrap_err(), HashError { len: 33 });
    assert_eq!(Digest::try_from(&[1u8; 64][..]).unwrap_err(), HashError { len: 64 });
}

#[test]
fn digests_compare_by_their_bytes() {
    let a = Digest::try_from(&[1u8; 32][..]).unwrap();
    let b = Digest::try_from(&[1u8; 32][..]).unwrap();
    let mut other = [1u8; 32];
    other[31] = 2;
    let c = Digest::try_from(&other[..]).unwrap();
    assert_eq!(a, b);
    assert_ne!(a, c);
}

#[test]
fn tag_accepts_text() {
    let tag = Tag::try_from("keep".to_string()).unwrap();
    assert_eq!(tag.as_str(), "keep");
    assert_eq!(tag.text(), "keep");
    assert_eq!(tag.clone(), tag);
}

#[test]
fn tag_accepts_text_that_is_not_ascii() {
    let tag = Tag::try_from("größe".to_string()).unwrap();
    assert_eq!(tag.as_str(), "größe");
}

#[test]
fn tag_rejects_empty_text() {
    assert_eq!(Tag::try_from(String::new()).unwrap_err(), TagError::Empty);
}

#[test]
fn tags_compare_by_their_text() {
    let a = Tag::try_from("a".to_string()).unwrap();
    let b = Tag::try_from("b".to_string()).unwrap();
    assert_ne!(a, b);
    assert_eq!(a, Tag::try_from("a".to_string()).unwrap());
}

#[test]
fn storage_failure_is_reported_as_unavailable() {
    let status = Status::from(Error::Postgres(StorageError::Engine("connection lost".to_string())));
    assert_eq!(status.code, Code::Unavailable);
    assert_eq!(status.message, "db error");
    let status = Status::from(Error::Postgres(StorageError::Exhausted));
    assert_eq!(status, Status { code: Code::Unavailable, message: "db error" });
    let status = Status::from(Error::Postgres(StorageError::UnknownId));
    assert_eq!(status.code, Code::Unavailable);
    let status = Status::from(Error::Postgres(StorageError::NoIdentifier));
    assert_eq!(status.code, Code::Unavailable);
}

#[test]
fn malformed_hash_is_reported_as_invalid_argument() {
    let status = Status::from(Error::ArgHash(HashError { len: 3 }));
    assert_eq!(status.code, Code::InvalidArgument);
    assert_eq!(status.message, "Received invalid argument");
}

#[test]
fn malformed_tag_is_reported_as_invalid_argument() {
    let status = Status::from(Error::ArgTag(TagError::Empty));
    assert_eq!(status, Status { code: Code::InvalidArgument, message: "Received invalid argument" });
}
