use s3_adapter::codec::decode;
use s3_adapter::codec::encode;
use s3_adapter::codec::CodecError;
use s3_adapter::keys::KeyExpression;
use s3_adapter::keys::StorageKey;

fn segs(path: &str) -> Vec<Vec<u8>> {
    path.split('/').map(|s| s.as_bytes().to_vec()).collect()
}

fn expr(path: &str) -> KeyExpression {
    KeyExpression { parts: segs(path) }
}

fn skey(path: &str) -> StorageKey {
    StorageKey { segments: segs(path) }
}

#[test]
fn round_trip_without_prefix() {
    let k = expr("room1/temp");
    let raw = encode(&None, &k).unwrap();
    assert_eq!(raw, b"room1/temp".to_vec());
    let back = decode(&None, &raw).unwrap();
    assert_eq!(back.parts, segs("room1/temp"));
}

#[test]
fn round_trip_with_prefix() {
    let prefix = Some(skey("zone/a"));
    let k = expr("room1/temp");
    let raw = encode(&prefix, &k).unwrap();
    assert_eq!(raw, b"zone/a/room1/temp".to_vec());
    let back = decode(&prefix, &raw).unwrap();
    assert_eq!(back.parts, segs("room1/temp"));
}

#[test]
fn round_trip_single_segment() {
    let k = expr("alone");
    let raw = encode(&None, &k).unwrap();
    assert_eq!(raw, b"alone".to_vec());
    let back = decode(&None, &raw).unwrap();
    assert_eq!(back.parts, segs("alone"));
}

#[test]
fn encode_rejects_wildcards() {
    let single = expr("room1/*");
    assert_eq!(encode(&None, &single), Err(CodecError::InvalidKey));
    let multi = expr("room1/**");
    assert_eq!(encode(&None, &multi), Err(CodecError::InvalidKey));
}

#[test]
fn decode_rejects_foreign_prefix() {
    let prefix = Some(skey("zone/a"));
    assert_eq!(
        decode(&prefix, &b"other/room1/temp".to_vec()),
        Err(CodecError::PrefixMismatch)
    );
    // The bare prefix with no remainder does not start with "prefix/".
    assert_eq!(
        decode(&prefix, &b"zone/a".to_vec()),
        Err(CodecError::PrefixMismatch)
    );
    // A prefix-sized chunk that differs late is still a mismatch.
    assert_eq!(
        decode(&prefix, &b"zone/b/room1".to_vec()),
        Err(CodecError::PrefixMismatch)
    );
}

#[test]
fn decode_rejects_malformed_remainders() {
    assert_eq!(decode(&None, &b"".to_vec()), Err(CodecError::InvalidKey));
    assert_eq!(decode(&None, &b"a//b".to_vec()), Err(CodecError::InvalidKey));
    assert_eq!(decode(&None, &b"a/b/".to_vec()), Err(CodecError::InvalidKey));
    assert_eq!(decode(&None, &b"/a".to_vec()), Err(CodecError::InvalidKey));
    assert_eq!(decode(&None, &b"a*b/c".to_vec()), Err(CodecError::InvalidKey));
    let prefix = Some(skey("zone"));
    assert_eq!(
        decode(&prefix, &b"zone/".to_vec()),
        Err(CodecError::InvalidKey)
    );
}

#[test]
fn decode_reads_wildcards_back() {
    let e = decode(&None, &b"a/*/c".to_vec()).unwrap();
    assert_eq!(e.parts, vec![b"a".to_vec(), b"*".to_vec(), b"c".to_vec()]);
    let e = decode(&None, &b"a/**".to_vec()).unwrap();
    assert_eq!(e.parts, vec![b"a".to_vec(), b"**".to_vec()]);
}

#[test]
fn well_formedness_checks() {
    assert!(skey("room1/temp").check_wf());
    assert!(!StorageKey { segments: vec![] }.check_wf());
    assert!(!skey("room1/*").check_wf());
    assert!(expr("room1/*").check_wf());
    assert!(expr("room1/**").check_wf());
    assert!(!expr("room1/***").check_wf());
    assert!(expr("room1/temp").check_concrete());
    assert!(!expr("room1/*").check_concrete());
}
