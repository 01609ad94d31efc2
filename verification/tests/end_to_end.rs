use s3_adapter::codec::decode;
use s3_adapter::codec::encode;
use s3_adapter::envelope::build_put_object;
use s3_adapter::envelope::read_envelope;
use s3_adapter::envelope::EncodingTag;
use s3_adapter::envelope::ObjectMetadataRecord;
use s3_adapter::envelope::StoredObject;
use s3_adapter::envelope::ValueEnvelope;
use s3_adapter::keys::KeyExpression;
use s3_adapter::keys::StorageKey;
use s3_adapter::resolver::resolve;

fn expr(path: &str) -> KeyExpression {
    KeyExpression {
        parts: path.split('/').map(|s| s.as_bytes().to_vec()).collect(),
    }
}

/// An in-memory stand-in for the bucket: what `listAll` would report.
fn listing(store: &[StoredObject]) -> Vec<ObjectMetadataRecord> {
    store
        .iter()
        .map(|o| ObjectMetadataRecord {
            raw_key: o.key.clone(),
            content_encoding: Some(o.content_encoding.clone()),
            metadata: o.metadata.clone(),
        })
        .collect()
}

#[test]
fn publish_then_wildcard_query_then_get() {
    let prefix: Option<StorageKey> = None;
    let mut store: Vec<StoredObject> = Vec::new();

    // Publish {payload: "x", encoding: raw, timestamp: T1} under room1/temp.
    let key = expr("room1/temp");
    let raw_key = encode(&prefix, &key).unwrap();
    let env = ValueEnvelope {
        payload: b"x".to_vec(),
        encoding: EncodingTag::Raw,
        timestamp: Some(b"T1".to_vec()),
    };
    store.push(build_put_object(raw_key.clone(), &env));

    // A query for room1/* resolves to exactly one record, whose decoded
    // key is room1/temp.
    let hits = resolve(&expr("room1/*"), &prefix, listing(&store));
    assert_eq!(hits.len(), 1);
    assert_eq!(hits[0].raw_key, raw_key);
    assert_eq!(hits[0].timestamp(), Some(b"T1".to_vec()));
    let decoded = decode(&prefix, &hits[0].raw_key).unwrap();
    assert_eq!(decoded.parts, expr("room1/temp").parts);

    // A get on the resolved key returns payload "x", encoding raw, and the
    // stored timestamp T1.
    let obj = store.iter().find(|o| o.key == raw_key).unwrap();
    let got = read_envelope(
        obj.body.clone(),
        &Some(obj.content_encoding.clone()),
        &obj.metadata,
    );
    assert_eq!(got.payload, b"x".to_vec());
    assert_eq!(got.encoding, EncodingTag::Raw);
    assert_eq!(got.timestamp, Some(b"T1".to_vec()));
}

#[test]
fn non_matching_query_yields_nothing() {
    let prefix: Option<StorageKey> = None;
    let mut store: Vec<StoredObject> = Vec::new();
    let raw_key = encode(&prefix, &expr("room1/temp")).unwrap();
    let env = ValueEnvelope {
        payload: b"x".to_vec(),
        encoding: EncodingTag::Raw,
        timestamp: None,
    };
    store.push(build_put_object(raw_key, &env));

    let hits = resolve(&expr("room2/*"), &prefix, listing(&store));
    assert!(hits.is_empty());
}

#[test]
fn resolution_skips_foreign_objects_silently() {
    let prefix = Some(StorageKey {
        segments: vec![b"zone".to_vec()],
    });
    let mut store: Vec<StoredObject> = Vec::new();
    let env = ValueEnvelope {
        payload: b"v".to_vec(),
        encoding: EncodingTag::Raw,
        timestamp: None,
    };
    let raw_key = encode(&prefix, &expr("room1/temp")).unwrap();
    store.push(build_put_object(raw_key.clone(), &env));
    // A foreign object under another prefix, and one with a malformed key.
    store.push(build_put_object(b"elsewhere/room1/temp".to_vec(), &env));
    store.push(build_put_object(b"zone/room1//bad".to_vec(), &env));

    let hits = resolve(&expr("room1/*"), &prefix, listing(&store));
    assert_eq!(hits.len(), 1);
    assert_eq!(hits[0].raw_key, raw_key);
}

#[test]
fn listing_order_is_preserved() {
    let prefix: Option<StorageKey> = None;
    let mut store: Vec<StoredObject> = Vec::new();
    let env = ValueEnvelope {
        payload: b"v".to_vec(),
        encoding: EncodingTag::Raw,
        timestamp: None,
    };
    for name in ["room1/a", "room1/b", "room1/c"] {
        let raw = encode(&prefix, &expr(name)).unwrap();
        store.push(build_put_object(raw, &env));
    }
    let hits = resolve(&expr("room1/**"), &prefix, listing(&store));
    let keys: Vec<Vec<u8>> = hits.into_iter().map(|r| r.raw_key).collect();
    assert_eq!(
        keys,
        vec![
            b"room1/a".to_vec(),
            b"room1/b".to_vec(),
            b"room1/c".to_vec()
        ]
    );
}

#[test]
fn malformed_encoding_tag_falls_back_to_unspecified() {
    let got = read_envelope(b"data".to_vec(), &Some(b"weird/tag".to_vec()), &vec![]);
    assert_eq!(got.encoding, EncodingTag::Unspecified);
    assert_eq!(got.payload, b"data".to_vec());
    assert_eq!(got.timestamp, None);

    let got = read_envelope(b"data".to_vec(), &None, &vec![]);
    assert_eq!(got.encoding, EncodingTag::Unspecified);
}

#[test]
fn every_known_tag_round_trips() {
    for tag in [
        EncodingTag::Unspecified,
        EncodingTag::Raw,
        EncodingTag::TextPlain,
        EncodingTag::AppJson,
    ] {
        let env = ValueEnvelope {
            payload: b"p".to_vec(),
            encoding: tag,
            timestamp: Some(b"T9".to_vec()),
        };
        let obj = build_put_object(b"k".to_vec(), &env);
        let got = read_envelope(
            obj.body.clone(),
            &Some(obj.content_encoding.clone()),
            &obj.metadata,
        );
        assert_eq!(got.encoding, tag);
        assert_eq!(got.timestamp, Some(b"T9".to_vec()));
    }
}

#[test]
fn timestamp_metadata_uses_the_fixed_field() {
    let env = ValueEnvelope {
        payload: b"p".to_vec(),
        encoding: EncodingTag::Raw,
        timestamp: Some(b"T1".to_vec()),
    };
    let obj = build_put_object(b"k".to_vec(), &env);
    assert_eq!(
        obj.metadata,
        vec![(b"timestamp_uhlc".to_vec(), b"T1".to_vec())]
    );
    // An entry under another name is not mistaken for the timestamp.
    let got = read_envelope(
        b"p".to_vec(),
        &None,
        &vec![(b"other_field".to_vec(), b"T1".to_vec())],
    );
    assert_eq!(got.timestamp, None);
}
