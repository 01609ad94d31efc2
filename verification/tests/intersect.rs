use s3_adapter::intersect::intersects;
use s3_adapter::keys::KeyExpression;

fn expr(path: &str) -> KeyExpression {
    KeyExpression {
        parts: path.split('/').map(|s| s.as_bytes().to_vec()).collect(),
    }
}

#[test]
fn single_level_wildcard_matches_one_segment() {
    assert!(intersects(&expr("a/*/c"), &expr("a/b/c")));
    assert!(!intersects(&expr("a/*/c"), &expr("a/b/c/d")));
    assert!(!intersects(&expr("a/*/c"), &expr("a/c")));
}

#[test]
fn multi_level_wildcard_matches_zero_or_more() {
    assert!(intersects(&expr("a/**"), &expr("a")));
    assert!(intersects(&expr("a/**"), &expr("a/b")));
    assert!(intersects(&expr("a/**"), &expr("a/b/c")));
    assert!(!intersects(&expr("a/**"), &expr("b")));
}

#[test]
fn single_level_wildcard_needs_its_segment() {
    assert!(!intersects(&expr("a/*"), &expr("a")));
    assert!(intersects(&expr("a/*"), &expr("a/b")));
}

#[test]
fn concrete_keys_intersect_only_themselves() {
    assert!(intersects(&expr("room1/temp"), &expr("room1/temp")));
    assert!(!intersects(&expr("room1/temp"), &expr("room2/temp")));
    assert!(!intersects(&expr("room1/temp"), &expr("room1/temp/more")));
}

#[test]
fn wildcards_on_both_sides() {
    assert!(intersects(&expr("a/*"), &expr("a/**")));
    assert!(intersects(&expr("**"), &expr("x/y/z")));
    assert!(intersects(&expr("a/**/d"), &expr("a/*/c/*")));
    assert!(!intersects(&expr("a/**/d"), &expr("b/**")));
}

#[test]
fn intersection_is_symmetric_on_samples() {
    let cases = [
        ("a/*/c", "a/b/c"),
        ("a/**", "a/b"),
        ("a/*", "a"),
        ("a/**/d", "a/*/c/*"),
        ("room1/*", "room1/temp"),
    ];
    for (l, r) in cases {
        assert_eq!(
            intersects(&expr(l), &expr(r)),
            intersects(&expr(r), &expr(l))
        );
    }
}
