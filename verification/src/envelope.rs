//! The value envelope: payload bytes, an encoding tag, and an optional
//! causal timestamp, round-tripped through an object's body and metadata.
//!
//! The timestamp travels as a backend metadata entry under one fixed,
//! well-known field name.  The encoding tag is stored as the object's
//! content-encoding attribute; a malformed stored tag is read back as the
//! unspecified encoding rather than failing the read.

use vstd::prelude::*;

verus! {

/// The closed set of encoding tags the adapter distinguishes.  Anything
/// else read from the backend collapses to `Unspecified`.
#[derive(Clone, Copy, Debug, PartialEq, Eq, Structural)]
pub enum EncodingTag {
    /// No or unrecognised encoding information.
    Unspecified,
    /// Raw bytes.
    Raw,
    /// Plain text.
    TextPlain,
    /// JSON text.
    AppJson,
}

/// The stored byte form of each encoding tag.
pub open spec fn tag_name(t: EncodingTag) -> Seq<u8> {
    match t {
        EncodingTag::Unspecified => seq![],
        EncodingTag::Raw => seq![114u8, 97u8, 119u8],
        EncodingTag::TextPlain => seq![
            116u8,
            101u8,
            120u8,
            116u8,
            47u8,
            112u8,
            108u8,
            97u8,
            105u8,
            110u8,
        ],
        EncodingTag::AppJson => seq![
            97u8,
            112u8,
            112u8,
            108u8,
            105u8,
            99u8,
            97u8,
            116u8,
            105u8,
            111u8,
            110u8,
            47u8,
            106u8,
            115u8,
            111u8,
            110u8,
        ],
    }
}

/// How a stored tag reads back: an exact known name, or the unspecified
/// fallback for anything malformed.
pub open spec fn spec_parse_tag(s: Seq<u8>) -> EncodingTag {
    if s == tag_name(EncodingTag::Raw) {
        EncodingTag::Raw
    } else if s == tag_name(EncodingTag::TextPlain) {
        EncodingTag::TextPlain
    } else if s == tag_name(EncodingTag::AppJson) {
        EncodingTag::AppJson
    } else {
        EncodingTag::Unspecified
    }
}

/// The fixed metadata field name that carries the causal timestamp.
pub open spec fn timestamp_field_name() -> Seq<u8> {
    seq![
        116u8,
        105u8,
        109u8,
        101u8,
        115u8,
        116u8,
        97u8,
        109u8,
        112u8,
        95u8,
        117u8,
        104u8,
        108u8,
        99u8,
    ]
}

/// First-match lookup in a metadata association list.
pub open spec fn lookup(md: Seq<(Seq<u8>, Seq<u8>)>, k: Seq<u8>) -> Option<Seq<u8>>
    decreases md.len(),
{
    if md.len() == 0 {
        Option::None
    } else if md[0].0 == k {
        Option::Some(md[0].1)
    } else {
        lookup(md.drop_first(), k)
    }
}

/// The value unit that crosses the adapter boundary.
pub struct ValueEnvelope {
    /// The opaque payload bytes.
    pub payload: Vec<u8>,
    /// The encoding tag of the payload.
    pub encoding: EncodingTag,
    /// The causal timestamp representation, if the publisher supplied one.
    pub timestamp: Option<Vec<u8>>,
}

/// What one put stores in the backend for an object.
pub struct StoredObject {
    /// The flat storage key.
    pub key: Vec<u8>,
    /// The object body: the payload bytes.
    pub body: Vec<u8>,
    /// The content-encoding attribute.
    pub content_encoding: Vec<u8>,
    /// The user metadata entries.
    pub metadata: Vec<(Vec<u8>, Vec<u8>)>,
}

/// The metadata subset surfaced to callers by list and get operations; the
/// payload is never carried here.
pub struct ObjectMetadataRecord {
    /// The flat storage key the backend reported.
    pub raw_key: Vec<u8>,
    /// The content-encoding attribute, if the backend reported one.
    pub content_encoding: Option<Vec<u8>>,
    /// The raw user metadata entries.
    pub metadata: Vec<(Vec<u8>, Vec<u8>)>,
}

impl ObjectMetadataRecord {
    /// The causal timestamp carried by this record's metadata, if any: the
    /// entry under the well-known field name.
    pub fn timestamp(&self) -> (r: Option<Vec<u8>>)
        ensures
            r.deep_view() == lookup(self.metadata.deep_view(), timestamp_field_name()),
    {
        let field = timestamp_field();
        metadata_lookup(&self.metadata, &field)
    }
}

/// Writes the byte form of an encoding tag.
pub fn tag_bytes(t: &EncodingTag) -> (r: Vec<u8>)
    ensures
        r@ == tag_name(*t),
{
    let mut out: Vec<u8> = Vec::new();
    match t {
        EncodingTag::Unspecified => {
            proof {
                assert(out@ =~= tag_name(EncodingTag::Unspecified));
            }
        },
        EncodingTag::Raw => {
            out.push(114);
            out.push(97);
            out.push(119);
            proof {
                assert(out@ =~= tag_name(EncodingTag::Raw));
            }
        },
        EncodingTag::TextPlain => {
            out.push(116);
            out.push(101);
            out.push(120);
            out.push(116);
            out.push(47);
            out.push(112);
            out.push(108);
            out.push(97);
            out.push(105);
            out.push(110);
            proof {
                assert(out@ =~= tag_name(EncodingTag::TextPlain));
            }
        },
        EncodingTag::AppJson => {
            out.push(97);
            out.push(112);
            out.push(112);
            out.push(108);
            out.push(105);
            out.push(99);
            out.push(97);
            out.push(116);
            out.push(105);
            out.push(111);
            out.push(110);
            out.push(47);
            out.push(106);
            out.push(115);
            out.push(111);
            out.push(110);
            proof {
                assert(out@ =~= tag_name(EncodingTag::AppJson));
            }
        },
    }
    out
}

/// Byte-wise equality of two byte strings.
fn same_bytes(x: &Vec<u8>, y: &Vec<u8>) -> (b: bool)
    ensures
        b == (x@ == y@),
{
    if x.len() != y.len() {
        return false;
    }
    let mut i: usize = 0;
    while i < x.len()
        invariant
            0 <= i <= x@.len(),
            x@.len() == y@.len(),
            forall|j: int| 0 <= j < i ==> x@[j] == y@[j],
        decreases x@.len() - i,
    {
        if x[i] != y[i] {
            return false;
        }
        i = i + 1;
    }
    proof {
        assert(x@ =~= y@);
    }
    true
}

/// Copies a byte string.
fn clone_bytes(src: &Vec<u8>) -> (r: Vec<u8>)
    ensures
        r@ == src@,
{
    let mut out: Vec<u8> = Vec::new();
    let mut i: usize = 0;
    while i < src.len()
        invariant
            0 <= i <= src@.len(),
            out@ == src@.take(i as int),
        decreases src@.len() - i,
    {
        out.push(src[i]);
        proof {
            assert(src@.take(i as int).push(src@[i as int]) =~= src@.take(i as int + 1));
        }
        i = i + 1;
    }
    proof {
        assert(src@.take(src@.len() as int) =~= src@);
    }
    out
}

/// Reads a stored content-encoding tag back, falling back to the
/// unspecified encoding on anything unrecognised.
pub fn parse_tag(s: &Vec<u8>) -> (r: EncodingTag)
    ensures
        r == spec_parse_tag(s@),
{
    let raw = tag_bytes(&EncodingTag::Raw);
    if same_bytes(s, &raw) {
        return EncodingTag::Raw;
    }
    let plain = tag_bytes(&EncodingTag::TextPlain);
    if same_bytes(s, &plain) {
        return EncodingTag::TextPlain;
    }
    let json = tag_bytes(&EncodingTag::AppJson);
    if same_bytes(s, &json) {
        return EncodingTag::AppJson;
    }
    EncodingTag::Unspecified
}

/// Every encoding tag survives the trip through its stored byte form; in
/// particular a stored tag written by this adapter never falls back.
pub proof fn lemma_tag_round_trip(t: EncodingTag)
    ensures
        spec_parse_tag(tag_name(t)) == t,
{
    match t {
        EncodingTag::Unspecified => {
            assert(tag_name(EncodingTag::Unspecified).len() == 0);
            assert(tag_name(EncodingTag::Raw).len() == 3);
            assert(tag_name(EncodingTag::TextPlain).len() == 10);
            assert(tag_name(EncodingTag::AppJson).len() == 16);
        },
        EncodingTag::Raw => {
        },
        EncodingTag::TextPlain => {
            assert(tag_name(EncodingTag::TextPlain).len() == 10);
            assert(tag_name(EncodingTag::Raw).len() == 3);
        },
        EncodingTag::AppJson => {
            assert(tag_name(EncodingTag::AppJson).len() == 16);
            assert(tag_name(EncodingTag::Raw).len() == 3);
            assert(tag_name(EncodingTag::TextPlain).len() == 10);
        },
    }
}

/// Writes the fixed timestamp metadata field name.
pub fn timestamp_field() -> (r: Vec<u8>)
    ensures
        r@ == timestamp_field_name(),
{
    let mut out: Vec<u8> = Vec::new();
    out.push(116);
    out.push(105);
    out.push(109);
    out.push(101);
    out.push(115);
    out.push(116);
    out.push(97);
    out.push(109);
    out.push(112);
    out.push(95);
    out.push(117);
    out.push(104);
    out.push(108);
    out.push(99);
    proof {
        assert(out@ =~= timestamp_field_name());
    }
    out
}

/// Serialises an envelope for a put: the payload becomes the body, the
/// encoding tag the content-encoding attribute, and the timestamp (when
/// present) the single metadata entry under the well-known field name.
pub fn build_put_object(key: Vec<u8>, env: &ValueEnvelope) -> (r: StoredObject)
    ensures
        r.key@ == key@,
        r.body@ == env.payload@,
        r.content_encoding@ == tag_name(env.encoding),
        env.timestamp matches Some(ts) ==> r.metadata.deep_view() == seq![
            (timestamp_field_name(), ts@),
        ],
        env.timestamp is None ==> r.metadata.deep_view() == Seq::<(Seq<u8>, Seq<u8>)>::empty(),
{
    let body = clone_bytes(&env.payload);
    let content_encoding = tag_bytes(&env.encoding);
    let mut metadata: Vec<(Vec<u8>, Vec<u8>)> = Vec::new();
    match &env.timestamp {
        Option::Some(ts) => {
            let entry = (timestamp_field(), clone_bytes(ts));
            metadata.push(entry);
            proof {
                assert(metadata.deep_view() =~~= seq![(timestamp_field_name(), ts@)]);
            }
        },
        Option::None => {
            proof {
                assert(metadata.deep_view() =~~= Seq::<(Seq<u8>, Seq<u8>)>::empty());
            }
        },
    }
    StoredObject { key, body, content_encoding, metadata }
}

/// Looks a key up in a metadata association list, returning the first
/// matching value.
pub fn metadata_lookup(md: &Vec<(Vec<u8>, Vec<u8>)>, k: &Vec<u8>) -> (r: Option<Vec<u8>>)
    ensures
        r.deep_view() == lookup(md.deep_view(), k@),
{
    let ghost dv = md.deep_view();
    let mut i: usize = 0;
    while i < md.len()
        invariant
            0 <= i <= md@.len(),
            dv == md.deep_view(),
            dv.len() == md@.len(),
            forall|j: int| 0 <= j < i ==> #[trigger] dv[j].0 != k@,
        decreases md@.len() - i,
    {
        proof {
            assert(dv[i as int] == (md@[i as int].0@, md@[i as int].1@));
        }
        if same_bytes(&md[i].0, k) {
            let out = clone_bytes(&md[i].1);
            proof {
                lemma_lookup_hit(dv, k@, i as int);
            }
            return Some(out);
        }
        i = i + 1;
    }
    proof {
        lemma_lookup_miss(dv, k@);
    }
    None
}

/// When every entry before `i` misses and entry `i` hits, the lookup
/// returns entry `i`'s value.
proof fn lemma_lookup_hit(md: Seq<(Seq<u8>, Seq<u8>)>, k: Seq<u8>, i: int)
    requires
        0 <= i < md.len(),
        md[i].0 == k,
        forall|j: int| 0 <= j < i ==> #[trigger] md[j].0 != k,
    ensures
        lookup(md, k) == Option::Some(md[i].1),
    decreases md.len(),
{
    if i > 0 {
        lemma_lookup_hit(md.drop_first(), k, i - 1);
    }
}

/// When every entry misses, the lookup returns nothing.
proof fn lemma_lookup_miss(md: Seq<(Seq<u8>, Seq<u8>)>, k: Seq<u8>)
    requires
        forall|j: int| 0 <= j < md.len() ==> #[trigger] md[j].0 != k,
    ensures
        lookup(md, k) == Option::<Seq<u8>>::None,
    decreases md.len(),
{
    if md.len() > 0 {
        lemma_lookup_miss(md.drop_first(), k);
    }
}

/// Reconstructs an envelope from an object's body, content-encoding
/// attribute and metadata, as a get returns them.  A missing or malformed
/// encoding tag falls back to the unspecified encoding; the timestamp is
/// the metadata entry under the well-known field name, if any.
pub fn read_envelope(
    body: Vec<u8>,
    content_encoding: &Option<Vec<u8>>,
    metadata: &Vec<(Vec<u8>, Vec<u8>)>,
) -> (r: ValueEnvelope)
    ensures
        r.payload@ == body@,
        r.encoding == (match *content_encoding {
            Option::Some(ce) => spec_parse_tag(ce@),
            Option::None => EncodingTag::Unspecified,
        }),
        r.timestamp.deep_view() == lookup(metadata.deep_view(), timestamp_field_name()),
{
    let encoding = match content_encoding {
        Option::Some(ce) => parse_tag(ce),
        Option::None => EncodingTag::Unspecified,
    };
    let field = timestamp_field();
    let timestamp = metadata_lookup(metadata, &field);
    ValueEnvelope { payload: body, encoding, timestamp }
}

/// An envelope written by `build_put_object` reads back unchanged: the
/// encoding tag never falls back, and the stored timestamp entry is found
/// under the well-known field name.
pub proof fn lemma_envelope_round_trip(t: EncodingTag, ts: Seq<u8>)
    ensures
        spec_parse_tag(tag_name(t)) == t,
        lookup(seq![(timestamp_field_name(), ts)], timestamp_field_name()) == Option::Some(ts),
        lookup(Seq::<(Seq<u8>, Seq<u8>)>::empty(), timestamp_field_name())
            == Option::<Seq<u8>>::None,
{
    lemma_tag_round_trip(t);
}

} // verus!
