//! Codec between key expressions and flat storage keys.
//!
//! Encoding joins the optional prefix segments and the expression segments
//! with the delimiter into one byte string; decoding strips the prefix and
//! splits the remainder back into segments.  The two are mutual inverses for
//! every well-formed expression, which `lemma_codec_round_trip` states.

use vstd::prelude::*;

use crate::keys::KeyExpression;
use crate::keys::StorageKey;
use crate::keys::SLASH;
use crate::keys::is_wf_part;
use crate::keys::lemma_deep_view_index;
use crate::keys::wf_expr;
use crate::keys::wf_key;
use crate::keys::wf_part;
use crate::keys::is_single_wild;
use crate::keys::is_multi_wild;

verus! {

/// Local, non-remote failures of the codec.
#[derive(Clone, Copy, Debug, PartialEq, Eq, Structural)]
pub enum CodecError {
    /// The byte string cannot be read back as a well-formed key expression,
    /// or a wildcard expression was given where a concrete key is required.
    InvalidKey,
    /// The byte string does not start with the configured prefix.
    PrefixMismatch,
}

/// True when the byte string contains no segment delimiter.
pub open spec fn slash_free(s: Seq<u8>) -> bool {
    forall|i: int| 0 <= i < s.len() ==> s[i] != SLASH
}

/// The segments joined with the delimiter.
pub open spec fn join(parts: Seq<Seq<u8>>) -> Seq<u8>
    decreases parts.len(),
{
    if parts.len() == 0 {
        Seq::empty()
    } else if parts.len() == 1 {
        parts[0]
    } else {
        parts[0] + seq![SLASH] + join(parts.drop_first())
    }
}

/// Index of the first delimiter byte, or -1 when there is none.
pub open spec fn first_slash(s: Seq<u8>) -> int
    decreases s.len(),
{
    if s.len() == 0 {
        -1
    } else if s[0] == SLASH {
        0
    } else {
        let r = first_slash(s.drop_first());
        if r == -1 {
            -1
        } else {
            r + 1
        }
    }
}

/// The byte string split at each delimiter.  Splitting never fails: a string
/// without a delimiter is one (possibly empty) segment.
pub open spec fn split(s: Seq<u8>) -> Seq<Seq<u8>>
    decreases s.len(),
{
    let i = first_slash(s);
    if 0 <= i < s.len() {
        seq![s.take(i)] + split(s.skip(i + 1))
    } else {
        seq![s]
    }
}

/// `first_slash` finds the first delimiter: it is in bounds, it points at a
/// delimiter, and nothing before it is one.
pub proof fn lemma_first_slash(s: Seq<u8>)
    ensures
        -1 <= first_slash(s) < s.len(),
        first_slash(s) == -1 ==> slash_free(s),
        first_slash(s) >= 0 ==> s[first_slash(s)] == SLASH,
        first_slash(s) >= 0 ==> forall|j: int| 0 <= j < first_slash(s) ==> s[j] != SLASH,
    decreases s.len(),
{
    if s.len() == 0 {
    } else if s[0] == SLASH {
    } else {
        lemma_first_slash(s.drop_first());
        let r = first_slash(s.drop_first());
        if r == -1 {
            assert forall|i: int| 0 <= i < s.len() implies s[i] != SLASH by {
                if i > 0 {
                    assert(s.drop_first()[i - 1] == s[i]);
                }
            }
        } else {
            assert(s[r + 1] == s.drop_first()[r]);
            assert forall|j: int| 0 <= j < r + 1 implies s[j] != SLASH by {
                if j > 0 {
                    assert(s.drop_first()[j - 1] == s[j]);
                }
            }
        }
    }
}

/// A delimiter at `k` with none before it is the first one.
pub proof fn lemma_first_slash_at(s: Seq<u8>, k: int)
    requires
        0 <= k < s.len(),
        s[k] == SLASH,
        forall|j: int| 0 <= j < k ==> s[j] != SLASH,
    ensures
        first_slash(s) == k,
{
    lemma_first_slash(s);
    let f = first_slash(s);
    if f == -1 {
        assert(s[k] != SLASH);
    } else if f < k {
        assert(s[f] != SLASH);
    } else if f > k {
        assert(s[k] != SLASH);
    }
}

/// Joining the pieces of a split gives the original string back.
pub proof fn lemma_join_split(s: Seq<u8>)
    ensures
        join(split(s)) == s,
    decreases s.len(),
{
    lemma_first_slash(s);
    let i = first_slash(s);
    if 0 <= i < s.len() {
        lemma_join_split(s.skip(i + 1));
        let rest = split(s.skip(i + 1));
        let whole = seq![s.take(i)] + rest;
        assert(rest.len() >= 1) by {
            lemma_split_nonempty(s.skip(i + 1));
        }
        assert(whole.drop_first() =~= rest);
        assert(join(whole) == s.take(i) + seq![SLASH] + join(rest));
        assert(s.take(i) + seq![SLASH] + s.skip(i + 1) =~= s);
    }
}

/// A split has at least one piece.
pub proof fn lemma_split_nonempty(s: Seq<u8>)
    ensures
        split(s).len() >= 1,
{
    let i = first_slash(s);
    if 0 <= i < s.len() {
    } else {
    }
}

/// Splitting the join of delimiter-free segments gives the segments back.
pub proof fn lemma_split_join(parts: Seq<Seq<u8>>)
    requires
        parts.len() > 0,
        forall|i: int| 0 <= i < parts.len() ==> slash_free(#[trigger] parts[i]),
    ensures
        split(join(parts)) == parts,
    decreases parts.len(),
{
    if parts.len() == 1 {
        lemma_first_slash(parts[0]);
        if first_slash(parts[0]) >= 0 {
            assert(parts[0][first_slash(parts[0])] == SLASH);
        }
        assert(split(join(parts)) =~= parts);
    } else {
        let s = join(parts);
        let k = parts[0].len() as int;
        let rest = join(parts.drop_first());
        assert(s == parts[0] + seq![SLASH] + rest);
        assert(s[k] == SLASH);
        assert forall|j: int| 0 <= j < k implies s[j] != SLASH by {
            assert(s[j] == parts[0][j]);
        }
        lemma_first_slash_at(s, k);
        assert(s.take(k) =~= parts[0]);
        assert(s.skip(k + 1) =~= rest);
        lemma_split_join(parts.drop_first());
        assert(split(s) =~= seq![parts[0]] + split(rest));
        assert(seq![parts[0]] + parts.drop_first() =~= parts);
    }
}

/// Appending a segment to a joined list appends a delimiter and the segment.
pub proof fn lemma_join_push(parts: Seq<Seq<u8>>, x: Seq<u8>)
    ensures
        parts.len() == 0 ==> join(parts.push(x)) == x,
        parts.len() > 0 ==> join(parts.push(x)) == join(parts) + seq![SLASH] + x,
    decreases parts.len(),
{
    let p = parts.push(x);
    if parts.len() == 0 {
        assert(p.len() == 1);
        assert(p[0] == x);
    } else if parts.len() == 1 {
        assert(p.len() == 2);
        assert(p.drop_first() =~= seq![x]);
        assert(join(p.drop_first()) == x);
        assert(join(parts) == parts[0]);
    } else {
        lemma_join_push(parts.drop_first(), x);
        assert(p.drop_first() =~= parts.drop_first().push(x));
        assert(join(p) == p[0] + seq![SLASH] + join(p.drop_first()));
        assert(p[0] == parts[0]);
        assert(join(parts.drop_first().push(x)) == join(parts.drop_first()) + seq![SLASH] + x);
        assert(parts[0] + seq![SLASH] + (join(parts.drop_first()) + seq![SLASH] + x) =~= (parts[0]
            + seq![SLASH] + join(parts.drop_first())) + seq![SLASH] + x);
    }
}

/// Joining a concatenation joins the two halves around one delimiter.
pub proof fn lemma_join_append(a: Seq<Seq<u8>>, b: Seq<Seq<u8>>)
    requires
        a.len() > 0,
        b.len() > 0,
    ensures
        join(a + b) == join(a) + seq![SLASH] + join(b),
    decreases a.len(),
{
    if a.len() == 1 {
        let w = a + b;
        assert(w.len() >= 2);
        assert(w[0] == a[0]);
        assert(w.drop_first() =~= b);
        assert(join(w) == a[0] + seq![SLASH] + join(b));
        assert(join(a) == a[0]);
    } else {
        lemma_join_append(a.drop_first(), b);
        let w = a + b;
        assert(w.drop_first() =~= a.drop_first() + b);
        assert(join(w) == w[0] + seq![SLASH] + join(a.drop_first() + b));
        assert(w[0] == a[0]);
        assert(a[0] + seq![SLASH] + (join(a.drop_first()) + seq![SLASH] + join(b)) =~= (a[0]
            + seq![SLASH] + join(a.drop_first())) + seq![SLASH] + join(b));
    }
}

/// A well-formed expression segment is non-empty and free of delimiters.
pub proof fn lemma_wf_part_slash_free(s: Seq<u8>)
    requires
        wf_part(s),
    ensures
        slash_free(s),
        s.len() > 0,
{
    if is_single_wild(s) {
        assert(s =~= seq![crate::keys::STAR]);
        assert(forall|i: int| 0 <= i < s.len() ==> s[i] == crate::keys::STAR);
    } else if is_multi_wild(s) {
        assert(s =~= seq![crate::keys::STAR, crate::keys::STAR]);
        assert(forall|i: int| 0 <= i < s.len() ==> s[i] == crate::keys::STAR);
    }
}

/// The view of an optional prefix key.
pub open spec fn prefix_view(prefix: Option<StorageKey>) -> Option<Seq<Seq<u8>>> {
    match prefix {
        Option::Some(p) => Option::Some(p@),
        Option::None => Option::None,
    }
}

/// A well-formed optional prefix.
pub open spec fn wf_prefix(prefix: Option<Seq<Seq<u8>>>) -> bool {
    match prefix {
        Option::Some(p) => wf_key(p),
        Option::None => true,
    }
}

/// The flat byte string that an expression encodes to under a prefix.
pub open spec fn spec_encode(prefix: Option<Seq<Seq<u8>>>, parts: Seq<Seq<u8>>) -> Seq<u8> {
    match prefix {
        Option::Some(p) => join(p + parts),
        Option::None => join(parts),
    }
}

/// True when the raw byte string starts with the joined prefix followed by a
/// delimiter.  With no prefix configured every raw key passes.
pub open spec fn prefix_ok(prefix: Option<Seq<Seq<u8>>>, raw: Seq<u8>) -> bool {
    match prefix {
        Option::Some(p) => {
            let pb = join(p);
            raw.len() > pb.len() && raw.take(pb.len() as int) == pb && raw[pb.len() as int]
                == SLASH
        },
        Option::None => true,
    }
}

/// The raw byte string with the prefix and its delimiter stripped.
pub open spec fn remainder(prefix: Option<Seq<Seq<u8>>>, raw: Seq<u8>) -> Seq<u8> {
    match prefix {
        Option::Some(p) => raw.skip(join(p).len() as int + 1),
        Option::None => raw,
    }
}

/// True when every piece of the split is a well-formed expression segment,
/// so the byte string reads back as a well-formed key expression.  An empty
/// remainder is not parseable: its single piece is the empty segment.
pub open spec fn parseable(s: Seq<u8>) -> bool {
    forall|i: int| 0 <= i < split(s).len() ==> wf_part(#[trigger] split(s)[i])
}

/// Round trip: the encoding of any well-formed expression under a
/// well-formed prefix passes the prefix check and splits back into exactly
/// the expression's segments.  Decoding an encoded key therefore returns the
/// key that was encoded.
pub proof fn lemma_codec_round_trip(prefix: Option<Seq<Seq<u8>>>, parts: Seq<Seq<u8>>)
    requires
        wf_prefix(prefix),
        wf_expr(parts),
    ensures
        prefix_ok(prefix, spec_encode(prefix, parts)),
        parseable(remainder(prefix, spec_encode(prefix, parts))),
        split(remainder(prefix, spec_encode(prefix, parts))) == parts,
{
    assert forall|i: int| 0 <= i < parts.len() implies slash_free(#[trigger] parts[i])
        && parts[i].len() > 0 by {
        lemma_wf_part_slash_free(parts[i]);
    }
    match prefix {
        Option::Some(p) => {
            let enc = join(p + parts);
            lemma_join_append(p, parts);
            let pb = join(p);
            assert(enc == pb + seq![SLASH] + join(parts));
            assert(enc.take(pb.len() as int) =~= pb);
            assert(enc[pb.len() as int] == SLASH);
            assert(enc.len() > pb.len());
            assert(enc.skip(pb.len() as int + 1) =~= join(parts));
            lemma_split_join(parts);
        },
        Option::None => {
            lemma_split_join(parts);
        },
    }
}

/// Prefix isolation: a raw key that does not start with the prefix is the
/// encoding of no well-formed expression under that prefix, so decoding it
/// can only report a prefix mismatch.
pub proof fn lemma_prefix_isolation(prefix: Option<Seq<Seq<u8>>>, raw: Seq<u8>, parts: Seq<Seq<u8>>)
    requires
        wf_prefix(prefix),
        wf_expr(parts),
        !prefix_ok(prefix, raw),
    ensures
        spec_encode(prefix, parts) != raw,
{
    lemma_codec_round_trip(prefix, parts);
}

/// Copies a byte vector.
fn copy_bytes(src: &Vec<u8>) -> (r: Vec<u8>)
    ensures
        r@ == src@,
{
    let mut out: Vec<u8> = Vec::new();
    let mut i: usize = 0;
    while i < src.len()
        invariant
            0 <= i <= src@.len(),
            out@ == src@.take(i as int),
        decreases src@.len() - i,
    {
        out.push(src[i]);
        proof {
            assert(src@.take(i as int).push(src@[i as int]) =~= src@.take(i as int + 1));
        }
        i = i + 1;
    }
    proof {
        assert(src@.take(src@.len() as int) =~= src@);
    }
    out
}

/// Appends the bytes of `src` to `out`.
fn extend_bytes(out: &mut Vec<u8>, src: &Vec<u8>)
    ensures
        final(out)@ == old(out)@ + src@,
{
    let mut i: usize = 0;
    while i < src.len()
        invariant
            0 <= i <= src@.len(),
            out@ == old(out)@ + src@.take(i as int),
        decreases src@.len() - i,
    {
        out.push(src[i]);
        proof {
            assert((old(out)@ + src@.take(i as int)).push(src@[i as int]) =~= old(out)@
                + src@.take(i as int + 1));
        }
        i = i + 1;
    }
    proof {
        assert(old(out)@ + src@.take(src@.len() as int) =~= old(out)@ + src@);
    }
}

/// Joins a non-empty list of segments with the delimiter.
pub fn join_parts(parts: &Vec<Vec<u8>>) -> (r: Vec<u8>)
    requires
        parts@.len() > 0,
    ensures
        r@ == join(parts.deep_view()),
{
    let ghost dv = parts.deep_view();
    let mut out: Vec<u8> = Vec::new();
    let mut i: usize = 0;
    while i < parts.len()
        invariant
            0 <= i <= parts@.len(),
            dv == parts.deep_view(),
            dv.len() == parts@.len(),
            out@ == join(dv.take(i as int)),
        decreases parts@.len() - i,
    {
        if i > 0 {
            out.push(SLASH);
        }
        extend_bytes(&mut out, &parts[i]);
        proof {
            lemma_deep_view_index(parts, i as int);
            lemma_join_push(dv.take(i as int), dv[i as int]);
            assert(dv.take(i as int).push(dv[i as int]) =~= dv.take(i as int + 1));
            if i == 0 {
                assert(out@ =~= join(dv.take(1)));
            } else {
                assert(out@ =~= join(dv.take(i as int)) + seq![SLASH] + dv[i as int]);
            }
        }
        i = i + 1;
    }
    proof {
        assert(dv.take(dv.len() as int) =~= dv);
    }
    out
}

/// True when `raw` starts with the bytes of `pfx` followed by a delimiter.
fn has_prefix_slash(pfx: &Vec<u8>, raw: &Vec<u8>) -> (b: bool)
    ensures
        b == (raw@.len() > pfx@.len() && raw@.take(pfx@.len() as int) == pfx@ && raw@[pfx@.len() as int] == SLASH),
{
    if raw.len() <= pfx.len() {
        return false;
    }
    let mut i: usize = 0;
    while i < pfx.len()
        invariant
            0 <= i <= pfx@.len(),
            raw@.len() > pfx@.len(),
            forall|j: int| 0 <= j < i ==> raw@[j] == pfx@[j],
        decreases pfx@.len() - i,
    {
        if raw[i] != pfx[i] {
            proof {
                assert(raw@.take(pfx@.len() as int)[i as int] == raw@[i as int]);
            }
            return false;
        }
        i = i + 1;
    }
    proof {
        assert(raw@.take(pfx@.len() as int) =~= pfx@);
    }
    raw[pfx.len()] == SLASH
}

/// Encodes a key expression under the optional prefix into the flat storage
/// key.  Only a concrete expression can be encoded: a wildcard expression is
/// rejected with `InvalidKey`.
pub fn encode(prefix: &Option<StorageKey>, expr: &KeyExpression) -> (r: Result<Vec<u8>, CodecError>)
    requires
        expr.wf(),
        prefix matches Some(p) ==> p.wf(),
    ensures
        expr.is_concrete() ==> (r matches Ok(raw) && raw@ == spec_encode(
            prefix_view(*prefix),
            expr@,
        )),
        !expr.is_concrete() ==> r == Err::<Vec<u8>, CodecError>(CodecError::InvalidKey),
{
    if !expr.check_concrete() {
        return Err(CodecError::InvalidKey);
    }
    let mut all: Vec<Vec<u8>> = Vec::new();
    let ghost target: Seq<Seq<u8>> = match prefix {
        Option::Some(p) => p@ + expr@,
        Option::None => expr@,
    };
    match prefix {
        Option::Some(p) => {
            let mut i: usize = 0;
            while i < p.segments.len()
                invariant
                    0 <= i <= p@.len(),
                    p@.len() == p.segments@.len(),
                    all.deep_view() =~= p@.take(i as int),
                decreases p@.len() - i,
            {
                proof {
                    lemma_deep_view_index(&p.segments, i as int);
                }
                all.push(copy_bytes(&p.segments[i]));
                proof {
                    assert(all.deep_view() =~= p@.take(i as int).push(p@[i as int]));
                    assert(p@.take(i as int).push(p@[i as int]) =~= p@.take(i as int + 1));
                }
                i = i + 1;
            }
            proof {
                assert(p@.take(p@.len() as int) =~= p@);
            }
        },
        Option::None => {},
    }
    let ghost base: Seq<Seq<u8>> = all.deep_view();
    let mut i: usize = 0;
    while i < expr.parts.len()
        invariant
            0 <= i <= expr@.len(),
            expr@.len() == expr.parts@.len(),
            all.deep_view() =~= base + expr@.take(i as int),
        decreases expr@.len() - i,
    {
        proof {
            lemma_deep_view_index(&expr.parts, i as int);
        }
        all.push(copy_bytes(&expr.parts[i]));
        proof {
            assert(all.deep_view() =~= (base + expr@.take(i as int)).push(expr@[i as int]));
            assert((base + expr@.take(i as int)).push(expr@[i as int]) =~= base + expr@.take(
                i as int + 1,
            ));
        }
        i = i + 1;
    }
    proof {
        assert(base + expr@.take(expr@.len() as int) =~= target);
        assert(target.len() > 0);
    }
    let raw = join_parts(&all);
    Ok(raw)
}

/// Decodes a flat storage key back into a key expression, stripping the
/// optional prefix first.  Fails with `PrefixMismatch` when the raw key does
/// not start with the prefix, and with `InvalidKey` when the remainder does
/// not read back as a well-formed expression (in particular when it is
/// empty).
pub fn decode(prefix: &Option<StorageKey>, raw: &Vec<u8>) -> (r: Result<KeyExpression, CodecError>)
    requires
        prefix matches Some(p) ==> p.wf(),
    ensures
        !prefix_ok(prefix_view(*prefix), raw@) ==> r == Err::<KeyExpression, CodecError>(
            CodecError::PrefixMismatch,
        ),
        prefix_ok(prefix_view(*prefix), raw@) && !parseable(
            remainder(prefix_view(*prefix), raw@),
        ) ==> r == Err::<KeyExpression, CodecError>(CodecError::InvalidKey),
        prefix_ok(prefix_view(*prefix), raw@) && parseable(
            remainder(prefix_view(*prefix), raw@),
        ) ==> (r matches Ok(e) && e@ == split(remainder(prefix_view(*prefix), raw@)) && e.wf()),
{
    let ghost pv = prefix_view(*prefix);
    let start: usize;
    match prefix {
        Option::Some(p) => {
            let pb = join_parts(&p.segments);
            if raw.len() <= pb.len() {
                return Err(CodecError::PrefixMismatch);
            }
            if !has_prefix_slash(&pb, raw) {
                return Err(CodecError::PrefixMismatch);
            }
            proof {
                assert(prefix_ok(pv, raw@));
            }
            start = pb.len() + 1;
        },
        Option::None => {
            start = 0;
        },
    }
    let ghost rem = remainder(pv, raw@);
    proof {
        assert(prefix_ok(pv, raw@));
        assert(raw@.skip(start as int) =~= rem);
        assert(raw@.subrange(start as int, start as int) =~= Seq::<u8>::empty());
        assert(Seq::<Seq<u8>>::empty().push(Seq::<u8>::empty()) =~= seq![Seq::<u8>::empty()]);
        assert(join(seq![Seq::<u8>::empty()]) == Seq::<u8>::empty());
    }
    let mut parts: Vec<Vec<u8>> = Vec::new();
    let mut cur: Vec<u8> = Vec::new();
    proof {
        assert(parts.deep_view().push(cur@) =~~= seq![Seq::<u8>::empty()]);
    }
    let mut i: usize = start;
    while i < raw.len()
        invariant
            start <= i <= raw@.len(),
            rem == raw@.skip(start as int),
            join(parts.deep_view().push(cur@)) == raw@.subrange(start as int, i as int),
            forall|j: int| 0 <= j < parts.deep_view().len() ==> slash_free(
                #[trigger] parts.deep_view()[j],
            ),
            slash_free(cur@),
        decreases raw@.len() - i,
    {
        let ghost dv = parts.deep_view();
        let ghost cv = cur@;
        let ghost done = raw@.subrange(start as int, i as int);
        let b: u8 = raw[i];
        if b == SLASH {
            parts.push(cur);
            cur = Vec::new();
            proof {
                assert(parts.deep_view() =~~= dv.push(cv));
                lemma_join_push(dv.push(cv), Seq::<u8>::empty());
                assert(join(dv.push(cv).push(Seq::<u8>::empty())) =~= done + seq![SLASH]);
                assert(done + seq![SLASH] =~= raw@.subrange(start as int, i as int + 1));
            }
        } else {
            cur.push(b);
            proof {
                lemma_join_push(dv, cv);
                lemma_join_push(dv, cv.push(b));
                if dv.len() == 0 {
                    assert(join(dv.push(cv.push(b))) =~= done.push(b));
                } else {
                    assert(join(dv) + seq![SLASH] + cv.push(b) =~= (join(dv) + seq![SLASH]
                        + cv).push(b));
                }
                assert(done.push(b) =~= raw@.subrange(start as int, i as int + 1));
            }
        }
        i = i + 1;
    }
    let ghost dv = parts.deep_view();
    let ghost cv = cur@;
    parts.push(cur);
    let ghost all = parts.deep_view();
    proof {
        assert(all =~~= dv.push(cv));
        assert(raw@.subrange(start as int, raw@.len() as int) =~= rem);
        assert(join(all) == rem);
        lemma_split_join(all);
    }
    let mut j: usize = 0;
    while j < parts.len()
        invariant
            0 <= j <= parts@.len(),
            all == parts.deep_view(),
            all.len() == parts@.len(),
            split(rem) == all,
            pv == prefix_view(*prefix),
            prefix_ok(pv, raw@),
            rem == remainder(pv, raw@),
            forall|m: int| 0 <= m < j ==> wf_part(#[trigger] all[m]),
        decreases parts@.len() - j,
    {
        proof {
            lemma_deep_view_index(&parts, j as int);
        }
        if !is_wf_part(&parts[j]) {
            proof {
                assert(!wf_part(split(rem)[j as int]));
            }
            return Err(CodecError::InvalidKey);
        }
        j = j + 1;
    }
    let out = KeyExpression { parts };
    Ok(out)
}

} // verus!
