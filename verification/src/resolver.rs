//! Resolution of a wildcard query against the stored object population.
//!
//! Each listed record's raw key is decoded under the configured prefix; a
//! record that does not decode — a foreign object under the same bucket —
//! is skipped silently rather than failing the whole resolution.  The
//! records whose decoded expressions intersect the query are returned, in
//! the order the listing produced them, and no payload is ever touched.

use vstd::prelude::*;

use crate::codec::decode;
use crate::codec::parseable;
use crate::codec::prefix_ok;
use crate::codec::prefix_view;
use crate::codec::remainder;
use crate::codec::split;
use crate::envelope::ObjectMetadataRecord;
use crate::intersect::inter;
use crate::intersect::intersects;
use crate::keys::KeyExpression;
use crate::keys::StorageKey;

verus! {

/// Whether resolution keeps a record: its raw key must pass the prefix
/// check, read back as a well-formed expression, and intersect the query.
pub open spec fn keeps(pv: Option<Seq<Seq<u8>>>, q: Seq<Seq<u8>>, raw: Seq<u8>) -> bool {
    prefix_ok(pv, raw) && parseable(remainder(pv, raw)) && inter(q, split(remainder(pv, raw)))
}

/// Filters the listed records down to those whose keys decode under the
/// prefix to an expression intersecting the query, keeping the listing
/// order.  Undecodable records are skipped, never an error.
pub fn resolve(
    query: &KeyExpression,
    prefix: &Option<StorageKey>,
    records: Vec<ObjectMetadataRecord>,
) -> (r: Vec<ObjectMetadataRecord>)
    requires
        prefix matches Some(p) ==> p.wf(),
    ensures
        r@ == records@.filter(
            |rec: ObjectMetadataRecord| keeps(prefix_view(*prefix), query@, rec.raw_key@),
        ),
{
    let ghost pv = prefix_view(*prefix);
    let ghost q = query@;
    let ghost pred = |rec: ObjectMetadataRecord| keeps(pv, q, rec.raw_key@);
    let ghost orig = records@;
    let mut rest = records;
    let mut out: Vec<ObjectMetadataRecord> = Vec::new();
    let ghost mut done: int = 0;
    proof {
        assert(orig.take(0) =~= Seq::<ObjectMetadataRecord>::empty());
        lemma_filter_empty(pred);
    }
    while rest.len() > 0
        invariant
            0 <= done <= orig.len(),
            rest@ == orig.skip(done),
            out@ == orig.take(done).filter(pred),
            pv == prefix_view(*prefix),
            q == query@,
            pred == (|rec: ObjectMetadataRecord| keeps(pv, q, rec.raw_key@)),
            prefix matches Some(p) ==> p.wf(),
        decreases rest@.len(),
    {
        let rec = rest.remove(0);
        proof {
            assert(orig.skip(done)[0] == orig[done]);
            assert(orig.skip(done).remove(0) =~= orig.skip(done + 1));
        }
        let keep: bool = match decode(prefix, &rec.raw_key) {
            Ok(e) => intersects(query, &e),
            Err(_) => false,
        };
        proof {
            assert(keep == pred(rec));
            assert(rec == orig[done]);
        }
        if keep {
            out.push(rec);
        }
        proof {
            lemma_filter_push(orig.take(done), orig[done], pred);
            assert(orig.take(done).push(orig[done]) =~= orig.take(done + 1));
            done = done + 1;
        }
    }
    proof {
        assert(orig.take(orig.len() as int) =~= orig);
    }
    out
}

/// Filtering the empty sequence gives the empty sequence.
proof fn lemma_filter_empty(pred: spec_fn(ObjectMetadataRecord) -> bool)
    ensures
        Seq::<ObjectMetadataRecord>::empty().filter(pred)
            == Seq::<ObjectMetadataRecord>::empty(),
{
    reveal(Seq::filter);
}

/// Filtering after appending one element appends it exactly when it passes.
proof fn lemma_filter_push(
    s: Seq<ObjectMetadataRecord>,
    x: ObjectMetadataRecord,
    pred: spec_fn(ObjectMetadataRecord) -> bool,
)
    ensures
        s.push(x).filter(pred) == if pred(x) {
            s.filter(pred).push(x)
        } else {
            s.filter(pred)
        },
{
    reveal(Seq::filter);
    assert(s.push(x).drop_last() =~= s);
    assert(s.push(x).last() == x);
}

} // verus!
