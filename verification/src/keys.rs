//! Hierarchical keys: storage keys and wildcard key expressions.
//!
//! A key is a non-empty sequence of `/`-delimited segments.  A storage key is
//! fully concrete; a key expression may additionally use the single-level
//! wildcard segment `*` (matches exactly one segment) or the multi-level
//! wildcard segment `**` (matches zero or more segments).  Keys are modelled
//! as byte strings, the form in which the backend stores them.

use vstd::prelude::*;

verus! {

/// The byte that separates segments in a flat storage key.
pub const SLASH: u8 = 47;

/// The byte that wildcard segments are made of.
pub const STAR: u8 = 42;

/// A well-formed concrete segment: non-empty and free of the delimiter and
/// wildcard bytes.
pub open spec fn wf_seg(s: Seq<u8>) -> bool {
    s.len() > 0 && forall|i: int| 0 <= i < s.len() ==> s[i] != SLASH && s[i] != STAR
}

/// The single-level wildcard segment `*`.
pub open spec fn is_single_wild(s: Seq<u8>) -> bool {
    s == seq![STAR]
}

/// The multi-level wildcard segment `**`.
pub open spec fn is_multi_wild(s: Seq<u8>) -> bool {
    s == seq![STAR, STAR]
}

/// A well-formed key-expression segment: concrete or one of the wildcards.
pub open spec fn wf_part(s: Seq<u8>) -> bool {
    wf_seg(s) || is_single_wild(s) || is_multi_wild(s)
}

/// A well-formed storage key: at least one segment, all concrete.
pub open spec fn wf_key(parts: Seq<Seq<u8>>) -> bool {
    parts.len() > 0 && forall|i: int| 0 <= i < parts.len() ==> wf_seg(#[trigger] parts[i])
}

/// Every segment is well-formed: concrete or a wildcard.
pub open spec fn parts_wf(parts: Seq<Seq<u8>>) -> bool {
    forall|i: int| 0 <= i < parts.len() ==> wf_part(#[trigger] parts[i])
}

/// A well-formed key expression: at least one segment, each concrete or a
/// wildcard.
pub open spec fn wf_expr(parts: Seq<Seq<u8>>) -> bool {
    parts.len() > 0 && parts_wf(parts)
}

/// True when no segment of the expression is a wildcard.
pub open spec fn concrete(parts: Seq<Seq<u8>>) -> bool {
    forall|i: int| 0 <= i < parts.len() ==> wf_seg(#[trigger] parts[i])
}

/// A concrete, persistable key: what an object is stored under once the
/// prefix is applied.
#[derive(Debug, PartialEq, Eq, Clone)]
pub struct StorageKey {
    pub segments: Vec<Vec<u8>>,
}

impl View for StorageKey {
    type V = Seq<Seq<u8>>;

    open spec fn view(&self) -> Seq<Seq<u8>> {
        self.segments.deep_view()
    }
}

/// A query address: like a storage key, but any segment may be a wildcard.
/// Used to address publications and queries; never persisted.
#[derive(Debug, PartialEq, Eq, Clone)]
pub struct KeyExpression {
    pub parts: Vec<Vec<u8>>,
}

impl View for KeyExpression {
    type V = Seq<Seq<u8>>;

    open spec fn view(&self) -> Seq<Seq<u8>> {
        self.parts.deep_view()
    }
}

/// A list of byte vectors, seen deeply, indexes to the view of each element.
pub proof fn lemma_deep_view_index(v: &Vec<Vec<u8>>, i: int)
    requires
        0 <= i < v@.len(),
    ensures
        v.deep_view().len() == v@.len(),
        v.deep_view()[i] == v@[i]@,
{
    assert(v@[i].deep_view() =~= v@[i]@);
}

/// Checks that a byte string is a well-formed concrete segment.
pub fn is_wf_segment(s: &Vec<u8>) -> (b: bool)
    ensures
        b == wf_seg(s@),
{
    if s.len() == 0 {
        return false;
    }
    let mut i: usize = 0;
    while i < s.len()
        invariant
            0 <= i <= s@.len(),
            forall|j: int| 0 <= j < i ==> s@[j] != SLASH && s@[j] != STAR,
        decreases s@.len() - i,
    {
        if s[i] == SLASH || s[i] == STAR {
            return false;
        }
        i = i + 1;
    }
    true
}

/// Checks that a byte string is a well-formed key-expression segment.
pub fn is_wf_part(s: &Vec<u8>) -> (b: bool)
    ensures
        b == wf_part(s@),
{
    if s.len() == 1 && s[0] == STAR {
        proof {
            assert(s@ =~= seq![STAR]);
        }
        return true;
    }
    if s.len() == 2 && s[0] == STAR && s[1] == STAR {
        proof {
            assert(s@ =~= seq![STAR, STAR]);
        }
        return true;
    }
    proof {
        if s@.len() == 1 && s@ == seq![STAR] {
            assert(s@[0] == STAR);
        }
        if s@.len() == 2 && s@ == seq![STAR, STAR] {
            assert(s@[0] == STAR && s@[1] == STAR);
        }
    }
    is_wf_segment(s)
}

impl StorageKey {
    /// Well-formedness of a storage key value.
    pub open spec fn wf(&self) -> bool {
        wf_key(self@)
    }

    /// Checks well-formedness of this key.
    pub fn check_wf(&self) -> (b: bool)
        ensures
            b == self.wf(),
    {
        if self.segments.len() == 0 {
            return false;
        }
        let mut i: usize = 0;
        while i < self.segments.len()
            invariant
                0 <= i <= self@.len(),
                self@.len() == self.segments@.len(),
                forall|j: int| 0 <= j < i ==> wf_seg(#[trigger] self@[j]),
            decreases self@.len() - i,
        {
            proof {
                lemma_deep_view_index(&self.segments, i as int);
            }
            if !is_wf_segment(&self.segments[i]) {
                return false;
            }
            i = i + 1;
        }
        true
    }
}

impl KeyExpression {
    /// Well-formedness of a key-expression value.
    pub open spec fn wf(&self) -> bool {
        wf_expr(self@)
    }

    /// True when the expression contains no wildcard segment, so it addresses
    /// exactly one storage key.
    pub open spec fn is_concrete(&self) -> bool {
        concrete(self@)
    }

    /// Checks well-formedness of this expression.
    pub fn check_wf(&self) -> (b: bool)
        ensures
            b == self.wf(),
    {
        if self.parts.len() == 0 {
            return false;
        }
        let mut i: usize = 0;
        while i < self.parts.len()
            invariant
                0 <= i <= self@.len(),
                self@.len() == self.parts@.len(),
                forall|j: int| 0 <= j < i ==> wf_part(#[trigger] self@[j]),
            decreases self@.len() - i,
        {
            proof {
                lemma_deep_view_index(&self.parts, i as int);
            }
            if !is_wf_part(&self.parts[i]) {
                return false;
            }
            i = i + 1;
        }
        true
    }

    /// Checks that the expression contains no wildcard segment.
    pub fn check_concrete(&self) -> (b: bool)
        ensures
            b == self.is_concrete(),
    {
        let mut i: usize = 0;
        while i < self.parts.len()
            invariant
                0 <= i <= self@.len(),
                self@.len() == self.parts@.len(),
                forall|j: int| 0 <= j < i ==> wf_seg(#[trigger] self@[j]),
            decreases self@.len() - i,
        {
            proof {
                lemma_deep_view_index(&self.parts, i as int);
            }
            if !is_wf_segment(&self.parts[i]) {
                return false;
            }
            i = i + 1;
        }
        true
    }
}

} // verus!
