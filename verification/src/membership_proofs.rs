//! Ranges of leaf indices, as they appear in membership proofs, and the
//! order of ranges, hashes and elements.

use core::cmp::Ordering;
use vstd::prelude::*;
use vstd::std_specs::cmp::PartialOrdSpecImpl;
use crate::tx::{TxOutMembershipElement, TxOutMembershipHash};

verus! {

/// The leaves `from..=to` of the ledger's tree: the leaves under one of its
/// nodes.
#[derive(Clone, Copy, Debug, PartialEq, Eq, Ord, Hash, Default)]
pub struct Range {
    /// The first leaf of the range.
    pub from: u64,
    /// The last leaf of the range.
    pub to: u64,
}

/// A range with `from > to`.
#[derive(Clone, Copy, Debug, PartialEq, Eq, Structural)]
pub struct RangeError {
    pub from: u64,
    pub to: u64,
}

impl Range {
    /// The range holds at least one leaf.
    pub open spec fn is_well_formed(self) -> bool {
        self.from <= self.to
    }

    /// The number of leaves in a well-formed range, less one.
    pub open spec fn width(self) -> int {
        self.to - self.from
    }

    /// The range `from..=to`, where `from <= to`.
    pub fn new(from: u64, to: u64) -> (r: Result<Range, RangeError>)
        ensures
            from <= to ==> r is Ok && r->Ok_0.from == from && r->Ok_0.to == to,
            from > to ==> r == Err::<Range, RangeError>(RangeError { from, to }),
    {
        if from <= to {
            Ok(Range { from, to })
        } else {
            Err(RangeError { from, to })
        }
    }

    /// Whether the leaf `index` lies in the range.
    pub fn contains(&self, index: u64) -> (inside: bool)
        ensures
            inside == (self.from <= index <= self.to),
    {
        self.from <= index && index <= self.to
    }

    /// Whether the range holds at least one leaf.
    pub fn check_well_formed(&self) -> (ok: bool)
        ensures
            ok == self.is_well_formed(),
    {
        self.from <= self.to
    }

    /// Whether the range is strictly narrower than `other`.
    pub fn is_narrower_than(&self, other: &Range) -> (narrower: bool)
        requires
            self.is_well_formed(),
            other.is_well_formed(),
        ensures
            narrower == (self.width() < other.width()),
    {
        self.to - self.from < other.to - other.from
    }
}

/// How two numbers stand to each other.
pub open spec fn number_order(a: u64, b: u64) -> Ordering {
    if a < b {
        Ordering::Less
    } else if a == b {
        Ordering::Equal
    } else {
        Ordering::Greater
    }
}

/// How two ranges stand to each other: as their first leaves do, and
/// where these are the same, as their last leaves do.
pub open spec fn range_order(a: Range, b: Range) -> Ordering {
    if a.from != b.from {
        number_order(a.from, b.from)
    } else {
        number_order(a.to, b.to)
    }
}

/// The first place at which two strings of bytes of one length differ;
/// their length where they do not.
pub open spec fn first_difference(a: Seq<u8>, b: Seq<u8>) -> int {
    if a == b {
        a.len() as int
    } else {
        choose|k: int| 0 <= k < a.len() && a[k] != b[k] && forall|j: int| 0 <= j < k ==> a[j] == b[j]
    }
}

/// The byte at place `k`, as a number.
pub open spec fn byte_at(bytes: Seq<u8>, k: int) -> u64 {
    bytes[k] as u64
}

/// How two strings of bytes of one length stand to each other: as their
/// bytes do at the first place at which they differ.
pub open spec fn bytes_order(a: Seq<u8>, b: Seq<u8>) -> Ordering {
    let k = first_difference(a, b);
    if k >= a.len() {
        Ordering::Equal
    } else {
        number_order(byte_at(a, k), byte_at(b, k))
    }
}

/// How two elements stand to each other: as their ranges do, and where
/// these are the same, as their hashes do.
pub open spec fn element_order(a: TxOutMembershipElement, b: TxOutMembershipElement) -> Ordering {
    if a.range != b.range {
        range_order(a.range, b.range)
    } else {
        bytes_order(a.hash@, b.hash@)
    }
}

/// The first place at which two strings of 32 bytes differ; 32 where they
/// do not.
pub fn find_first_difference(a: &[u8; 32], b: &[u8; 32]) -> (k: usize)
    ensures
        k == first_difference(a@, b@),
        k <= 32,
        k < 32 ==> a@[k as int] != b@[k as int],
        k == 32 <==> a@ == b@,
{
    let mut i: usize = 0;
    while i < 32
        invariant
            i <= 32,
            forall|j: int| 0 <= j < i ==> a@[j] == b@[j],
        decreases 32 - i,
    {
        if a[i] != b[i] {
            proof {
                let chosen = first_difference(a@, b@);
                assert(a@ != b@);
                assert(0 <= i < a@.len() && a@[i as int] != b@[i as int] && forall|j: int|
                    0 <= j < i ==> a@[j] == b@[j]);
                if chosen < i {
                    assert(a@[chosen] == b@[chosen]);
                }
                if chosen > i {
                    assert(a@[i as int] == b@[i as int]);
                }
            }
            return i;
        }
        i = i + 1;
    }
    proof {
        assert(a@ =~= b@);
    }
    32
}

impl PartialOrd for Range {
    fn partial_cmp(&self, other: &Range) -> (r: Option<Ordering>) {
        if self.from < other.from {
            Some(Ordering::Less)
        } else if self.from > other.from {
            Some(Ordering::Greater)
        } else if self.to < other.to {
            Some(Ordering::Less)
        } else if self.to > other.to {
            Some(Ordering::Greater)
        } else {
            Some(Ordering::Equal)
        }
    }
}

impl PartialOrdSpecImpl for Range {
    open spec fn obeys_partial_cmp_spec() -> bool {
        true
    }

    open spec fn partial_cmp_spec(&self, other: &Range) -> Option<Ordering> {
        Some(range_order(*self, *other))
    }
}

impl PartialOrd for TxOutMembershipHash {
    fn partial_cmp(&self, other: &TxOutMembershipHash) -> (r: Option<Ordering>) {
        let k = find_first_difference(&self.0, &other.0);
        if k >= 32 {
            Some(Ordering::Equal)
        } else if self.0[k] < other.0[k] {
            Some(Ordering::Less)
        } else {
            Some(Ordering::Greater)
        }
    }
}

impl PartialOrdSpecImpl for TxOutMembershipHash {
    open spec fn obeys_partial_cmp_spec() -> bool {
        true
    }

    open spec fn partial_cmp_spec(&self, other: &TxOutMembershipHash) -> Option<Ordering> {
        Some(bytes_order(self@, other@))
    }
}

impl PartialOrd for TxOutMembershipElement {
    fn partial_cmp(&self, other: &TxOutMembershipElement) -> (r: Option<Ordering>) {
        match self.range.partial_cmp(&other.range) {
            Some(Ordering::Equal) => self.hash.partial_cmp(&other.hash),
            unequal => unequal,
        }
    }
}

impl PartialOrdSpecImpl for TxOutMembershipElement {
    open spec fn obeys_partial_cmp_spec() -> bool {
        true
    }

    open spec fn partial_cmp_spec(&self, other: &TxOutMembershipElement) -> Option<Ordering> {
        Some(element_order(*self, *other))
    }
}

} // verus!
