//! Identifiers of nodes, channels and transactions.

use vstd::prelude::*;

verus! {

broadcast use vstd::array::group_array_axioms;

/// Whether two byte arrays hold the same bytes.
pub fn same_bytes<const N: usize>(a: &[u8; N], b: &[u8; N]) -> (r: bool)
    ensures
        r == (*a == *b),
{
    let mut k: usize = 0;
    while k < N
        invariant
            k <= N,
            forall|j: int| 0 <= j < k ==> a[j] == b[j],
        decreases N - k,
    {
        if a[k] != b[k] {
            return false;
        }
        k = k + 1;
    }
    assert(*a =~= *b);
    true
}

/// A node's public key in its compressed form.
#[derive(Clone, Copy, Debug, Eq)]
pub struct NodeId {
    pub bytes: [u8; 33],
}

impl PartialEq for NodeId {
    fn eq(&self, other: &Self) -> (r: bool) {
        same_bytes(&self.bytes, &other.bytes)
    }
}

impl vstd::std_specs::cmp::PartialEqSpecImpl for NodeId {
    open spec fn obeys_eq_spec() -> bool {
        true
    }

    open spec fn eq_spec(&self, other: &Self) -> bool {
        *self == *other
    }
}

/// Names a channel, from the first message that proposes it on.
#[derive(Clone, Copy, Debug, Eq)]
pub struct ChannelId {
    pub bytes: [u8; 32],
}

impl PartialEq for ChannelId {
    fn eq(&self, other: &Self) -> (r: bool) {
        same_bytes(&self.bytes, &other.bytes)
    }
}

impl vstd::std_specs::cmp::PartialEqSpecImpl for ChannelId {
    open spec fn obeys_eq_spec() -> bool {
        true
    }

    open spec fn eq_spec(&self, other: &Self) -> bool {
        *self == *other
    }
}

/// A transaction identifier.
#[derive(Clone, Copy, Debug, Eq)]
pub struct Txid {
    pub bytes: [u8; 32],
}

impl PartialEq for Txid {
    fn eq(&self, other: &Self) -> (r: bool) {
        same_bytes(&self.bytes, &other.bytes)
    }
}

impl vstd::std_specs::cmp::PartialEqSpecImpl for Txid {
    open spec fn obeys_eq_spec() -> bool {
        true
    }

    open spec fn eq_spec(&self, other: &Self) -> bool {
        *self == *other
    }
}

/// Names one output of one transaction.
#[derive(Clone, Copy, Debug, Eq)]
pub struct OutPoint {
    pub txid: Txid,
    pub vout: u32,
}

impl PartialEq for OutPoint {
    fn eq(&self, other: &Self) -> (r: bool) {
        self.vout == other.vout && self.txid == other.txid
    }
}

impl vstd::std_specs::cmp::PartialEqSpecImpl for OutPoint {
    open spec fn obeys_eq_spec() -> bool {
        true
    }

    open spec fn eq_spec(&self, other: &Self) -> bool {
        *self == *other
    }
}

/// `a` comes before `b` in lexicographic order: at the first position where they differ,
/// `a` holds the smaller byte.
pub open spec fn lex_before(a: Seq<u8>, b: Seq<u8>) -> bool {
    exists|k: int|
        #![trigger a[k]]
        0 <= k < a.len() && k < b.len() && a[k] < b[k] && forall|j: int|
            0 <= j < k ==> a[j] == b[j]
}

impl NodeId {
    /// Whether this node's key comes before `other` in lexicographic order.
    pub fn is_before(&self, other: &NodeId) -> (r: bool)
        ensures
            r == lex_before(self.bytes@, other.bytes@),
    {
        let mut k: usize = 0;
        while k < 33
            invariant
                k <= 33,
                forall|j: int| 0 <= j < k ==> self.bytes@[j] == other.bytes@[j],
            decreases 33 - k,
        {
            if self.bytes[k] < other.bytes[k] {
                assert(self.bytes@[k as int] < other.bytes@[k as int]);
                return true;
            }
            if self.bytes[k] > other.bytes[k] {
                return false;
            }
            k = k + 1;
        }
        false
    }
}

} // verus!
