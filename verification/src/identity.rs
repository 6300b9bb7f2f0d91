//! Thirty-two byte identifiers: comparison, the all-zero address, and the
//! deterministic derivation of entity identifiers.

use vstd::bytes::{
    lemma_auto_spec_u16_to_from_le_bytes, lemma_auto_spec_u64_to_from_le_bytes,
    spec_u16_to_le_bytes, spec_u64_to_le_bytes, u16_to_le_bytes, u64_to_le_bytes,
};
use vstd::prelude::*;

verus! {

/// The kinds of entity that get a derived identifier.
#[derive(Clone, Copy, Debug, PartialEq, Eq, Structural)]
pub enum EntityKind {
    Payable,
    Payment,
    Withdrawal,
}

impl EntityKind {
    /// The tag byte that opens every identifier of this kind.
    pub open spec fn tag(self) -> u8 {
        match self {
            EntityKind::Payable => 1,
            EntityKind::Payment => 2,
            EntityKind::Withdrawal => 3,
        }
    }

    pub fn tag_byte(self) -> (t: u8)
        ensures
            t == self.tag(),
    {
        match self {
            EntityKind::Payable => 1,
            EntityKind::Payment => 2,
            EntityKind::Withdrawal => 3,
        }
    }
}

/// Whether two identifiers hold the same bytes.
pub fn same_bytes(a: &[u8; 32], b: &[u8; 32]) -> (r: bool)
    ensures
        r == (*a == *b),
        r == (a@ == b@),
{
    let mut i: usize = 0;
    while i < 32
        invariant
            i <= 32,
            forall|j: int| 0 <= j < i ==> a[j] == b[j],
        decreases 32 - i,
    {
        if a[i] != b[i] {
            assert(a@[i as int] != b@[i as int]);
            return false;
        }
        i += 1;
    }
    assert(*a =~= *b);
    assert(a@ =~= b@);
    true
}

/// The address that no wallet can have: thirty-two zero bytes.
pub open spec fn zero_address() -> Seq<u8> {
    Seq::new(32, |i: int| 0u8)
}

/// Whether an address is the all-zero address.
pub fn is_zero_address(a: &[u8; 32]) -> (r: bool)
    ensures
        r == (a@ == zero_address()),
{
    let mut i: usize = 0;
    while i < 32
        invariant
            i <= 32,
            forall|j: int| 0 <= j < i ==> a[j] == 0,
        decreases 32 - i,
    {
        if a[i] != 0 {
            assert(zero_address()[i as int] == 0);
            return false;
        }
        i += 1;
    }
    assert(a@ =~= zero_address());
    true
}

/// The bytes of the identifier of the `count`-th entity of a kind that
/// originated on chain `chain_id`: the kind's tag, the chain id and the
/// count, both little-endian, then zero padding.
pub open spec fn id_bytes(kind: EntityKind, chain_id: u16, count: u64) -> Seq<u8> {
    seq![kind.tag()] + spec_u16_to_le_bytes(chain_id) + spec_u64_to_le_bytes(count) + Seq::new(
        21,
        |i: int| 0u8,
    )
}

/// Derives the identifier of an entity from where it originated, its
/// origin-scoped sequence number and its kind.
pub fn derive_id(kind: EntityKind, chain_id: u16, count: u64) -> (id: [u8; 32])
    ensures
        id@ == id_bytes(kind, chain_id, count),
{
    let chain = u16_to_le_bytes(chain_id);
    let seq_no = u64_to_le_bytes(count);
    proof {
        lemma_auto_spec_u16_to_from_le_bytes();
        lemma_auto_spec_u64_to_from_le_bytes();
    }
    let mut id = [0u8; 32];
    id[0] = kind.tag_byte();
    id[1] = chain[0];
    id[2] = chain[1];
    let mut i: usize = 0;
    while i < 8
        invariant
            i <= 8,
            seq_no@ == spec_u64_to_le_bytes(count),
            seq_no@.len() == 8,
            chain@ == spec_u16_to_le_bytes(chain_id),
            chain@.len() == 2,
            id[0] == kind.tag(),
            id[1] == chain[0],
            id[2] == chain[1],
            forall|j: int| 0 <= j < i ==> id[3 + j] == seq_no[j],
            forall|j: int| 3 + i <= j < 32 ==> id[j] == 0,
        decreases 8 - i,
    {
        id[3 + i] = seq_no[i];
        i += 1;
    }
    assert(id@ =~= id_bytes(kind, chain_id, count));
    id
}

/// Identifiers never collide: two derivations give the same bytes only when
/// kind, chain and count are all the same.
pub proof fn lemma_derived_ids_are_distinct(
    kind_a: EntityKind,
    chain_a: u16,
    count_a: u64,
    kind_b: EntityKind,
    chain_b: u16,
    count_b: u64,
)
    requires
        id_bytes(kind_a, chain_a, count_a) == id_bytes(kind_b, chain_b, count_b),
    ensures
        kind_a == kind_b,
        chain_a == chain_b,
        count_a == count_b,
{
    lemma_auto_spec_u16_to_from_le_bytes();
    lemma_auto_spec_u64_to_from_le_bytes();
    let a = id_bytes(kind_a, chain_a, count_a);
    let b = id_bytes(kind_b, chain_b, count_b);
    assert(a[0] == kind_a.tag());
    assert(b[0] == kind_b.tag());
    assert(a.subrange(1, 3) =~= spec_u16_to_le_bytes(chain_a));
    assert(b.subrange(1, 3) =~= spec_u16_to_le_bytes(chain_b));
    assert(a.subrange(3, 11) =~= spec_u64_to_le_bytes(count_a));
    assert(b.subrange(3, 11) =~= spec_u64_to_le_bytes(count_b));
}

} // verus!
