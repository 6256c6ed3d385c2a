use vstd::prelude::*;

verus! {

broadcast use vstd::array::group_array_axioms;

/// A 32-byte event identifier (`BytesN<32>` on the ledger).
pub type EventId = [u8; 32];

/// Compares two 32-byte values byte by byte.
pub fn bytes32_eq(a: &[u8; 32], b: &[u8; 32]) -> (r: bool)
    ensures
        r == (*a == *b),
{
    let mut i: usize = 0;
    while i < 32
        invariant
            0 <= i <= 32,
            forall|j: int| 0 <= j < i ==> a[j] == b[j],
        decreases 32 - i,
    {
        if a[i] != b[i] {
            return false;
        }
        i = i + 1;
    }
    assert(*a =~= *b);
    true
}


/// A ledger address: an account (`G...`) or a contract (`C...`), each
/// identified by 32 bytes.
#[derive(Clone, Copy, Debug, PartialEq, Eq)]
pub enum Address {
    Account([u8; 32]),
    Contract([u8; 32]),
}

impl Address {
    /// Whether two addresses are the same address.
    pub fn same_as(&self, other: &Address) -> (r: bool)
        ensures
            r == (*self == *other),
    {
        match (self, other) {
            (Address::Account(a), Address::Account(b)) => bytes32_eq(a, b),
            (Address::Contract(a), Address::Contract(b)) => bytes32_eq(a, b),
            _ => false,
        }
    }
}

/// What the registry keeps of an event: enough to verify it on the ledger,
/// plus the IPFS pointer to its rich content.
#[derive(Clone, Debug, PartialEq, Eq)]
pub struct EventMetadata {
    pub name: String,
    pub description: String,
    /// IPFS URI of the badge's metadata or image, e.g. `ipfs://Qm...`.
    pub image_ipfs: String,
}

impl EventMetadata {
    /// A field-by-field copy.
    pub fn duplicate(&self) -> (r: EventMetadata)
        ensures
            r == *self,
    {
        EventMetadata {
            name: self.name.clone(),
            description: self.description.clone(),
            image_ipfs: self.image_ipfs.clone(),
        }
    }
}

/// An event together with its metadata, as listed in the gallery.
#[derive(Clone, Debug, PartialEq, Eq)]
pub struct BadgeInfo {
    pub event_id: EventId,
    pub metadata: EventMetadata,
}

/// Copies a vector of `Copy` items.
pub fn copy_vec<T: Copy>(v: &Vec<T>) -> (r: Vec<T>)
    ensures
        r@ == v@,
{
    let mut r: Vec<T> = Vec::new();
    let mut i: usize = 0;
    while i < v.len()
        invariant
            i <= v@.len(),
            r@ == v@.subrange(0, i as int),
        decreases v@.len() - i,
    {
        r.push(v[i]);
        i = i + 1;
        assert(r@ =~= v@.subrange(0, i as int));
    }
    assert(v@.subrange(0, v@.len() as int) =~= v@);
    r
}

} // verus!
