//! Caller identities and byte-string helpers.
use vstd::prelude::*;

verus! {

/// Compares two byte strings for equality.
pub fn bytes_eq(a: &[u8], b: &[u8]) -> (r: bool)
    ensures
        r <==> a@ == b@,
{
    if a.len() != b.len() {
        return false;
    }
    let mut i: usize = 0;
    while i < a.len()
        invariant
            i <= a@.len(),
            a@.len() == b@.len(),
            forall|j: int| 0 <= j < i ==> a@[j] == b@[j],
        decreases a@.len() - i,
    {
        if a[i] != b[i] {
            return false;
        }
        i = i + 1;
    }
    assert(a@ =~= b@);
    true
}

/// An opaque caller identity: the raw bytes of a principal. It is compared by
/// equality; the codec mixes the bytes into subject-bound MACs.
#[derive(Debug)]
pub struct Account {
    pub bytes: Vec<u8>,
}

impl View for Account {
    type V = Seq<u8>;

    open spec fn view(&self) -> Seq<u8> {
        self.bytes@
    }
}

impl Account {
    pub fn new(bytes: Vec<u8>) -> (r: Account)
        ensures
            r@ == bytes@,
    {
        Account { bytes }
    }

    /// The anonymous principal: the single byte 4.
    pub fn anonymous() -> (r: Account)
        ensures
            r@ =~= seq![4u8],
    {
        let mut bytes: Vec<u8> = Vec::new();
        bytes.push(4);
        assert(bytes@ =~= seq![4u8]);
        Account { bytes }
    }

    /// Whether two identities are the same principal.
    pub fn same(&self, other: &Account) -> (r: bool)
        ensures
            r <==> self@ == other@,
    {
        bytes_eq(self.bytes.as_slice(), other.bytes.as_slice())
    }
}

} // verus!
