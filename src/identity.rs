use vstd::prelude::*;

verus! {

/// Largest byte length of a principal.
pub const MAX_PRINCIPAL_LEN: usize = 29;

/// The byte form of a principal: a caller, an owner, or a canister address.
#[derive(Debug, PartialEq, Eq)]
pub struct Identity {
    pub bytes: Vec<u8>,
}

impl View for Identity {
    type V = Seq<u8>;

    open spec fn view(&self) -> Seq<u8> {
        self.bytes@
    }
}

/// The byte form of the anonymous principal.
pub open spec fn anonymous_spec() -> Seq<u8> {
    seq![4u8]
}

/// The textual form of the principal with the given bytes.
pub uninterp spec fn principal_text_of(bytes: Seq<u8>) -> Seq<char>;

/// Relies on `candid::Principal::anonymous` and `as_slice`: the anonymous
/// principal is the single tag byte 4.
#[verifier::external_body]
fn anonymous_bytes() -> (r: Vec<u8>)
    ensures
        r@ == anonymous_spec(),
{
    candid::Principal::anonymous().as_slice().to_vec()
}

/// Relies on `candid::Principal::from_slice` and `to_text`: the text depends on
/// the bytes alone; `from_slice` panics above 29 bytes.
#[verifier::external_body]
fn principal_text(bytes: &Vec<u8>) -> (r: String)
    requires
        bytes@.len() <= MAX_PRINCIPAL_LEN,
    ensures
        r@ == principal_text_of(bytes@),
{
    candid::Principal::from_slice(bytes.as_slice()).to_text()
}

/// Compares two byte strings.
pub fn bytes_equal(a: &Vec<u8>, b: &Vec<u8>) -> (r: bool)
    ensures
        r == (a@ == b@),
{
    if a.len() != b.len() {
        return false;
    }
    let mut i: usize = 0;
    while i < a.len()
        invariant
            a@.len() == b@.len(),
            i <= a@.len(),
            forall|k: int| 0 <= k < i ==> a@[k] == b@[k],
        decreases a@.len() - i,
    {
        if a[i] != b[i] {
            return false;
        }
        i = i + 1;
    }
    assert(a@ =~= b@);
    true
}

impl Identity {
    pub fn new(bytes: Vec<u8>) -> (r: Identity)
        ensures
            r@ == bytes@,
    {
        Identity { bytes }
    }

    /// A copy with the same bytes.
    pub fn duplicate(&self) -> (r: Identity)
        ensures
            r@ == self@,
    {
        let bytes = self.bytes.clone();
        assert(bytes@ =~= self.bytes@);
        Identity { bytes }
    }

    pub fn same_as(&self, other: &Identity) -> (r: bool)
        ensures
            r == (self@ == other@),
    {
        bytes_equal(&self.bytes, &other.bytes)
    }

    /// Whether this is the anonymous principal, which may not mutate a shard.
    pub fn is_anonymous(&self) -> (r: bool)
        ensures
            r == (self@ == anonymous_spec()),
    {
        let anon = anonymous_bytes();
        bytes_equal(&self.bytes, &anon)
    }

    /// The textual form of the principal.
    pub fn to_text(&self) -> (r: String)
        requires
            self@.len() <= MAX_PRINCIPAL_LEN,
        ensures
            r@ == principal_text_of(self@),
    {
        principal_text(&self.bytes)
    }
}

} // verus!
