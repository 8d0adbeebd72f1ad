//! Principals: the byte strings that name account holders, and their text.

use vstd::prelude::*;

verus! {

/// The most bytes a principal can hold.
pub const MAX_PRINCIPAL_LEN: usize = 29;

/// The bytes that a principal's text stands for, as `candid` reads it; `None`
/// for a text that it refuses.
pub uninterp spec fn principal_text_bytes(text: Seq<char>) -> Option<Seq<u8>>;

/// The text of a principal of the given bytes, as `candid` writes it.
pub uninterp spec fn principal_bytes_text(bytes: Seq<u8>) -> Seq<char>;

/// The error of `candid`'s principal parser, carried through unread.
#[verifier::external_type_specification]
#[verifier::external_body]
pub struct ExPrincipalError(candid::types::principal::PrincipalError);

/// Calls `candid::Principal::from_text` and, on success, copies out the bytes
/// that `as_slice` gives, which are at most 29.
#[verifier::external_body]
fn parse_principal_text(text: &str) -> (r: Result<Vec<u8>, candid::types::principal::PrincipalError>)
    ensures
        r is Ok <==> principal_text_bytes(text@) is Some,
        r matches Ok(bytes) ==> principal_text_bytes(text@) == Some(bytes@) && bytes@.len()
            <= MAX_PRINCIPAL_LEN,
{
    match candid::Principal::from_text(text) {
        Ok(p) => Ok(p.as_slice().to_vec()),
        Err(e) => Err(e),
    }
}

/// Calls `candid::Principal::from_slice`, which accepts up to 29 bytes, and
/// `to_text` on the result.
#[verifier::external_body]
fn write_principal_text(bytes: &[u8]) -> (text: String)
    requires
        bytes@.len() <= MAX_PRINCIPAL_LEN,
    ensures
        text@ == principal_bytes_text(bytes@),
{
    candid::Principal::from_slice(bytes).to_text()
}

/// The message that `candid` prints for a principal error.
#[verifier::external_body]
fn principal_error_message(e: &candid::types::principal::PrincipalError) -> (message: String) {
    e.to_string()
}

/// Whether two byte strings hold the same bytes.
pub fn bytes_equal(a: &[u8], b: &[u8]) -> (same: bool)
    ensures
        same == (a@ == b@),
{
    if a.len() != b.len() {
        return false;
    }
    let mut i: usize = 0;
    while i < a.len()
        invariant
            i <= a.len(),
            a.len() == b.len(),
            forall|k: int| 0 <= k < i ==> a@[k] == b@[k],
        decreases a.len() - i,
    {
        if a[i] != b[i] {
            return false;
        }
        i += 1;
    }
    assert(a@ =~= b@);
    true
}

/// An account holder's identifier: up to 29 bytes, opaque to this library.
#[derive(Debug, PartialEq, Eq)]
pub struct Principal {
    bytes: Vec<u8>,
}

impl View for Principal {
    type V = Seq<u8>;

    closed spec fn view(&self) -> Seq<u8> {
        self.bytes@
    }
}

impl Principal {
    #[verifier::type_invariant]
    spec fn bounded(self) -> bool {
        self.bytes@.len() <= MAX_PRINCIPAL_LEN
    }

    /// A principal of the given bytes; `None` when there are more than 29.
    pub fn from_slice(bytes: &[u8]) -> (p: Option<Principal>)
        ensures
            p is Some <==> bytes@.len() <= MAX_PRINCIPAL_LEN,
            p matches Some(q) ==> q@ == bytes@,
    {
        if bytes.len() > MAX_PRINCIPAL_LEN {
            return None;
        }
        let mut copy: Vec<u8> = Vec::new();
        let mut i: usize = 0;
        while i < bytes.len()
            invariant
                i <= bytes.len(),
                copy@ == bytes@.take(i as int),
            decreases bytes.len() - i,
        {
            copy.push(bytes[i]);
            assert(bytes@.take(i + 1) =~= bytes@.take(i as int).push(bytes@[i as int]));
            i += 1;
        }
        assert(bytes@.take(bytes.len() as int) =~= bytes@);
        Some(Principal { bytes: copy })
    }

    /// Reads a principal from its text. The error carries the parser's message.
    pub fn from_text(text: &str) -> (r: Result<Principal, String>)
        ensures
            r is Ok <==> principal_text_bytes(text@) is Some,
            r matches Ok(p) ==> principal_text_bytes(text@) == Some(p@),
    {
        match parse_principal_text(text) {
            Ok(bytes) => Ok(Principal { bytes }),
            Err(e) => Err(principal_error_message(&e)),
        }
    }

    /// The principal's text.
    pub fn to_text(&self) -> (text: String)
        ensures
            text@ == principal_bytes_text(self@),
    {
        proof {
            use_type_invariant(self);
        }
        write_principal_text(self.bytes.as_slice())
    }

    /// The principal's bytes.
    pub fn as_slice(&self) -> (bytes: &[u8])
        ensures
            bytes@ == self@,
            bytes@.len() <= MAX_PRINCIPAL_LEN,
    {
        proof {
            use_type_invariant(self);
        }
        self.bytes.as_slice()
    }

    /// Whether `self` and `other` hold the same bytes.
    pub fn same_as(&self, other: &Principal) -> (same: bool)
        ensures
            same == (self@ == other@),
    {
        bytes_equal(self.bytes.as_slice(), other.bytes.as_slice())
    }
}

impl Clone for Principal {
    fn clone(&self) -> (copy: Principal)
        ensures
            copy@ == self@,
    {
        proof {
            use_type_invariant(self);
        }
        let bytes = self.bytes.clone();
        assert(bytes@ =~= self.bytes@);
        Principal { bytes }
    }
}

} // verus!
