//! Account identifiers: 32 bytes made of a checksum and a digest, derived
//! from a principal and a subaccount, and written as 64 hex digits.

use vstd::prelude::*;
use crate::digest::{crc32, crc32_checksum, sha224, sha224_digest};
use crate::hex_text::{decode, decoded_bytes, encode, encoded_text, is_hex_text, lemma_decode_encode};
use crate::principal::{bytes_equal, Principal};

verus! {

/// Bytes in an account identifier.
pub const ACCOUNT_ID_LEN: usize = 32;

/// Bytes in the digest part of an account identifier.
pub const ACCOUNT_DIGEST_LEN: usize = 28;

/// Bytes in a subaccount.
pub const SUBACCOUNT_LEN: usize = 32;

/// The byte 0x0A followed by the ASCII text `account-id`: what every hashed
/// input starts with.
pub open spec fn domain_separator() -> Seq<u8> {
    seq![0x0Au8, 0x61u8, 0x63u8, 0x63u8, 0x6Fu8, 0x75u8, 0x6Eu8, 0x74u8, 0x2Du8, 0x69u8, 0x64u8]
}

/// The subaccount that stands for "none given": 32 zero bytes.
pub open spec fn default_subaccount() -> Seq<u8> {
    Seq::new(SUBACCOUNT_LEN as nat, |i: int| 0u8)
}

/// The bytes of a subaccount argument, the default for `None`.
pub open spec fn subaccount_bytes(subaccount: Option<[u8; 32]>) -> Seq<u8> {
    match subaccount {
        Some(s) => s@,
        None => default_subaccount(),
    }
}

/// What is hashed for an account: separator, principal, subaccount.
pub open spec fn account_hash_input(principal: Seq<u8>, subaccount: Seq<u8>) -> Seq<u8> {
    domain_separator() + principal + subaccount
}

/// The four bytes of `x`, most significant first.
pub open spec fn be_bytes(x: u32) -> Seq<u8> {
    seq![
        (x / 0x100_0000) as u8,
        (x / 0x1_0000 % 0x100) as u8,
        (x / 0x100 % 0x100) as u8,
        (x % 0x100) as u8,
    ]
}

/// The number that the first four bytes of `b` spell, most significant first.
pub open spec fn be_value(b: Seq<u8>) -> int {
    b[0] as int * 0x100_0000 + b[1] as int * 0x1_0000 + b[2] as int * 0x100 + b[3] as int
}

/// The identifier built on a digest: the digest's checksum, then the digest.
pub open spec fn with_checksum(digest: Seq<u8>) -> Seq<u8> {
    be_bytes(crc32_checksum(digest)) + digest
}

/// The account identifier of a principal and a subaccount.
pub open spec fn account_id_bytes(principal: Seq<u8>, subaccount: Seq<u8>) -> Seq<u8> {
    with_checksum(sha224_digest(account_hash_input(principal, subaccount)))
}

/// The one validity rule of an identifier: it has 32 bytes, and the first four
/// spell the checksum of the other 28.
pub open spec fn checksum_matches(bytes: Seq<u8>) -> bool {
    &&& bytes.len() == ACCOUNT_ID_LEN
    &&& be_value(bytes) == crc32_checksum(bytes.subrange(4, ACCOUNT_ID_LEN as int))
}

/// A text is a valid identifier when it is 64 hex digits that spell bytes
/// whose checksum matches.
pub open spec fn valid_account_text(text: Seq<char>) -> bool {
    &&& text.len() == 2 * ACCOUNT_ID_LEN
    &&& is_hex_text(text)
    &&& checksum_matches(decoded_bytes(text))
}

/// Four bytes and the number they spell determine each other.
pub proof fn lemma_be_round_trip(x: u32)
    ensures
        be_bytes(x).len() == 4,
        be_value(be_bytes(x)) == x,
{
}

/// Two runs of four bytes that spell the same number are the same bytes.
pub proof fn lemma_be_value_injective(a: Seq<u8>, b: Seq<u8>)
    requires
        a.len() >= 4,
        b.len() >= 4,
        be_value(a) == be_value(b),
    ensures
        a[0] == b[0],
        a[1] == b[1],
        a[2] == b[2],
        a[3] == b[3],
{
}

/// An identifier built on a 28-byte digest has a matching checksum.
pub proof fn lemma_with_checksum_matches(digest: Seq<u8>)
    requires
        digest.len() == ACCOUNT_DIGEST_LEN,
    ensures
        with_checksum(digest).len() == ACCOUNT_ID_LEN,
        with_checksum(digest).subrange(4, ACCOUNT_ID_LEN as int) == digest,
        checksum_matches(with_checksum(digest)),
        valid_account_text(encoded_text(with_checksum(digest))),
{
    let id = with_checksum(digest);
    lemma_be_round_trip(crc32_checksum(digest));
    assert(id.subrange(4, ACCOUNT_ID_LEN as int) =~= digest);
    assert(be_value(id) == be_value(be_bytes(crc32_checksum(digest))));
    lemma_decode_encode(id);
}

/// Appends `more` to `out`.
pub fn append_bytes(out: &mut Vec<u8>, more: &[u8])
    ensures
        final(out)@ == old(out)@ + more@,
{
    let mut i: usize = 0;
    while i < more.len()
        invariant
            i <= more.len(),
            out@ == old(out)@ + more@.take(i as int),
        decreases more.len() - i,
    {
        out.push(more[i]);
        assert(more@.take(i + 1) =~= more@.take(i as int).push(more@[i as int]));
        assert(out@ =~= old(out)@ + more@.take(i + 1));
        i += 1;
    }
    assert(more@.take(more.len() as int) =~= more@);
}

/// The checksum of `tail`, as four bytes, most significant first.
pub fn checksum_bytes(tail: &[u8]) -> (sum: [u8; 4])
    ensures
        sum@ == be_bytes(crc32_checksum(tail@)),
{
    let c: u32 = crc32(tail);
    let sum: [u8; 4] = [
        (c / 0x100_0000) as u8,
        (c / 0x1_0000 % 0x100) as u8,
        (c / 0x100 % 0x100) as u8,
        (c % 0x100) as u8,
    ];
    assert(sum@ =~= be_bytes(c));
    sum
}

/// Puts its checksum in front of a 28-byte digest.
pub fn prepend_checksum(digest: &[u8]) -> (id: [u8; 32])
    requires
        digest@.len() == ACCOUNT_DIGEST_LEN,
    ensures
        id@ == with_checksum(digest@),
        checksum_matches(id@),
        valid_account_text(encoded_text(id@)),
{
    let sum: [u8; 4] = checksum_bytes(digest);
    let mut id: [u8; 32] = [0u8; 32];
    id[0] = sum[0];
    id[1] = sum[1];
    id[2] = sum[2];
    id[3] = sum[3];
    let mut i: usize = 0;
    while i < ACCOUNT_DIGEST_LEN
        invariant
            i <= ACCOUNT_DIGEST_LEN,
            digest@.len() == ACCOUNT_DIGEST_LEN,
            forall|k: int| 0 <= k < 4 ==> id@[k] == sum@[k],
            forall|k: int| 0 <= k < i ==> id@[4 + k] == digest@[k],
        decreases ACCOUNT_DIGEST_LEN - i,
    {
        id[4 + i] = digest[i];
        i += 1;
    }
    proof {
        assert(id@ =~= with_checksum(digest@));
        lemma_with_checksum_matches(digest@);
    }
    id
}

/// Derives the account identifier of a principal and a subaccount; no
/// subaccount means 32 zero bytes, which are hashed like any other.
pub fn principal_to_account_id(
    principal: &Principal,
    subaccount: Option<[u8; 32]>,
) -> (id: [u8; 32])
    ensures
        id@ == account_id_bytes(principal@, subaccount_bytes(subaccount)),
        checksum_matches(id@),
        valid_account_text(encoded_text(id@)),
{
    let sub: [u8; 32] = match subaccount {
        Some(s) => s,
        None => [0u8; 32],
    };
    assert(sub@ =~= subaccount_bytes(subaccount));
    let mut input: Vec<u8> = Vec::new();
    input.push(0x0A);
    input.push(0x61);
    input.push(0x63);
    input.push(0x63);
    input.push(0x6F);
    input.push(0x75);
    input.push(0x6E);
    input.push(0x74);
    input.push(0x2D);
    input.push(0x69);
    input.push(0x64);
    assert(input@ =~= domain_separator());
    append_bytes(&mut input, principal.as_slice());
    append_bytes(&mut input, sub.as_slice());
    assert(input@ =~= account_hash_input(principal@, sub@));
    let digest: Vec<u8> = sha224(input.as_slice());
    prepend_checksum(digest.as_slice())
}

/// Whether `account_id_hex` is a valid account identifier: 64 hex digits, in
/// either case, whose first four bytes spell the checksum of the rest. Any
/// other text gives `false`. This says nothing of whether the account exists.
pub fn is_valid_account_id(account_id_hex: &str) -> (ok: bool)
    ensures
        ok == valid_account_text(account_id_hex@),
        account_id_hex@.len() != 64 ==> !ok,
        !is_hex_text(account_id_hex@) ==> !ok,
{
    match decode(account_id_hex) {
        None => false,
        Some(bytes) => has_matching_checksum(bytes.as_slice()),
    }
}

/// Whether `bytes` are 32 bytes that start with the checksum of their last
/// 28.
pub fn has_matching_checksum(bytes: &[u8]) -> (ok: bool)
    ensures
        ok == checksum_matches(bytes@),
{
    if bytes.len() != ACCOUNT_ID_LEN {
        return false;
    }
    let tail: &[u8] = vstd::slice::slice_subrange(bytes, 4, ACCOUNT_ID_LEN);
    let computed: u32 = crc32(tail);
    let provided: u32 = (bytes[0] as u32) * 0x100_0000 + (bytes[1] as u32) * 0x1_0000 + (
    bytes[2] as u32) * 0x100 + (bytes[3] as u32);
    computed == provided
}

/// For 32 bytes, the hex text is valid exactly when the checksum matches.
pub proof fn lemma_text_valid_iff_checksum(bytes: Seq<u8>)
    requires
        bytes.len() == ACCOUNT_ID_LEN,
    ensures
        valid_account_text(encoded_text(bytes)) == checksum_matches(bytes),
{
    lemma_decode_encode(bytes);
}

/// Of two 32-byte buffers that share their last 28 bytes and differ in one of
/// the first four, at most one is valid. So changing a checksum byte of a
/// valid identifier always makes it invalid; only an invalid one can become
/// valid that way.
pub proof fn lemma_checksum_change_detected(a: Seq<u8>, b: Seq<u8>, k: int)
    requires
        a.len() == ACCOUNT_ID_LEN,
        b.len() == ACCOUNT_ID_LEN,
        a.subrange(4, ACCOUNT_ID_LEN as int) == b.subrange(4, ACCOUNT_ID_LEN as int),
        0 <= k < 4,
        a[k] != b[k],
    ensures
        !(checksum_matches(a) && checksum_matches(b)),
        !(valid_account_text(encoded_text(a)) && valid_account_text(encoded_text(b))),
{
    lemma_text_valid_iff_checksum(a);
    lemma_text_valid_iff_checksum(b);
    if checksum_matches(a) && checksum_matches(b) {
        lemma_be_value_injective(a, b);
    }
}

/// A text that is valid has 64 characters and spells 32 bytes.
pub proof fn lemma_valid_text_shape(text: Seq<char>)
    requires
        valid_account_text(text),
    ensures
        text.len() == 64,
        is_hex_text(text),
        decoded_bytes(text).len() == ACCOUNT_ID_LEN,
{
}

/// For every principal and subaccount, the derived identifier written as hex
/// is valid, provided the digest has the 28 bytes of SHA-224.
pub proof fn lemma_derived_identifier_is_valid(principal: Seq<u8>, subaccount: Seq<u8>)
    requires
        sha224_digest(account_hash_input(principal, subaccount)).len() == ACCOUNT_DIGEST_LEN,
    ensures
        account_id_bytes(principal, subaccount).len() == ACCOUNT_ID_LEN,
        checksum_matches(account_id_bytes(principal, subaccount)),
        valid_account_text(encoded_text(account_id_bytes(principal, subaccount))),
{
    lemma_with_checksum_matches(sha224_digest(account_hash_input(principal, subaccount)));
}

/// What went wrong with a 32-byte identifier: the checksum it should start
/// with, and the one it does start with.
#[derive(Debug, PartialEq, Eq)]
pub struct ChecksumError {
    input: [u8; 32],
    expected_checksum: [u8; 4],
    found_checksum: [u8; 4],
}

impl ChecksumError {
    pub closed spec fn input_bytes(&self) -> Seq<u8> {
        self.input@
    }

    pub closed spec fn expected_bytes(&self) -> Seq<u8> {
        self.expected_checksum@
    }

    pub closed spec fn found_bytes(&self) -> Seq<u8> {
        self.found_checksum@
    }

    /// The 32 bytes that were checked.
    pub fn input(&self) -> (bytes: [u8; 32])
        ensures
            bytes@ == self.input_bytes(),
    {
        self.input
    }

    /// The checksum of the last 28 bytes.
    pub fn expected_checksum(&self) -> (bytes: [u8; 4])
        ensures
            bytes@ == self.expected_bytes(),
    {
        self.expected_checksum
    }

    /// The first four bytes as they were found.
    pub fn found_checksum(&self) -> (bytes: [u8; 4])
        ensures
            bytes@ == self.found_bytes(),
    {
        self.found_checksum
    }
}

/// Checks the checksum of 32 bytes, and says on failure what was expected.
pub fn verify_checksum(bytes: [u8; 32]) -> (r: Result<(), ChecksumError>)
    ensures
        r is Ok <==> checksum_matches(bytes@),
        r matches Err(e) ==> e.input_bytes() == bytes@ && e.expected_bytes() == be_bytes(
            crc32_checksum(bytes@.subrange(4, ACCOUNT_ID_LEN as int)),
        ) && e.found_bytes() == bytes@.subrange(0, 4),
{
    let tail: &[u8] = vstd::slice::slice_subrange(bytes.as_slice(), 4, ACCOUNT_ID_LEN);
    let expected: [u8; 4] = checksum_bytes(tail);
    let found: [u8; 4] = [bytes[0], bytes[1], bytes[2], bytes[3]];
    assert(found@ =~= bytes@.subrange(0, 4));
    proof {
        lemma_be_round_trip(crc32_checksum(tail@));
        if expected@ == found@ {
            assert(be_value(bytes@) == be_value(expected@));
        } else if checksum_matches(bytes@) {
            lemma_be_value_injective(bytes@, expected@);
            assert(expected@ =~= found@);
        }
    }
    if bytes_equal(expected.as_slice(), found.as_slice()) {
        Ok(())
    } else {
        Err(ChecksumError { input: bytes, expected_checksum: expected, found_checksum: found })
    }
}

/// The identifier that decoded bytes stand for: 32 bytes with a matching
/// checksum stand for themselves, a bare 28-byte digest for the identifier
/// built on it, anything else for none.
pub open spec fn canonical_account_bytes(bytes: Seq<u8>) -> Option<Seq<u8>> {
    if checksum_matches(bytes) {
        Some(bytes)
    } else if bytes.len() == ACCOUNT_DIGEST_LEN {
        Some(with_checksum(bytes))
    } else {
        None
    }
}

/// The canonical text of the identifier that `text` spells, if it spells one.
pub open spec fn formatted_account(text: Seq<char>) -> Option<Seq<char>> {
    if is_hex_text(text) {
        match canonical_account_bytes(decoded_bytes(text)) {
            Some(id) => Some(encoded_text(id)),
            None => None,
        }
    } else {
        None
    }
}

/// Where the dashboard shows an account: the address before the identifier.
pub open spec fn dashboard_prefix() -> Seq<char> {
    "https://dashboard.internetcomputer.org/account/"@
}

/// The canonical form of what was read from hex text: see
/// [`canonical_account_bytes`].
pub fn canonical_account(bytes: &[u8]) -> (id: Option<[u8; 32]>)
    ensures
        id is Some <==> canonical_account_bytes(bytes@) is Some,
        id matches Some(b) ==> canonical_account_bytes(bytes@) == Some(b@) && checksum_matches(
            b@,
        ),
{
    if bytes.len() == ACCOUNT_ID_LEN {
        if has_matching_checksum(bytes) {
            let mut id: [u8; 32] = [0u8; 32];
            let mut i: usize = 0;
            while i < ACCOUNT_ID_LEN
                invariant
                    i <= ACCOUNT_ID_LEN,
                    bytes@.len() == ACCOUNT_ID_LEN,
                    forall|k: int| 0 <= k < i ==> id@[k] == bytes@[k],
                decreases ACCOUNT_ID_LEN - i,
            {
                id[i] = bytes[i];
                i += 1;
            }
            assert(id@ =~= bytes@);
            Some(id)
        } else {
            None
        }
    } else if bytes.len() == ACCOUNT_DIGEST_LEN {
        Some(prepend_checksum(bytes))
    } else {
        None
    }
}

/// Takes an account as hex text and gives it back three ways: as it came, in
/// canonical form (64 lower-case hex digits), and as a dashboard address. The
/// last two are there only when the text spells an identifier.
pub fn process_account_hex(hex: &str) -> (r: (Option<String>, Option<String>, Option<String>))
    ensures
        r.0 matches Some(as_given) && as_given@ == hex@,
        r.1 is Some <==> formatted_account(hex@) is Some,
        r.2 is Some <==> formatted_account(hex@) is Some,
        r.1 matches Some(formatted) ==> formatted_account(hex@) == Some(formatted@)
            && valid_account_text(formatted@),
        r.2 matches Some(link) ==> formatted_account(hex@) matches Some(f) && link@
            == dashboard_prefix() + f,
{
    let orig_hex: Option<String> = Some(hex.to_owned());
    let id: Option<[u8; 32]> = match decode(hex) {
        Some(bytes) => canonical_account(bytes.as_slice()),
        None => None,
    };
    match id {
        Some(id) => {
            let formatted: String = encode(id.as_slice());
            proof {
                lemma_text_valid_iff_checksum(id@);
            }
            let mut link: String = "https://dashboard.internetcomputer.org/account/".to_owned();
            link.append(formatted.as_str());
            (orig_hex, Some(formatted), Some(link))
        },
        None => (orig_hex, None, None),
    }
}

} // verus!
