//! Documents that entities have declared: their hashes, how a declared hash
//! is checked against a file's contents, and the index of the files at hand.

use vstd::prelude::*;
use crate::digest::{sha256, sha256_digest};
use crate::hex_text::{encode, encoded_text};
use crate::text::{chars_of, text_equal};
use crate::text_map::TextMap;

verus! {

/// `c` with an ASCII capital letter turned into its small letter.
pub open spec fn ascii_lower(c: char) -> char {
    if 'A' <= c && c <= 'Z' {
        ((c as u8) + 32) as u8 as char
    } else {
        c
    }
}

/// A text with every ASCII capital letter turned into its small letter.
pub open spec fn ascii_lowered(text: Seq<char>) -> Seq<char> {
    Seq::new(text.len(), |i: int| ascii_lower(text[i]))
}

/// Two texts are the same but for the case of their ASCII letters.
pub open spec fn same_ignoring_case(a: Seq<char>, b: Seq<char>) -> bool {
    ascii_lowered(a) == ascii_lowered(b)
}

/// `c` with an ASCII capital letter turned into its small letter.
pub fn to_ascii_lower(c: char) -> (lower: char)
    ensures
        lower == ascii_lower(c),
{
    if 'A' <= c && c <= 'Z' {
        ((c as u8) + 32) as char
    } else {
        c
    }
}

/// Whether a declared hash and a computed hash agree. Hashes are hex text,
/// and the case of the letters does not count on either side.
pub fn hashes_match(expected: &str, actual: &str) -> (same: bool)
    ensures
        same == same_ignoring_case(expected@, actual@),
{
    let a: Vec<char> = chars_of(expected);
    let b: Vec<char> = chars_of(actual);
    if a.len() != b.len() {
        assert(ascii_lowered(a@).len() != ascii_lowered(b@).len());
        return false;
    }
    let mut i: usize = 0;
    while i < a.len()
        invariant
            i <= a.len(),
            a.len() == b.len(),
            a@ == expected@,
            b@ == actual@,
            forall|k: int| 0 <= k < i ==> ascii_lower(#[trigger] a@[k]) == ascii_lower(b@[k]),
        decreases a.len() - i,
    {
        if to_ascii_lower(a[i]) != to_ascii_lower(b[i]) {
            assert(ascii_lowered(a@)[i as int] != ascii_lowered(b@)[i as int]);
            return false;
        }
        i += 1;
    }
    assert(ascii_lowered(a@) =~= ascii_lowered(b@));
    true
}

/// The hash of a document: the SHA-256 digest of its contents, as 64
/// lower-case hex digits.
pub open spec fn document_hash(contents: Seq<u8>) -> Seq<char> {
    encoded_text(sha256_digest(contents))
}

/// Computes the hash of a document from its contents.
pub fn hash_contents(contents: &[u8]) -> (hash: String)
    ensures
        hash@ == document_hash(contents@),
        hash@.len() == 64,
{
    let digest: Vec<u8> = sha256(contents);
    encode(digest.as_slice())
}

/// The outcome of checking one declared document against its file.
#[derive(Debug, PartialEq, Eq)]
pub struct DocumentValidation {
    pub document_type: String,
    pub expected_hash: String,
    pub actual_hash: String,
    pub matches: bool,
}

/// A [`DocumentValidation`] as plain values.
pub struct ValidationView {
    pub document_type: Seq<char>,
    pub expected_hash: Seq<char>,
    pub actual_hash: Seq<char>,
    pub matches: bool,
}

impl View for DocumentValidation {
    type V = ValidationView;

    open spec fn view(&self) -> ValidationView {
        ValidationView {
            document_type: self.document_type@,
            expected_hash: self.expected_hash@,
            actual_hash: self.actual_hash@,
            matches: self.matches,
        }
    }
}

impl DocumentValidation {
    /// A copy of the outcome.
    pub fn duplicate(&self) -> (copy: DocumentValidation)
        ensures
            copy == *self,
    {
        DocumentValidation {
            document_type: self.document_type.clone(),
            expected_hash: self.expected_hash.clone(),
            actual_hash: self.actual_hash.clone(),
            matches: self.matches,
        }
    }
}

/// The outcome of checking a declared hash against a file's contents.
pub open spec fn validation_of(
    document_type: Seq<char>,
    expected_hash: Seq<char>,
    contents: Seq<u8>,
) -> ValidationView {
    ValidationView {
        document_type,
        expected_hash,
        actual_hash: document_hash(contents),
        matches: same_ignoring_case(expected_hash, document_hash(contents)),
    }
}

/// Checks a declared hash against the contents of the document's file.
pub fn validate_document(
    document_type: &str,
    expected_hash: &str,
    contents: &[u8],
) -> (v: DocumentValidation)
    ensures
        v@ == validation_of(document_type@, expected_hash@, contents@),
{
    let actual_hash: String = hash_contents(contents);
    let matches: bool = hashes_match(expected_hash, actual_hash.as_str());
    DocumentValidation {
        document_type: document_type.to_owned(),
        expected_hash: expected_hash.to_owned(),
        actual_hash,
        matches,
    }
}

/// The place of the last `.` among the first `n` characters of a name, or -1
/// where there is none.
pub open spec fn last_dot(name: Seq<char>, n: int) -> int
    decreases n,
{
    if n <= 0 {
        -1
    } else if name[n - 1] == '.' {
        n - 1
    } else {
        last_dot(name, n - 1)
    }
}

/// A file name without its extension: what stands before the last `.`,
/// unless the name has none or starts with its only one.
pub open spec fn file_stem(name: Seq<char>) -> Seq<char> {
    let dot = last_dot(name, name.len() as int);
    if dot > 0 {
        name.take(dot)
    } else {
        name
    }
}

/// Strips the extension from a file name.
pub fn stem_of(file_name: &str) -> (stem: String)
    ensures
        stem@ == file_stem(file_name@),
{
    let chars: Vec<char> = chars_of(file_name);
    let mut n: usize = chars.len();
    while n > 0 && chars[n - 1] != '.'
        invariant
            n <= chars@.len(),
            chars@ == file_name@,
            last_dot(chars@, chars@.len() as int) == last_dot(chars@, n as int),
        decreases n,
    {
        n -= 1;
    }
    if n > 1 {
        assert(last_dot(chars@, n as int) == n - 1);
        file_name.substring_char(0, n - 1).to_owned()
    } else {
        file_name.to_owned()
    }
}

/// A map from texts to texts as plain values: for the documents of one
/// entity, the path of each by its document type.
pub open spec fn text_values(documents: TextMap<String>) -> Map<Seq<char>, Seq<char>> {
    Map::new(|ty: Seq<char>| documents@.dom().contains(ty), |ty: Seq<char>| documents@[ty]@)
}

/// The files at hand: for each local identifier the paths of its documents,
/// by document type. Only document types on the index's list are taken in.
#[derive(Debug, PartialEq, Eq)]
pub struct DocumentIndex {
    allowed: Vec<String>,
    entries: TextMap<TextMap<String>>,
}

impl DocumentIndex {
    /// The document types that the index takes in.
    pub closed spec fn allowed_types(&self) -> Seq<Seq<char>> {
        Seq::new(self.allowed@.len(), |i: int| self.allowed@[i]@)
    }

    /// The index as a mathematical map: local identifier, then document
    /// type, then path.
    pub closed spec fn paths(&self) -> Map<Seq<char>, Map<Seq<char>, Seq<char>>> {
        Map::new(
            |id: Seq<char>| self.entries@.dom().contains(id),
            |id: Seq<char>| text_values(self.entries@[id]),
        )
    }

    /// An empty index that takes in the given document types.
    pub fn new(allowed: Vec<String>) -> (index: DocumentIndex)
        ensures
            index.paths() == Map::<Seq<char>, Map<Seq<char>, Seq<char>>>::empty(),
            index.allowed_types() == Seq::new(allowed@.len(), |i: int| allowed@[i]@),
    {
        let index = DocumentIndex { allowed, entries: TextMap::new() };
        assert(index.paths() =~= Map::<Seq<char>, Map<Seq<char>, Seq<char>>>::empty());
        index
    }

    /// Whether the index takes in documents of this type.
    pub fn is_allowed(&self, document_type: &str) -> (allowed: bool)
        ensures
            allowed == self.allowed_types().contains(document_type@),
    {
        let mut i: usize = 0;
        while i < self.allowed.len()
            invariant
                i <= self.allowed@.len(),
                forall|k: int| 0 <= k < i ==> #[trigger] self.allowed_types()[k] != document_type@,
            decreases self.allowed.len() - i,
        {
            if text_equal(self.allowed[i].as_str(), document_type) {
                assert(self.allowed_types()[i as int] == document_type@);
                return true;
            }
            i += 1;
        }
        false
    }

    /// The documents of one local identifier, if any were taken in.
    pub fn documents_of(&self, local_id: &str) -> (documents: Option<&TextMap<String>>)
        ensures
            documents is Some <==> self.paths().dom().contains(local_id@),
            documents matches Some(d) ==> text_values(*d) == self.paths()[local_id@],
    {
        self.entries.get(local_id)
    }

    /// The path of one document, if it was taken in.
    pub fn path_of(&self, local_id: &str, document_type: &str) -> (path: Option<&str>)
        ensures
            path is Some <==> self.paths().dom().contains(local_id@) && self.paths()[local_id@].dom().contains(
                document_type@,
            ),
            path matches Some(p) ==> p@ == self.paths()[local_id@][document_type@],
    {
        match self.entries.get(local_id) {
            Some(documents) => match documents.get(document_type) {
                Some(p) => Some(p.as_str()),
                None => None,
            },
            None => None,
        }
    }

    /// Takes in a file found under the directory of `local_id`. The file's
    /// name without its extension is its document type; a file whose type is
    /// not on the list is passed over. A second file of the same type
    /// replaces the first.
    pub fn add_file(&mut self, local_id: &str, file_name: &str, path: &str) -> (added: bool)
        ensures
            added == old(self).allowed_types().contains(file_stem(file_name@)),
            final(self).allowed_types() == old(self).allowed_types(),
            !added ==> final(self).paths() == old(self).paths(),
            added ==> final(self).paths() == old(self).paths().insert(
                local_id@,
                (if old(self).paths().dom().contains(local_id@) {
                    old(self).paths()[local_id@]
                } else {
                    Map::empty()
                }).insert(file_stem(file_name@), path@),
            ),
    {
        let stem: String = stem_of(file_name);
        if !self.is_allowed(stem.as_str()) {
            return false;
        }
        let ghost before = *self;
        let mut documents: TextMap<String> = match self.entries.get(local_id) {
            Some(d) => d.duplicate(),
            None => TextMap::new(),
        };
        let ghost earlier = text_values(documents);
        assert(earlier =~= (if before.paths().dom().contains(local_id@) {
            before.paths()[local_id@]
        } else {
            Map::empty()
        }));
        documents.insert(stem, path.to_owned());
        assert(text_values(documents) =~= earlier.insert(file_stem(file_name@), path@));
        self.entries.insert(local_id.to_owned(), documents);
        assert(self.paths() =~= before.paths().insert(local_id@, text_values(documents)));
        true
    }
}

} // verus!
