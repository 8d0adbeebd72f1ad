//! Bringing together what three sources say of an entity: the provider
//! roster, the table of declarations, and the documents on file.

use vstd::prelude::*;
use crate::documents::{
    text_values, validate_document, validation_of, DocumentIndex, DocumentValidation, ValidationView,
};
use crate::rewards::ProviderRewardInfo;
use crate::text::{copy_optional, optional_text, text_equal};
use crate::transactions::AccountTransactionsJson;
use crate::text_map::TextMap;

verus! {

/// The lower-case form of a text, as the standard library makes it.
pub uninterp spec fn lowercased(text: Seq<char>) -> Seq<char>;

/// Calls `str::to_lowercase`; the contract only gives the result its name.
#[verifier::external_body]
fn to_lowercase(text: &str) -> (lower: String)
    ensures
        lower@ == lowercased(text@),
{
    text.to_lowercase()
}

/// The form of a display name under which it is looked up.
pub fn normalized_name(name: &str) -> (key: String)
    ensures
        key@ == lowercased(name@),
{
    to_lowercase(name)
}

/// Whether two display names name the same entity: they do when their
/// lower-case forms are the same.
pub fn names_match(a: &str, b: &str) -> (same: bool)
    ensures
        same == (lowercased(a@) == lowercased(b@)),
{
    let x: String = to_lowercase(a);
    let y: String = to_lowercase(b);
    text_equal(x.as_str(), y.as_str())
}

/// One row of the provider roster.
#[derive(Debug, PartialEq, Eq)]
pub struct RosterEntry {
    pub name: String,
    pub principal: String,
    pub location_count: u64,
    pub node_count: u64,
}

/// One row of the table of declarations: the hashes an entity has declared
/// for its documents, and a link, under a local identifier of the table's own.
#[derive(Debug, PartialEq, Eq)]
pub struct WikiRecord {
    pub local_id: String,
    pub name: String,
    pub declaration: Option<String>,
    pub identity: Option<String>,
    pub other_documents: TextMap<String>,
    pub link: Option<String>,
}

/// For each lower-case name among the first `n` records, the place of the
/// last record of that name: a later record replaces an earlier one.
pub open spec fn name_index(wiki: Seq<WikiRecord>, n: int) -> Map<Seq<char>, usize>
    decreases n,
{
    if n <= 0 {
        Map::empty()
    } else {
        name_index(wiki, n - 1).insert(lowercased(wiki[n - 1].name@), (n - 1) as usize)
    }
}

/// What the index holds: a name is in it exactly when some record has it,
/// and it leads to the last such record.
pub proof fn lemma_name_index(wiki: Seq<WikiRecord>, n: int, key: Seq<char>)
    requires
        0 <= n <= wiki.len(),
        wiki.len() <= usize::MAX,
    ensures
        name_index(wiki, n).dom().contains(key) <==> exists|i: int|
            0 <= i < n && lowercased(#[trigger] wiki[i].name@) == key,
        name_index(wiki, n).dom().contains(key) ==> {
            let at = name_index(wiki, n)[key] as int;
            &&& 0 <= at < n
            &&& lowercased(wiki[at].name@) == key
            &&& forall|j: int| at < j < n ==> lowercased(#[trigger] wiki[j].name@) != key
        },
    decreases n,
{
    if n > 0 {
        lemma_name_index(wiki, n - 1, key);
        if lowercased(wiki[n - 1].name@) == key {
        } else if name_index(wiki, n - 1).dom().contains(key) {
            let i = choose|i: int| 0 <= i < n - 1 && lowercased(#[trigger] wiki[i].name@) == key;
            assert(0 <= i < n && lowercased(wiki[i].name@) == key);
        } else {
            if exists|i: int| 0 <= i < n && lowercased(#[trigger] wiki[i].name@) == key {
                let i = choose|i: int| 0 <= i < n && lowercased(#[trigger] wiki[i].name@) == key;
                assert(0 <= i < n - 1 && lowercased(wiki[i].name@) == key);
            }
        }
    }
}

/// Builds the index from lower-case name to record.
pub fn build_name_index(wiki: &[WikiRecord]) -> (index: TextMap<usize>)
    ensures
        index@ == name_index(wiki@, wiki@.len() as int),
{
    let mut index: TextMap<usize> = TextMap::new();
    let mut i: usize = 0;
    while i < wiki.len()
        invariant
            i <= wiki@.len(),
            index@ == name_index(wiki@, i as int),
        decreases wiki.len() - i,
    {
        index.insert(normalized_name(wiki[i].name.as_str()), i);
        i += 1;
    }
    index
}

/// The name of the document type of declarations.
pub open spec fn declaration_type() -> Seq<char> {
    "declaration"@
}

/// The name of the document type of proofs of identity.
pub open spec fn identity_type() -> Seq<char> {
    "identity"@
}

/// The two named document types are different names.
pub proof fn lemma_named_types_differ()
    ensures
        declaration_type() != identity_type(),
        declaration_type().len() == 11,
        identity_type().len() == 8,
{
    reveal_strlit("declaration");
    reveal_strlit("identity");
    assert("declaration"@.len() == 11);
    assert("identity"@.len() == 8);
}

/// The hash that a record declares for a document type, if it declares one.
/// The two named types have fields of their own, which come first; every
/// other type is looked up among the record's other documents.
pub open spec fn declared_hash(record: WikiRecord, ty: Seq<char>) -> Option<Seq<char>> {
    if ty == declaration_type() {
        optional_text(record.declaration)
    } else if ty == identity_type() {
        optional_text(record.identity)
    } else if record.other_documents@.dom().contains(ty) {
        Some(record.other_documents@[ty]@)
    } else {
        None
    }
}

/// A document to be checked: its type, the hash declared for it, and the
/// path of its file.
#[derive(Debug, PartialEq, Eq)]
pub struct DocumentRequest {
    pub document_type: String,
    pub expected_hash: String,
    pub path: String,
}

/// A [`DocumentRequest`] as plain values.
pub struct RequestView {
    pub document_type: Seq<char>,
    pub expected_hash: Seq<char>,
    pub path: Seq<char>,
}

impl View for DocumentRequest {
    type V = RequestView;

    open spec fn view(&self) -> RequestView {
        RequestView {
            document_type: self.document_type@,
            expected_hash: self.expected_hash@,
            path: self.path@,
        }
    }
}

/// The requests of a list, as plain values.
pub open spec fn request_views(requests: Seq<DocumentRequest>) -> Seq<RequestView> {
    Seq::new(requests.len(), |i: int| requests[i]@)
}

/// The request for one document type, where the record declares a hash for
/// it and a file of that type is on hand; else none.
pub open spec fn request_for(
    record: WikiRecord,
    files: Map<Seq<char>, Seq<char>>,
    ty: Seq<char>,
) -> Seq<RequestView> {
    match declared_hash(record, ty) {
        Some(hash) => if files.dom().contains(ty) {
            seq![RequestView { document_type: ty, expected_hash: hash, path: files[ty] }]
        } else {
            Seq::empty()
        },
        None => Seq::empty(),
    }
}

/// The requests for the first `n` of a record's other documents. A document
/// listed there under one of the two named types is passed over: the named
/// field speaks for that type.
pub open spec fn other_requests(
    record: WikiRecord,
    files: Map<Seq<char>, Seq<char>>,
    n: int,
) -> Seq<RequestView>
    decreases n,
{
    if n <= 0 {
        Seq::empty()
    } else {
        let ty = record.other_documents.key_seq()[n - 1];
        let before = other_requests(record, files, n - 1);
        if ty == declaration_type() || ty == identity_type() {
            before
        } else {
            before + request_for(record, files, ty)
        }
    }
}

/// All the requests that a record and the files on hand give rise to: the
/// declaration, the proof of identity, then the other documents in the order
/// of the record.
pub open spec fn planned_requests(
    record: WikiRecord,
    files: Map<Seq<char>, Seq<char>>,
) -> Seq<RequestView> {
    request_for(record, files, declaration_type()) + request_for(record, files, identity_type())
        + other_requests(record, files, record.other_documents.key_seq().len() as int)
}

/// A request is in order: it is for a document type for which the record
/// declares a hash and a file is on hand, and it carries that hash and that
/// file's path.
pub open spec fn request_in_order(
    record: WikiRecord,
    files: Map<Seq<char>, Seq<char>>,
    request: RequestView,
) -> bool {
    &&& declared_hash(record, request.document_type) == Some(request.expected_hash)
    &&& files.dom().contains(request.document_type)
    &&& files[request.document_type] == request.path
}

/// Whether a list of requests holds one for the document type `ty`.
pub open spec fn requests_hold(requests: Seq<RequestView>, ty: Seq<char>) -> bool {
    exists|k: int| 0 <= k < requests.len() && (#[trigger] requests[k]).document_type == ty
}

/// No two requests of a list are for the same document type.
pub open spec fn one_request_each(requests: Seq<RequestView>) -> bool {
    forall|a: int, b: int|
        0 <= a < b < requests.len() ==> (#[trigger] requests[a]).document_type != (
        #[trigger] requests[b]).document_type
}

/// What holds of the requests for the first `n` other documents.
proof fn lemma_other_requests(record: WikiRecord, files: Map<Seq<char>, Seq<char>>, n: int)
    requires
        record.other_documents.valid(),
        0 <= n <= record.other_documents.key_seq().len(),
    ensures
        one_request_each(other_requests(record, files, n)),
        forall|k: int|
            0 <= k < other_requests(record, files, n).len() ==> {
                let request = #[trigger] other_requests(record, files, n)[k];
                &&& request_in_order(record, files, request)
                &&& request.document_type != declaration_type()
                &&& request.document_type != identity_type()
                &&& exists|p: int|
                    0 <= p < n && #[trigger] record.other_documents.key_seq()[p]
                        == request.document_type
            },
        forall|p: int|
            0 <= p < n ==> {
                let ty = #[trigger] record.other_documents.key_seq()[p];
                ty != declaration_type() && ty != identity_type() && files.dom().contains(ty)
                    ==> requests_hold(other_requests(record, files, n), ty)
            },
    decreases n,
{
    record.other_documents.lemma_places();
    let keys = record.other_documents.key_seq();
    let all = other_requests(record, files, n);
    if n > 0 {
        lemma_other_requests(record, files, n - 1);
        let before = other_requests(record, files, n - 1);
        let ty = keys[n - 1];
        if ty == declaration_type() || ty == identity_type() {
            assert forall|k: int| 0 <= k < all.len() implies (exists|p: int|
                0 <= p < n && #[trigger] keys[p] == (#[trigger] all[k]).document_type) by {
                let p = choose|p: int|
                    0 <= p < n - 1 && #[trigger] keys[p] == before[k].document_type;
                assert(0 <= p < n && keys[p] == all[k].document_type);
            }
            assert forall|p: int| 0 <= p < n implies ({
                let t = #[trigger] keys[p];
                t != declaration_type() && t != identity_type() && files.dom().contains(t)
                    ==> requests_hold(all, t)
            }) by {}
        } else {
            let added = request_for(record, files, ty);
            assert(all == before + added);
            assert(record.other_documents@.dom().contains(ty));
            assert forall|k: int| 0 <= k < all.len() implies ({
                let request = #[trigger] all[k];
                &&& request_in_order(record, files, request)
                &&& request.document_type != declaration_type()
                &&& request.document_type != identity_type()
                &&& exists|p: int| 0 <= p < n && #[trigger] keys[p] == request.document_type
            }) by {
                if k < before.len() {
                    assert(all[k] == before[k]);
                    let p = choose|p: int|
                        0 <= p < n - 1 && #[trigger] keys[p] == before[k].document_type;
                    assert(0 <= p < n && keys[p] == all[k].document_type);
                } else {
                    assert(all[k] == added[k - before.len()]);
                    assert(keys[n - 1] == all[k].document_type);
                }
            }
            assert forall|a: int, b: int| 0 <= a < b < all.len() implies (
            #[trigger] all[a]).document_type != (#[trigger] all[b]).document_type by {
                if b < before.len() {
                    assert(all[a] == before[a] && all[b] == before[b]);
                } else {
                    assert(all[a] == before[a]);
                    assert(all[b].document_type == ty);
                    let p = choose|p: int|
                        0 <= p < n - 1 && #[trigger] keys[p] == before[a].document_type;
                    assert(keys[p] != keys[n - 1]);
                }
            }
            assert forall|p: int| 0 <= p < n implies ({
                let t = #[trigger] keys[p];
                t != declaration_type() && t != identity_type() && files.dom().contains(t)
                    ==> requests_hold(all, t)
            }) by {
                let t = keys[p];
                if t != declaration_type() && t != identity_type() && files.dom().contains(t) {
                    if p < n - 1 {
                        assert(requests_hold(before, t));
                        let k = choose|k: int|
                            0 <= k < before.len() && (#[trigger] before[k]).document_type == t;
                        assert(all[k].document_type == t);
                    } else {
                        assert(added.len() == 1);
                        assert(all[before.len() as int] == added[0]);
                        assert(all[before.len() as int].document_type == t);
                    }
                }
            }
        }
    }
}

/// Every declared document gives exactly one request or none: the planned
/// requests hold one for a document type exactly when the record declares a
/// hash for it and a file of that type is on hand, never two for one type,
/// and each carries the declared hash and the file's path.
pub proof fn lemma_one_request_per_document(record: WikiRecord, files: Map<Seq<char>, Seq<char>>)
    requires
        record.other_documents.valid(),
    ensures
        one_request_each(planned_requests(record, files)),
        forall|k: int|
            0 <= k < planned_requests(record, files).len() ==> request_in_order(
                record,
                files,
                #[trigger] planned_requests(record, files)[k],
            ),
        forall|ty: Seq<char>|
            #[trigger] requests_hold(planned_requests(record, files), ty) <==> declared_hash(
                record,
                ty,
            ) is Some && files.dom().contains(ty),
{
    lemma_named_types_differ();
    record.other_documents.lemma_places();
    let keys = record.other_documents.key_seq();
    let n = keys.len() as int;
    lemma_other_requests(record, files, n);
    let first = request_for(record, files, declaration_type());
    let second = request_for(record, files, identity_type());
    let others = other_requests(record, files, n);
    let all = planned_requests(record, files);
    assert(all == first + second + others);
    let lead = first.len() + second.len();
    assert forall|k: int| 0 <= k < all.len() implies request_in_order(
        record,
        files,
        #[trigger] all[k],
    ) && (k < first.len() ==> all[k].document_type == declaration_type()) && (first.len() <= k
        < lead ==> all[k].document_type == identity_type()) && (k >= lead ==> all[k]
        == others[k - lead]) by {
        if k < first.len() {
            assert(all[k] == first[k]);
        } else if k < lead {
            assert(all[k] == second[k - first.len()]);
        } else {
            assert(all[k] == others[k - lead]);
        }
    }
    assert forall|a: int, b: int| 0 <= a < b < all.len() implies (
    #[trigger] all[a]).document_type != (#[trigger] all[b]).document_type by {
        if a >= lead {
            assert(all[a] == others[a - lead] && all[b] == others[b - lead]);
        } else if b >= lead {
            assert(all[b] == others[b - lead]);
        }
    }
    assert forall|ty: Seq<char>| #[trigger] requests_hold(all, ty) <==> declared_hash(
        record,
        ty,
    ) is Some && files.dom().contains(ty) by {
        if requests_hold(all, ty) {
            let k = choose|k: int| 0 <= k < all.len() && (#[trigger] all[k]).document_type == ty;
            assert(request_in_order(record, files, all[k]));
        }
        if declared_hash(record, ty) is Some && files.dom().contains(ty) {
            if ty == declaration_type() {
                assert(first.len() == 1);
                assert(all[0] == first[0]);
                assert(all[0].document_type == ty);
            } else if ty == identity_type() {
                assert(second.len() == 1);
                assert(all[first.len() as int] == second[0]);
                assert(all[first.len() as int].document_type == ty);
            } else {
                assert(record.other_documents@.dom().contains(ty));
                assert(keys.contains(ty));
                let p = choose|p: int| 0 <= p < keys.len() && keys[p] == ty;
                assert(requests_hold(others, keys[p]));
                let k = choose|k: int|
                    0 <= k < others.len() && (#[trigger] others[k]).document_type == ty;
                assert(all[lead + k] == others[k]);
                assert(all[lead + k].document_type == ty);
            }
        }
    }
}

/// The files on hand for a local identifier; none where the index has no
/// entry for it.
pub open spec fn files_of(index: DocumentIndex, local_id: Seq<char>) -> Map<Seq<char>, Seq<char>> {
    if index.paths().dom().contains(local_id) {
        index.paths()[local_id]
    } else {
        Map::empty()
    }
}

/// Adds the request for one document type, if there is to be one.
fn push_request(
    requests: &mut Vec<DocumentRequest>,
    record: &WikiRecord,
    index: &DocumentIndex,
    ty: &str,
    expected: Option<&String>,
)
    requires
        optional_ref_text(expected) == declared_hash(*record, ty@),
    ensures
        request_views(final(requests)@) == request_views(old(requests)@) + request_for(
            *record,
            files_of(*index, record.local_id@),
            ty@,
        ),
{
    let ghost before = request_views(requests@);
    match expected {
        Some(hash) => match index.path_of(record.local_id.as_str(), ty) {
            Some(path) => {
                requests.push(
                    DocumentRequest {
                        document_type: ty.to_owned(),
                        expected_hash: hash.clone(),
                        path: path.to_owned(),
                    },
                );
                assert(request_views(requests@) =~= before + request_for(
                    *record,
                    files_of(*index, record.local_id@),
                    ty@,
                ));
            },
            None => {
                assert(request_views(requests@) =~= before + request_for(
                    *record,
                    files_of(*index, record.local_id@),
                    ty@,
                ));
            },
        },
        None => {
            assert(request_views(requests@) =~= before + request_for(
                *record,
                files_of(*index, record.local_id@),
                ty@,
            ));
        },
    }
}

/// The characters of an optional borrowed string.
pub open spec fn optional_ref_text(text: Option<&String>) -> Option<Seq<char>> {
    match text {
        Some(t) => Some(t@),
        None => None,
    }
}

/// Lists the documents of a record that can be checked: those for which the
/// record declares a hash and the index holds a file. A declared document
/// without a file is passed over; that is an absence, not a failed check.
pub fn planned_validations(
    record: &WikiRecord,
    index: &DocumentIndex,
) -> (requests: Vec<DocumentRequest>)
    ensures
        request_views(requests@) == planned_requests(
            *record,
            files_of(*index, record.local_id@),
        ),
{
    let ghost files = files_of(*index, record.local_id@);
    let mut requests: Vec<DocumentRequest> = Vec::new();
    assert(request_views(requests@) =~= Seq::<RequestView>::empty());
    proof {
        lemma_named_types_differ();
    }
    push_request(&mut requests, record, index, "declaration", record.declaration.as_ref());
    push_request(&mut requests, record, index, "identity", record.identity.as_ref());
    let ghost fixed = request_views(requests@);
    let n: usize = record.other_documents.len();
    let mut i: usize = 0;
    assert(fixed + other_requests(*record, files, 0) =~= fixed);
    while i < n
        invariant
            i <= n,
            n == record.other_documents.key_seq().len(),
            files == files_of(*index, record.local_id@),
            request_views(requests@) == fixed + other_requests(*record, files, i as int),
        decreases n - i,
    {
        let ty: &str = record.other_documents.key_at(i);
        let ghost before = other_requests(*record, files, i as int);
        if !text_equal(ty, "declaration") && !text_equal(ty, "identity") {
            let expected: &String = record.other_documents.value_at(i);
            push_request(&mut requests, record, index, ty, Some(expected));
            assert(fixed + (before + request_for(*record, files, ty@)) =~= (fixed + before)
                + request_for(*record, files, ty@));
        }
        i += 1;
    }
    assert(fixed =~= request_for(*record, files, declaration_type()) + request_for(
        *record,
        files,
        identity_type(),
    ));
    requests
}

/// The outcomes of a list, as plain values.
pub open spec fn validation_views(validations: Seq<DocumentValidation>) -> Seq<ValidationView> {
    Seq::new(validations.len(), |i: int| validations[i]@)
}

/// The contents that were read for request `i`: none where the file could
/// not be read, or where the list of contents is too short to say.
pub open spec fn contents_at(contents: Seq<Option<Vec<u8>>>, i: int) -> Option<Seq<u8>> {
    if 0 <= i < contents.len() {
        match contents[i] {
            Some(bytes) => Some(bytes@),
            None => None,
        }
    } else {
        None
    }
}

/// The outcomes of the first `n` requests, in order: one for each request
/// whose file was read, none for the others.
pub open spec fn validations_upto(
    requests: Seq<RequestView>,
    contents: Seq<Option<Vec<u8>>>,
    n: int,
) -> Seq<ValidationView>
    decreases n,
{
    if n <= 0 {
        Seq::empty()
    } else {
        let before = validations_upto(requests, contents, n - 1);
        match contents_at(contents, n - 1) {
            Some(bytes) => before.push(
                validation_of(requests[n - 1].document_type, requests[n - 1].expected_hash, bytes),
            ),
            None => before,
        }
    }
}

/// Checks each requested document against the contents read from its file.
/// `contents` holds, for each request in turn, what was read, or `None` where
/// the file could not be read; such a document is left out, not failed.
pub fn validate_documents(
    requests: &[DocumentRequest],
    contents: &[Option<Vec<u8>>],
) -> (validations: Vec<DocumentValidation>)
    ensures
        validation_views(validations@) == validations_upto(
            request_views(requests@),
            contents@,
            requests@.len() as int,
        ),
{
    let mut validations: Vec<DocumentValidation> = Vec::new();
    let mut i: usize = 0;
    assert(validation_views(validations@) =~= Seq::<ValidationView>::empty());
    while i < requests.len()
        invariant
            i <= requests@.len(),
            validation_views(validations@) == validations_upto(
                request_views(requests@),
                contents@,
                i as int,
            ),
        decreases requests.len() - i,
    {
        let ghost before = validation_views(validations@);
        if i < contents.len() {
            match &contents[i] {
                Some(bytes) => {
                    let v: DocumentValidation = validate_document(
                        requests[i].document_type.as_str(),
                        requests[i].expected_hash.as_str(),
                        bytes.as_slice(),
                    );
                    validations.push(v);
                    assert(validation_views(validations@) =~= before.push(v@));
                },
                None => {},
            }
        }
        i += 1;
    }
    validations
}

/// Everything known of one entity, from all sources.
#[derive(Debug, PartialEq, Eq)]
pub struct CombinedEntity {
    pub name: String,
    pub principal: Option<String>,
    pub in_roster: bool,
    pub location_count: u64,
    pub node_count: u64,
    pub local_id: Option<String>,
    pub declaration: Option<String>,
    pub identity: Option<String>,
    pub other_documents: TextMap<String>,
    pub link: Option<String>,
    pub document_paths: Option<TextMap<String>>,
    pub validations: Vec<DocumentValidation>,
    pub rewards: Option<ProviderRewardInfo>,
    pub activity: Option<AccountTransactionsJson>,
}

/// The entity carries what the roster says of it.
pub open spec fn has_roster_part(e: CombinedEntity, r: RosterEntry) -> bool {
    &&& e.name@ == r.name@
    &&& optional_text(e.principal) == Some(r.principal@)
    &&& e.in_roster
    &&& e.location_count == r.location_count
    &&& e.node_count == r.node_count
}

/// The entity is marked as missing from the roster: it goes by the name of
/// its record, and what the roster would say is zero.
pub open spec fn has_no_roster_part(e: CombinedEntity, w: WikiRecord) -> bool {
    &&& e.name@ == w.name@
    &&& e.principal is None
    &&& !e.in_roster
    &&& e.location_count == 0
    &&& e.node_count == 0
}

/// The entity carries the declarations of a record, the files on hand for
/// it, and the given outcomes of checking them.
pub open spec fn has_wiki_part(
    e: CombinedEntity,
    w: WikiRecord,
    index: DocumentIndex,
    validations: Seq<ValidationView>,
) -> bool {
    &&& optional_text(e.local_id) == Some(w.local_id@)
    &&& optional_text(e.declaration) == optional_text(w.declaration)
    &&& optional_text(e.identity) == optional_text(w.identity)
    &&& optional_text(e.link) == optional_text(w.link)
    &&& text_values(e.other_documents) == text_values(w.other_documents)
    &&& e.other_documents.key_seq() == w.other_documents.key_seq()
    &&& e.document_paths is Some <==> index.paths().dom().contains(w.local_id@)
    &&& e.document_paths matches Some(d) ==> text_values(d) == index.paths()[w.local_id@]
    &&& validation_views(e.validations@) == validations
}

/// The entity carries no declarations at all.
pub open spec fn has_no_wiki_part(e: CombinedEntity) -> bool {
    &&& e.local_id is None
    &&& e.declaration is None
    &&& e.identity is None
    &&& e.link is None
    &&& e.other_documents.key_seq().len() == 0
    &&& e.document_paths is None
    &&& e.validations@.len() == 0
}

/// Nothing of rewards or transactions has been attached yet.
pub open spec fn has_no_activity(e: CombinedEntity) -> bool {
    e.rewards is None && e.activity is None
}

/// The record that a display name leads to: the last one whose lower-case
/// name is the lower-case form of `name`.
pub open spec fn matched_record(wiki: Seq<WikiRecord>, name: Seq<char>) -> Option<int> {
    let index = name_index(wiki, wiki.len() as int);
    if index.dom().contains(lowercased(name)) {
        Some(index[lowercased(name)] as int)
    } else {
        None
    }
}

/// Record `i` is the one that some roster entry among the first `n` leads to.
pub open spec fn is_used(roster: Seq<RosterEntry>, wiki: Seq<WikiRecord>, n: int, i: int) -> bool {
    exists|r: int| 0 <= r < n && matched_record(wiki, (#[trigger] roster[r]).name@) == Some(i)
}

/// The places, among the first `n` records, of those that no roster entry
/// leads to, in order.
pub open spec fn unused_records(
    roster: Seq<RosterEntry>,
    wiki: Seq<WikiRecord>,
    n: int,
) -> Seq<int>
    decreases n,
{
    if n <= 0 {
        Seq::empty()
    } else {
        let before = unused_records(roster, wiki, n - 1);
        if is_used(roster, wiki, roster.len() as int, n - 1) {
            before
        } else {
            before.push(n - 1)
        }
    }
}

/// The outcomes handed in for record `i`; none where the list is too short.
pub open spec fn validations_for(
    validations: Seq<Vec<DocumentValidation>>,
    i: int,
) -> Seq<ValidationView> {
    if 0 <= i < validations.len() {
        validation_views(validations[i]@)
    } else {
        Seq::empty()
    }
}

/// The entity for a roster entry: what the roster says, together with the
/// record that the entry's name leads to, if there is one.
pub open spec fn is_roster_row(
    e: CombinedEntity,
    r: RosterEntry,
    wiki: Seq<WikiRecord>,
    index: DocumentIndex,
    validations: Seq<Vec<DocumentValidation>>,
) -> bool {
    &&& has_roster_part(e, r)
    &&& has_no_activity(e)
    &&& match matched_record(wiki, r.name@) {
        Some(i) => has_wiki_part(e, wiki[i], index, validations_for(validations, i)),
        None => has_no_wiki_part(e),
    }
}

/// The entity for a record that no roster entry leads to.
pub open spec fn is_wiki_row(
    e: CombinedEntity,
    w: WikiRecord,
    index: DocumentIndex,
    validations: Seq<ValidationView>,
) -> bool {
    &&& has_no_roster_part(e, w)
    &&& has_no_activity(e)
    &&& has_wiki_part(e, w, index, validations)
}

/// A copy of a list of outcomes.
fn copy_validations(list: &[DocumentValidation]) -> (copy: Vec<DocumentValidation>)
    ensures
        validation_views(copy@) == validation_views(list@),
{
    let mut copy: Vec<DocumentValidation> = Vec::new();
    let mut i: usize = 0;
    while i < list.len()
        invariant
            i <= list@.len(),
            copy@.len() == i,
            forall|k: int| 0 <= k < i ==> (#[trigger] copy@[k])@ == list@[k]@,
        decreases list.len() - i,
    {
        copy.push(list[i].duplicate());
        i += 1;
    }
    assert(validation_views(copy@) =~= validation_views(list@));
    copy
}

impl CombinedEntity {
    /// An entity of the given name and roster values that carries the
    /// declarations of `record`, the files on hand for it, and `validations`.
    fn with_record(
        name: String,
        principal: Option<String>,
        in_roster: bool,
        location_count: u64,
        node_count: u64,
        record: &WikiRecord,
        index: &DocumentIndex,
        validations: &[DocumentValidation],
    ) -> (e: CombinedEntity)
        ensures
            e.name == name,
            e.principal == principal,
            e.in_roster == in_roster,
            e.location_count == location_count,
            e.node_count == node_count,
            has_no_activity(e),
            has_wiki_part(e, *record, *index, validation_views(validations@)),
    {
        let document_paths: Option<TextMap<String>> = match index.documents_of(
            record.local_id.as_str(),
        ) {
            Some(d) => Some(d.duplicate()),
            None => None,
        };
        CombinedEntity {
            name,
            principal,
            in_roster,
            location_count,
            node_count,
            local_id: Some(record.local_id.clone()),
            declaration: copy_optional(&record.declaration),
            identity: copy_optional(&record.identity),
            other_documents: record.other_documents.duplicate(),
            link: copy_optional(&record.link),
            document_paths,
            validations: copy_validations(validations),
            rewards: None,
            activity: None,
        }
    }

    /// An entity of the given name and roster values that carries no
    /// declarations.
    fn without_record(
        name: String,
        principal: Option<String>,
        in_roster: bool,
        location_count: u64,
        node_count: u64,
    ) -> (e: CombinedEntity)
        ensures
            e.name == name,
            e.principal == principal,
            e.in_roster == in_roster,
            e.location_count == location_count,
            e.node_count == node_count,
            has_no_activity(e),
            has_no_wiki_part(e),
    {
        CombinedEntity {
            name,
            principal,
            in_roster,
            location_count,
            node_count,
            local_id: None,
            declaration: None,
            identity: None,
            other_documents: TextMap::new(),
            link: None,
            document_paths: None,
            validations: Vec::new(),
            rewards: None,
            activity: None,
        }
    }

    /// The entity with what is known of its rewards and its transactions
    /// attached; the rest stays.
    pub fn with_activity(
        self,
        rewards: Option<ProviderRewardInfo>,
        activity: Option<AccountTransactionsJson>,
    ) -> (e: CombinedEntity)
        ensures
            e == (CombinedEntity { rewards, activity, ..self }),
    {
        CombinedEntity {
            name: self.name,
            principal: self.principal,
            in_roster: self.in_roster,
            location_count: self.location_count,
            node_count: self.node_count,
            local_id: self.local_id,
            declaration: self.declaration,
            identity: self.identity,
            other_documents: self.other_documents,
            link: self.link,
            document_paths: self.document_paths,
            validations: self.validations,
            rewards,
            activity,
        }
    }
}

/// The outcomes handed in for record `i`, or an empty list.
fn outcomes_for<'a>(
    validations: &'a [Vec<DocumentValidation>],
    none: &'a Vec<DocumentValidation>,
    i: usize,
) -> (list: &'a [DocumentValidation])
    requires
        none@.len() == 0,
    ensures
        validation_views(list@) == validations_for(validations@, i as int),
{
    if i < validations.len() {
        validations[i].as_slice()
    } else {
        assert(validation_views(none@) =~= Seq::<ValidationView>::empty());
        none.as_slice()
    }
}

/// Merges the roster with the table of declarations.
///
/// Each roster entry gives one entity, in the roster's order. Its name is
/// looked up among the records without regard to case; of several records of
/// one name the last counts. Where a record is found, the entity carries its
/// declared hashes and link, the files on hand for its local identifier, and
/// the outcomes handed in for it. After these come the records that no
/// roster entry led to, in the table's order, each as an entity that is marked
/// as missing from the roster and has zero for the roster's counts.
///
/// `validations` holds, for each record in turn, the outcomes of checking its
/// documents.
pub fn reconcile(
    roster: &[RosterEntry],
    wiki: &[WikiRecord],
    index: &DocumentIndex,
    validations: &[Vec<DocumentValidation>],
) -> (entities: Vec<CombinedEntity>)
    ensures
        entities@.len() == roster@.len() + unused_records(
            roster@,
            wiki@,
            wiki@.len() as int,
        ).len(),
        forall|r: int|
            0 <= r < roster@.len() ==> is_roster_row(
                #[trigger] entities@[r],
                roster@[r],
                wiki@,
                *index,
                validations@,
            ),
        forall|k: int|
            0 <= k < unused_records(roster@, wiki@, wiki@.len() as int).len() ==> {
                let i = #[trigger] unused_records(roster@, wiki@, wiki@.len() as int)[k];
                &&& 0 <= i < wiki@.len()
                &&& is_wiki_row(
                    entities@[roster@.len() + k],
                    wiki@[i],
                    *index,
                    validations_for(validations@, i),
                )
            },
{
    let names: TextMap<usize> = build_name_index(wiki);
    let none: Vec<DocumentValidation> = Vec::new();
    let mut used: Vec<bool> = Vec::new();
    let mut i: usize = 0;
    while i < wiki.len()
        invariant
            i <= wiki@.len(),
            used@.len() == i,
            forall|k: int| 0 <= k < i ==> !(#[trigger] used@[k]),
        decreases wiki.len() - i,
    {
        used.push(false);
        i += 1;
    }
    let mut entities: Vec<CombinedEntity> = Vec::new();
    let mut r: usize = 0;
    while r < roster.len()
        invariant
            r <= roster@.len(),
            none@.len() == 0,
            wiki@.len() <= usize::MAX,
            names@ == name_index(wiki@, wiki@.len() as int),
            used@.len() == wiki@.len(),
            forall|k: int|
                0 <= k < wiki@.len() ==> (#[trigger] used@[k]) == is_used(
                    roster@,
                    wiki@,
                    r as int,
                    k,
                ),
            entities@.len() == r,
            forall|k: int|
                0 <= k < r ==> is_roster_row(
                    #[trigger] entities@[k],
                    roster@[k],
                    wiki@,
                    *index,
                    validations@,
                ),
        decreases roster.len() - r,
    {
        let entry: &RosterEntry = &roster[r];
        let key: String = normalized_name(entry.name.as_str());
        let ghost used_before = used@;
        proof {
            lemma_name_index(wiki@, wiki@.len() as int, key@);
        }
        let e: CombinedEntity = match names.get(key.as_str()) {
            Some(at) => {
                let at: usize = *at;
                used[at] = true;
                CombinedEntity::with_record(
                    entry.name.clone(),
                    Some(entry.principal.clone()),
                    true,
                    entry.location_count,
                    entry.node_count,
                    &wiki[at],
                    index,
                    outcomes_for(validations, &none, at),
                )
            },
            None => CombinedEntity::without_record(
                entry.name.clone(),
                Some(entry.principal.clone()),
                true,
                entry.location_count,
                entry.node_count,
            ),
        };
        entities.push(e);
        proof {
            assert forall|k: int| 0 <= k < wiki@.len() implies (#[trigger] used@[k]) == is_used(
                roster@,
                wiki@,
                r + 1,
                k,
            ) by {
                if is_used(roster@, wiki@, r as int, k) {
                    let w = choose|w: int|
                        0 <= w < r && matched_record(wiki@, (#[trigger] roster@[w]).name@)
                            == Some(k);
                    assert(0 <= w < r + 1 && matched_record(wiki@, roster@[w].name@) == Some(k));
                }
                if matched_record(wiki@, roster@[r as int].name@) == Some(k) {
                    assert(is_used(roster@, wiki@, r + 1, k));
                }
                if is_used(roster@, wiki@, r + 1, k) {
                    let w = choose|w: int|
                        0 <= w < r + 1 && matched_record(wiki@, (#[trigger] roster@[w]).name@)
                            == Some(k);
                    if w < r {
                        assert(is_used(roster@, wiki@, r as int, k));
                    }
                }
            }
        }
        r += 1;
    }
    let ghost rows = entities@;
    let mut i: usize = 0;
    while i < wiki.len()
        invariant
            i <= wiki@.len(),
            r == roster@.len(),
            none@.len() == 0,
            used@.len() == wiki@.len(),
            forall|k: int|
                0 <= k < wiki@.len() ==> (#[trigger] used@[k]) == is_used(
                    roster@,
                    wiki@,
                    roster@.len() as int,
                    k,
                ),
            entities@.len() == roster@.len() + unused_records(roster@, wiki@, i as int).len(),
            forall|k: int|
                0 <= k < roster@.len() ==> is_roster_row(
                    #[trigger] entities@[k],
                    roster@[k],
                    wiki@,
                    *index,
                    validations@,
                ),
            forall|k: int|
                0 <= k < unused_records(roster@, wiki@, i as int).len() ==> {
                    let at = #[trigger] unused_records(roster@, wiki@, i as int)[k];
                    &&& 0 <= at < i
                    &&& is_wiki_row(
                        entities@[roster@.len() + k],
                        wiki@[at],
                        *index,
                        validations_for(validations@, at),
                    )
                },
        decreases wiki.len() - i,
    {
        if !used[i] {
            let record: &WikiRecord = &wiki[i];
            let e: CombinedEntity = CombinedEntity::with_record(
                record.name.clone(),
                None,
                false,
                0,
                0,
                record,
                index,
                outcomes_for(validations, &none, i),
            );
            entities.push(e);
        }
        i += 1;
    }
    entities
}

} // verus!
