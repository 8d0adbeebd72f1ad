//! The registry of known accounts: what an entry holds, how it is read from
//! its text, and the rule that no account may be listed twice.

use vstd::prelude::*;
use crate::principal::{principal_bytes_text, principal_text_bytes, Principal};
use crate::text::{join_text, contains_char, text_equal};

verus! {

/// The kind of holder an entry describes.
#[derive(Debug, Clone, Copy, PartialEq, Eq, Structural)]
pub enum Type {
    Exchange,
    Foundation,
    Individual,
    NodeProvider,
    Sns,
    SnsParticipant,
    Spammer,
    Suspect,
    Unknown,
}

/// The name under which a kind is written out.
pub open spec fn kind_name(ty: Type) -> Seq<char> {
    match ty {
        Type::Exchange => "Exchange"@,
        Type::Foundation => "Foundation"@,
        Type::Individual => "Individual"@,
        Type::NodeProvider => "NodeProvider"@,
        Type::Sns => "Sns"@,
        Type::SnsParticipant => "SnsParticipant"@,
        Type::Spammer => "Spammer"@,
        Type::Suspect => "Suspect"@,
        Type::Unknown => "Unknown"@,
    }
}

impl Type {
    /// The kind's name, as it is written out.
    pub fn name(&self) -> (text: String)
        ensures
            text@ == kind_name(*self),
    {
        match self {
            Type::Exchange => "Exchange".to_owned(),
            Type::Foundation => "Foundation".to_owned(),
            Type::Individual => "Individual".to_owned(),
            Type::NodeProvider => "NodeProvider".to_owned(),
            Type::Sns => "Sns".to_owned(),
            Type::SnsParticipant => "SnsParticipant".to_owned(),
            Type::Spammer => "Spammer".to_owned(),
            Type::Suspect => "Suspect".to_owned(),
            Type::Unknown => "Unknown".to_owned(),
        }
    }
}

/// Why registry data could not be read. Each case carries the message of the
/// parser that refused the input.
#[derive(Debug, PartialEq, Eq)]
pub enum Error {
    Json(String),
    Principal(String),
}

/// What an error says of itself.
pub open spec fn error_message(e: Error) -> Seq<char> {
    match e {
        Error::Json(m) => "JSON parsing error: "@ + m@,
        Error::Principal(m) => "Principal error: "@ + m@,
    }
}

impl Error {
    /// The error as one line of text.
    pub fn message(&self) -> (text: String)
        ensures
            text@ == error_message(*self),
    {
        match self {
            Error::Json(m) => join_text("JSON parsing error: ", m.as_str()),
            Error::Principal(m) => join_text("Principal error: ", m.as_str()),
        }
    }
}

/// One entry of the registry. It names its account either by principal or by
/// account identifier text, never both.
#[derive(Debug, PartialEq, Eq)]
pub struct AccountData {
    name: String,
    principal: Option<Principal>,
    account: Option<String>,
    ty: Type,
}

/// What an entry holds, as plain values.
pub struct AccountDataView {
    pub name: Seq<char>,
    pub principal: Option<Seq<u8>>,
    pub account: Option<Seq<char>>,
    pub ty: Type,
}

/// An address with a dash is a principal's text; any other is taken for an
/// account identifier.
pub open spec fn names_principal(address: Seq<char>) -> bool {
    address.contains('-')
}

/// An address can be taken into the registry unless it claims to be a
/// principal and is not the text of one.
pub open spec fn address_readable(address: Seq<char>) -> bool {
    names_principal(address) ==> principal_text_bytes(address) is Some
}

/// The entry that a name, an address and a kind make.
pub open spec fn entry_of(name: Seq<char>, address: Seq<char>, ty: Type) -> AccountDataView {
    if names_principal(address) {
        AccountDataView { name, principal: principal_text_bytes(address), account: None, ty }
    } else {
        AccountDataView { name, principal: None, account: Some(address), ty }
    }
}

impl View for AccountData {
    type V = AccountDataView;

    closed spec fn view(&self) -> AccountDataView {
        AccountDataView {
            name: self.name@,
            principal: match self.principal {
                Some(p) => Some(p@),
                None => None,
            },
            account: match self.account {
                Some(a) => Some(a@),
                None => None,
            },
            ty: self.ty,
        }
    }
}

impl AccountData {
    #[verifier::type_invariant]
    spec fn one_reference(self) -> bool {
        self.principal is Some <==> self.account is None
    }

    /// Makes an entry from a name, an address and a kind. The address must be
    /// readable: see [`address_readable`]; [`AccountData::try_new`] tests it.
    pub fn new(name: &str, address: &str, ty: Type) -> (entry: AccountData)
        requires
            address_readable(address@),
        ensures
            entry@ == entry_of(name@, address@, ty),
    {
        if contains_char(address, '-') {
            match Principal::from_text(address) {
                Ok(p) => AccountData { name: name.to_owned(), principal: Some(p), account: None, ty },
                Err(_) => vstd::pervasive::unreached(),
            }
        } else {
            AccountData {
                name: name.to_owned(),
                principal: None,
                account: Some(address.to_owned()),
                ty,
            }
        }
    }

    /// Makes an entry, or says why the address is no principal's text.
    pub fn try_new(name: &str, address: &str, ty: Type) -> (r: Result<AccountData, Error>)
        ensures
            r is Ok <==> address_readable(address@),
            r matches Ok(entry) ==> entry@ == entry_of(name@, address@, ty),
            r matches Err(e) ==> e is Principal,
    {
        if contains_char(address, '-') {
            match Principal::from_text(address) {
                Ok(_) => Ok(AccountData::new(name, address, ty)),
                Err(message) => Err(Error::Principal(message)),
            }
        } else {
            Ok(AccountData::new(name, address, ty))
        }
    }

    /// The entry's display name.
    pub fn name(&self) -> (name: &str)
        ensures
            name@ == self@.name,
    {
        self.name.as_str()
    }

    /// The principal, where the entry names one.
    pub fn principal(&self) -> (p: Option<&Principal>)
        ensures
            p is Some <==> self@.principal is Some,
            p matches Some(q) ==> self@.principal == Some(q@),
            p is Some <==> self@.account is None,
    {
        proof {
            use_type_invariant(self);
        }
        self.principal.as_ref()
    }

    /// The account identifier text, where the entry names one.
    pub fn account(&self) -> (a: Option<&str>)
        ensures
            a is Some <==> self@.account is Some,
            a matches Some(t) ==> self@.account == Some(t@),
            a is Some <==> self@.principal is None,
    {
        proof {
            use_type_invariant(self);
        }
        match &self.account {
            Some(a) => Some(a.as_str()),
            None => None,
        }
    }

    /// Takes the entry apart: name, principal, account text and kind.
    pub fn into_parts(self) -> (parts: (String, Option<Principal>, Option<String>, Type))
        ensures
            parts.0@ == self@.name,
            parts.1 is Some <==> self@.principal is Some,
            parts.1 matches Some(p) ==> self@.principal == Some(p@),
            parts.2 is Some <==> self@.account is Some,
            parts.2 matches Some(a) ==> self@.account == Some(a@),
            parts.3 == self@.ty,
            parts.1 is Some <==> parts.2 is None,
    {
        proof {
            use_type_invariant(&self);
        }
        (self.name, self.principal, self.account, self.ty)
    }

    /// The entry's kind.
    pub fn ty(&self) -> (ty: Type)
        ensures
            ty == self@.ty,
    {
        self.ty
    }
}

/// The registry was refused: an account identifier or a principal is listed
/// twice. The case carries the repeated account text, or the text of the
/// repeated principal.
#[derive(Debug, PartialEq, Eq)]
pub enum DuplicateError {
    Account(String),
    Principal(String),
}

/// What a refusal says of itself.
pub open spec fn duplicate_message(e: DuplicateError) -> Seq<char> {
    match e {
        DuplicateError::Account(a) => "duplicate account found: "@ + a@,
        DuplicateError::Principal(p) => "duplicate principal found: "@ + p@,
    }
}

impl DuplicateError {
    /// The refusal as one line of text.
    pub fn message(&self) -> (text: String)
        ensures
            text@ == duplicate_message(*self),
    {
        match self {
            DuplicateError::Account(a) => join_text("duplicate account found: ", a.as_str()),
            DuplicateError::Principal(p) => join_text("duplicate principal found: ", p.as_str()),
        }
    }
}

/// The entries of a list, as plain values.
pub open spec fn entry_views(entries: Seq<AccountData>) -> Seq<AccountDataView> {
    Seq::new(entries.len(), |i: int| entries[i]@)
}

/// Entry `j` names an account identifier that an earlier entry names too.
pub open spec fn account_repeats(entries: Seq<AccountDataView>, j: int) -> bool {
    &&& entries[j].account is Some
    &&& exists|i: int| 0 <= i < j && #[trigger] entries[i].account == entries[j].account
}

/// Entry `j` names a principal that an earlier entry names too.
pub open spec fn principal_repeats(entries: Seq<AccountDataView>, j: int) -> bool {
    &&& entries[j].principal is Some
    &&& exists|i: int| 0 <= i < j && #[trigger] entries[i].principal == entries[j].principal
}

/// No account identifier and no principal is named by two entries.
pub open spec fn all_distinct(entries: Seq<AccountDataView>) -> bool {
    forall|j: int|
        0 <= j < entries.len() ==> !account_repeats(entries, j) && !principal_repeats(entries, j)
}

/// Two entries that name the same principal, or the same account identifier
/// text, are never both let through: a list that holds them is not distinct.
pub proof fn lemma_shared_reference_refused(entries: Seq<AccountDataView>, i: int, j: int)
    requires
        0 <= i < j < entries.len(),
        (entries[i].principal is Some && entries[i].principal == entries[j].principal) || (
        entries[i].account is Some && entries[i].account == entries[j].account),
    ensures
        !all_distinct(entries),
{
    if entries[i].account is Some && entries[i].account == entries[j].account {
        assert(account_repeats(entries, j));
    } else {
        assert(principal_repeats(entries, j));
    }
}

/// Whether an entry before `j` names the account text `text`.
fn account_seen_before(entries: &[AccountData], j: usize, text: &str) -> (seen: bool)
    requires
        j <= entries@.len(),
    ensures
        seen == exists|i: int|
            0 <= i < j && #[trigger] entry_views(entries@)[i].account == Some(text@),
{
    let mut i: usize = 0;
    while i < j
        invariant
            i <= j <= entries@.len(),
            forall|k: int| 0 <= k < i ==> #[trigger] entry_views(entries@)[k].account != Some(text@),
        decreases j - i,
    {
        match entries[i].account() {
            Some(other) => {
                if text_equal(other, text) {
                    assert(entry_views(entries@)[i as int].account == Some(text@));
                    return true;
                }
            },
            None => {},
        }
        i += 1;
    }
    false
}

/// Whether an entry before `j` names the principal `p`.
fn principal_seen_before(entries: &[AccountData], j: usize, p: &Principal) -> (seen: bool)
    requires
        j <= entries@.len(),
    ensures
        seen == exists|i: int|
            0 <= i < j && #[trigger] entry_views(entries@)[i].principal == Some(p@),
{
    let mut i: usize = 0;
    while i < j
        invariant
            i <= j <= entries@.len(),
            forall|k: int| 0 <= k < i ==> #[trigger] entry_views(entries@)[k].principal != Some(p@),
        decreases j - i,
    {
        match entries[i].principal() {
            Some(other) => {
                if other.same_as(p) {
                    assert(entry_views(entries@)[i as int].principal == Some(p@));
                    return true;
                }
            },
            None => {},
        }
        i += 1;
    }
    false
}

/// Goes through the registry in order and refuses it at the first entry that
/// names an account identifier or a principal already named before it. It
/// reads nothing but the list, so it can run before any query is made.
pub fn check_unique(entries: &[AccountData]) -> (r: Result<(), DuplicateError>)
    ensures
        r is Ok <==> all_distinct(entry_views(entries@)),
        r matches Err(e) ==> reports_first_repeat(entry_views(entries@), e),
{
    let ghost views = entry_views(entries@);
    let mut j: usize = 0;
    while j < entries.len()
        invariant
            j <= entries@.len(),
            views == entry_views(entries@),
            forall|k: int|
                0 <= k < j ==> !account_repeats(views, k) && !principal_repeats(views, k),
        decreases entries.len() - j,
    {
        match entries[j].account() {
            Some(text) => {
                if account_seen_before(entries, j, text) {
                    assert(account_repeats(views, j as int));
                    let e = DuplicateError::Account(text.to_owned());
                    assert(views[j as int].account == Some(text@));
                    return Err(e);
                }
            },
            None => {},
        }
        match entries[j].principal() {
            Some(p) => {
                if principal_seen_before(entries, j, p) {
                    assert(principal_repeats(views, j as int));
                    assert(!account_repeats(views, j as int));
                    let e = DuplicateError::Principal(p.to_text());
                    assert(names_principal_text(views[j as int], e->Principal_0@));
                    return Err(e);
                }
            },
            None => {},
        }
        j += 1;
    }
    Ok(())
}

/// The error names the first entry that repeats an earlier one: the account
/// text of that entry if its account is the repeat, else the text of its
/// principal.
pub open spec fn reports_first_repeat(entries: Seq<AccountDataView>, e: DuplicateError) -> bool {
    exists|j: int|
        {
            &&& 0 <= j < entries.len()
            &&& forall|k: int|
                0 <= k < j ==> !account_repeats(entries, k) && !principal_repeats(entries, k)
            &&& match e {
                DuplicateError::Account(a) => account_repeats(entries, j)
                    && (#[trigger] entries[j]).account == Some(a@),
                DuplicateError::Principal(p) => !account_repeats(entries, j) && principal_repeats(
                    entries,
                    j,
                ) && names_principal_text(#[trigger] entries[j], p@),
            }
        }
}

/// `text` is the text of the principal that `entry` names.
pub open spec fn names_principal_text(entry: AccountDataView, text: Seq<char>) -> bool {
    entry.principal matches Some(bytes) && text == principal_bytes_text(bytes)
}

/// One row of the registry as it is written down: a name, an address and a
/// kind.
#[derive(Debug, PartialEq, Eq)]
pub struct RegistryRow {
    pub name: String,
    pub address: String,
    pub ty: Type,
}

/// Why a registry was refused.
#[derive(Debug, PartialEq, Eq)]
pub enum RegistryError {
    /// A row's address claims to be a principal and is not the text of one.
    Address(Error),
    /// An account identifier or a principal is listed twice.
    Duplicate(DuplicateError),
}

/// The name given to a spammer's row: the first five characters of its
/// address.
pub fn spammer_row(address: &str) -> (row: RegistryRow)
    requires
        address@.len() >= 5,
    ensures
        row.name@ == address@.take(5),
        row.address@ == address@,
        row.ty == Type::Spammer,
{
    let name: String = address.substring_char(0, 5).to_owned();
    assert(address@.subrange(0, 5) =~= address@.take(5));
    RegistryRow { name, address: address.to_owned(), ty: Type::Spammer }
}

/// The entries that rows make, row by row.
pub open spec fn row_entries(rows: Seq<RegistryRow>) -> Seq<AccountDataView> {
    Seq::new(rows.len(), |i: int| entry_of(rows[i].name@, rows[i].address@, rows[i].ty))
}

/// Every row's address can be read.
pub open spec fn rows_readable(rows: Seq<RegistryRow>) -> bool {
    forall|i: int| 0 <= i < rows.len() ==> address_readable((#[trigger] rows[i]).address@)
}

/// Reads the registry: makes an entry of each row, in order, and then
/// checks that no account is listed twice. Nothing is returned unless every
/// row can be read and all entries are distinct.
pub fn get_entries(rows: &[RegistryRow]) -> (r: Result<Vec<AccountData>, RegistryError>)
    ensures
        r is Ok <==> rows_readable(rows@) && all_distinct(row_entries(rows@)),
        r matches Ok(entries) ==> entry_views(entries@) == row_entries(rows@),
        r matches Err(RegistryError::Address(_)) ==> !rows_readable(rows@),
        r matches Err(RegistryError::Duplicate(e)) ==> rows_readable(rows@)
            && reports_first_repeat(row_entries(rows@), e),
{
    let mut entries: Vec<AccountData> = Vec::new();
    let mut i: usize = 0;
    while i < rows.len()
        invariant
            i <= rows@.len(),
            entries@.len() == i,
            forall|k: int| 0 <= k < i ==> address_readable((#[trigger] rows@[k]).address@),
            forall|k: int|
                0 <= k < i ==> (#[trigger] entries@[k])@ == entry_of(
                    rows@[k].name@,
                    rows@[k].address@,
                    rows@[k].ty,
                ),
        decreases rows.len() - i,
    {
        let row: &RegistryRow = &rows[i];
        match AccountData::try_new(row.name.as_str(), row.address.as_str(), row.ty) {
            Ok(entry) => {
                entries.push(entry);
            },
            Err(e) => {
                assert(!address_readable(rows@[i as int].address@));
                return Err(RegistryError::Address(e));
            },
        }
        i += 1;
    }
    assert(entry_views(entries@) =~= row_entries(rows@));
    match check_unique(entries.as_slice()) {
        Ok(()) => Ok(entries),
        Err(e) => Err(RegistryError::Duplicate(e)),
    }
}

} // verus!
