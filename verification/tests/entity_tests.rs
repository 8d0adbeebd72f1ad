use np_tool::entity::{
    check_unique, get_entries, spammer_row, AccountData, DuplicateError, Error, RegistryError,
    RegistryRow, Type,
};

const ACCOUNT_A: &str = "2d0e897f7e862d2b57d9bc9ea5c65f9a24ac6c074575f47898314b8d6cb0929d";
const ACCOUNT_B: &str = "1c7a48ba6a562aa9eaa2481a9049cdf0433b9738c992d698c31d8abf89cadc79";

fn row(name: &str, address: &str, ty: Type) -> RegistryRow {
    RegistryRow { name: name.to_string(), address: address.to_string(), ty }
}

#[test]
fn address_with_dash_is_a_principal() {
    let entry = AccountData::new("Governance", "rrkah-fqaaa-aaaaa-aaaaq-cai", Type::Foundation);
    assert_eq!(entry.name(), "Governance");
    assert_eq!(entry.ty(), Type::Foundation);
    assert!(entry.account().is_none());
    assert_eq!(entry.principal().unwrap().to_text(), "rrkah-fqaaa-aaaaa-aaaaq-cai");
}

#[test]
fn address_without_dash_is_an_account() {
    let entry = AccountData::new("Somebody", ACCOUNT_A, Type::Exchange);
    assert_eq!(entry.name(), "Somebody");
    assert_eq!(entry.ty(), Type::Exchange);
    assert!(entry.principal().is_none());
    assert_eq!(entry.account().unwrap(), ACCOUNT_A);
}

#[test]
fn account_text_is_taken_as_it_comes() {
    let entry = AccountData::try_new("Odd", "not hex at all", Type::Unknown).unwrap();
    assert_eq!(entry.account().unwrap(), "not hex at all");
    let entry = AccountData::try_new("Empty", "", Type::Unknown).unwrap();
    assert_eq!(entry.account().unwrap(), "");
}

#[test]
fn unreadable_principal_is_an_error() {
    let e = AccountData::try_new("Broken", "rrkah-fqaaa-aaaaa-aaaaq-caj", Type::Suspect).unwrap_err();
    assert!(matches!(e, Error::Principal(_)));
    assert!(e.message().starts_with("Principal error: "));
    assert!(e.message().len() > "Principal error: ".len());
    let e = AccountData::try_new("Dash", "-", Type::Suspect).unwrap_err();
    assert!(matches!(e, Error::Principal(_)));
}

#[test]
fn try_new_agrees_with_new() {
    let a = AccountData::try_new("G", "rrkah-fqaaa-aaaaa-aaaaq-cai", Type::Sns).unwrap();
    let b = AccountData::new("G", "rrkah-fqaaa-aaaaa-aaaaq-cai", Type::Sns);
    assert_eq!(a.name(), b.name());
    assert!(a.principal().unwrap().same_as(b.principal().unwrap()));
    assert_eq!(a.ty(), b.ty());
}

#[test]
fn entry_is_taken_apart() {
    let entry = AccountData::new("G", "rrkah-fqaaa-aaaaa-aaaaq-cai", Type::Sns);
    let (name, principal, account, ty) = entry.into_parts();
    assert_eq!(name, "G");
    assert_eq!(principal.unwrap().to_text(), "rrkah-fqaaa-aaaaa-aaaaq-cai");
    assert!(account.is_none());
    assert_eq!(ty, Type::Sns);
}

#[test]
fn kinds_have_names() {
    assert_eq!(Type::Exchange.name(), "Exchange");
    assert_eq!(Type::Foundation.name(), "Foundation");
    assert_eq!(Type::Individual.name(), "Individual");
    assert_eq!(Type::NodeProvider.name(), "NodeProvider");
    assert_eq!(Type::Sns.name(), "Sns");
    assert_eq!(Type::SnsParticipant.name(), "SnsParticipant");
    assert_eq!(Type::Spammer.name(), "Spammer");
    assert_eq!(Type::Suspect.name(), "Suspect");
    assert_eq!(Type::Unknown.name(), "Unknown");
    for ty in [Type::Exchange, Type::NodeProvider, Type::Unknown] {
        assert_eq!(ty.name(), format!("{:?}", ty));
    }
}

#[test]
fn error_messages() {
    assert_eq!(Error::Json("bad".to_string()).message(), "JSON parsing error: bad");
    assert_eq!(Error::Principal("worse".to_string()).message(), "Principal error: worse");
    assert_eq!(
        DuplicateError::Account("abc".to_string()).message(),
        "duplicate account found: abc"
    );
    assert_eq!(
        DuplicateError::Principal("aaaaa-aa".to_string()).message(),
        "duplicate principal found: aaaaa-aa"
    );
}

#[test]
fn distinct_entries_pass_the_guard() {
    let entries = vec![
        AccountData::new("a", "aaaaa-aa", Type::Foundation),
        AccountData::new("b", "2vxsx-fae", Type::Individual),
        AccountData::new("c", ACCOUNT_A, Type::Exchange),
        AccountData::new("d", ACCOUNT_B, Type::Exchange),
    ];
    assert_eq!(check_unique(&entries), Ok(()));
    assert_eq!(check_unique(&[]), Ok(()));
}

#[test]
fn repeated_principal_is_refused() {
    let entries = vec![
        AccountData::new("a", "aaaaa-aa", Type::Foundation),
        AccountData::new("b", "2vxsx-fae", Type::Individual),
        AccountData::new("c", "aaaaa-aa", Type::Suspect),
    ];
    assert_eq!(
        check_unique(&entries),
        Err(DuplicateError::Principal("aaaaa-aa".to_string()))
    );
}

#[test]
fn repeated_account_is_refused() {
    let entries = vec![
        AccountData::new("a", ACCOUNT_A, Type::Exchange),
        AccountData::new("b", ACCOUNT_B, Type::Exchange),
        AccountData::new("c", ACCOUNT_B, Type::Exchange),
        AccountData::new("d", ACCOUNT_A, Type::Exchange),
    ];
    assert_eq!(
        check_unique(&entries),
        Err(DuplicateError::Account(ACCOUNT_B.to_string()))
    );
}

#[test]
fn first_repeat_is_the_one_reported() {
    let entries = vec![
        AccountData::new("a", "aaaaa-aa", Type::Foundation),
        AccountData::new("b", ACCOUNT_A, Type::Exchange),
        AccountData::new("c", "aaaaa-aa", Type::Foundation),
        AccountData::new("d", ACCOUNT_A, Type::Exchange),
    ];
    assert_eq!(
        check_unique(&entries),
        Err(DuplicateError::Principal("aaaaa-aa".to_string()))
    );
}

#[test]
fn account_text_is_compared_as_written() {
    let upper = ACCOUNT_A.to_uppercase();
    let entries = vec![
        AccountData::new("a", ACCOUNT_A, Type::Exchange),
        AccountData::new("b", &upper, Type::Exchange),
    ];
    assert_eq!(check_unique(&entries), Ok(()));
}

#[test]
fn registry_is_read_row_by_row() {
    let rows = vec![
        row("Exchange One", ACCOUNT_A, Type::Exchange),
        row("Governance", "rrkah-fqaaa-aaaaa-aaaaq-cai", Type::Foundation),
        spammer_row("2vxsx-fae"),
    ];
    let entries = get_entries(&rows).unwrap();
    assert_eq!(entries.len(), 3);
    assert_eq!(entries[0].name(), "Exchange One");
    assert_eq!(entries[0].account().unwrap(), ACCOUNT_A);
    assert_eq!(entries[1].principal().unwrap().to_text(), "rrkah-fqaaa-aaaaa-aaaaq-cai");
    assert_eq!(entries[2].name(), "2vxsx");
    assert_eq!(entries[2].ty(), Type::Spammer);
}

#[test]
fn registry_with_a_duplicate_is_refused() {
    let rows = vec![
        row("One", "aaaaa-aa", Type::Foundation),
        row("Two", "aaaaa-aa", Type::Individual),
    ];
    assert_eq!(
        get_entries(&rows),
        Err(RegistryError::Duplicate(DuplicateError::Principal("aaaaa-aa".to_string())))
    );
}

#[test]
fn registry_with_a_broken_principal_is_refused() {
    let rows = vec![
        row("One", "aaaaa-aa", Type::Foundation),
        row("Two", "aaaaa-ab", Type::Individual),
        row("Three", "aaaaa-aa", Type::Individual),
    ];
    assert!(matches!(get_entries(&rows), Err(RegistryError::Address(Error::Principal(_)))));
}

#[test]
fn spammer_is_named_by_its_address() {
    let r = spammer_row(ACCOUNT_A);
    assert_eq!(r.name, "2d0e8");
    assert_eq!(r.address, ACCOUNT_A);
    assert_eq!(r.ty, Type::Spammer);
    let r = spammer_row("abcde");
    assert_eq!(r.name, "abcde");
}
