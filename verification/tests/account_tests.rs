use np_tool::account::{
    canonical_account, has_matching_checksum, is_valid_account_id, prepend_checksum,
    principal_to_account_id, process_account_hex, verify_checksum,
};
use np_tool::hex_text::{decode, encode};
use np_tool::principal::{bytes_equal, Principal};

const MANAGEMENT_ACCOUNT: &str = "2d0e897f7e862d2b57d9bc9ea5c65f9a24ac6c074575f47898314b8d6cb0929d";
const ANONYMOUS_ACCOUNT: &str = "1c7a48ba6a562aa9eaa2481a9049cdf0433b9738c992d698c31d8abf89cadc79";
const GOVERNANCE_ACCOUNT: &str = "082ecf2e3f647ac600f43f38a68342fba5b8e68b085f02592b77f39808a8d2b5";

#[test]
fn management_principal_has_a_fixed_identifier() {
    let principal = Principal::from_text("aaaaa-aa").unwrap();
    assert_eq!(principal.as_slice().len(), 0);
    let id = principal_to_account_id(&principal, None);
    assert_eq!(encode(&id), MANAGEMENT_ACCOUNT);
}

#[test]
fn anonymous_principal_has_a_fixed_identifier() {
    let principal = Principal::from_text("2vxsx-fae").unwrap();
    assert_eq!(principal.as_slice(), &[4u8][..]);
    let id = principal_to_account_id(&principal, None);
    assert_eq!(encode(&id), ANONYMOUS_ACCOUNT);
}

#[test]
fn governance_canister_has_a_fixed_identifier() {
    let principal = Principal::from_text("rrkah-fqaaa-aaaaa-aaaaq-cai").unwrap();
    assert_eq!(principal.as_slice(), &[0u8, 0, 0, 0, 0, 0, 0, 1, 1, 1][..]);
    let id = principal_to_account_id(&principal, None);
    assert_eq!(encode(&id), GOVERNANCE_ACCOUNT);
}

#[test]
fn missing_subaccount_is_thirty_two_zero_bytes() {
    let principal = Principal::from_text("rrkah-fqaaa-aaaaa-aaaaq-cai").unwrap();
    let implicit = principal_to_account_id(&principal, None);
    let explicit = principal_to_account_id(&principal, Some([0u8; 32]));
    assert_eq!(implicit, explicit);
}

#[test]
fn subaccount_changes_the_identifier() {
    let principal = Principal::from_text("rrkah-fqaaa-aaaaa-aaaaq-cai").unwrap();
    let mut sub = [0u8; 32];
    sub[0] = 1;
    let id = principal_to_account_id(&principal, Some(sub));
    assert_eq!(
        encode(&id),
        "a59b17de60d88e5ae5a03e9b7d5fbb44b83d826f74115841bae5207c25b5add0"
    );
}

#[test]
fn derived_identifiers_are_valid() {
    let texts = ["aaaaa-aa", "2vxsx-fae", "rrkah-fqaaa-aaaaa-aaaaq-cai", "ryjl3-tyaaa-aaaaa-aaaba-cai"];
    for text in texts {
        let principal = Principal::from_text(text).unwrap();
        for first in [0u8, 1, 7, 255] {
            let mut sub = [0u8; 32];
            sub[31] = first;
            sub[0] = first;
            let id = principal_to_account_id(&principal, Some(sub));
            assert!(is_valid_account_id(&encode(&id)));
            assert!(has_matching_checksum(&id));
        }
        let id = principal_to_account_id(&principal, None);
        assert!(is_valid_account_id(&encode(&id)));
    }
}

#[test]
fn longest_principal_is_accepted() {
    let bytes = [0xABu8; 29];
    let principal = Principal::from_slice(&bytes).unwrap();
    let id = principal_to_account_id(&principal, None);
    assert!(is_valid_account_id(&encode(&id)));
    assert!(Principal::from_slice(&[0u8; 30]).is_none());
}

#[test]
fn changing_a_checksum_byte_is_detected() {
    let intact = decode(GOVERNANCE_ACCOUNT).unwrap();
    for k in 0..4 {
        for flip in [1u8, 0x10, 0x80, 0xFF] {
            let mut changed = intact.clone();
            changed[k] ^= flip;
            assert!(!is_valid_account_id(&encode(&changed)));
        }
    }
}

#[test]
fn changing_a_digest_byte_is_detected() {
    let intact = decode(GOVERNANCE_ACCOUNT).unwrap();
    let mut changed = intact.clone();
    changed[17] ^= 0x01;
    assert!(!is_valid_account_id(&encode(&changed)));
}

#[test]
fn wrong_lengths_are_invalid() {
    assert!(!is_valid_account_id(""));
    assert!(!is_valid_account_id("2d0e"));
    assert!(!is_valid_account_id(&MANAGEMENT_ACCOUNT[..63]));
    assert!(!is_valid_account_id(&MANAGEMENT_ACCOUNT[..62]));
    let longer = format!("{}0", MANAGEMENT_ACCOUNT);
    assert!(!is_valid_account_id(&longer));
    let longer = format!("{}00", MANAGEMENT_ACCOUNT);
    assert!(!is_valid_account_id(&longer));
}

#[test]
fn text_that_is_not_hex_is_invalid() {
    let with_letter = format!("g{}", &MANAGEMENT_ACCOUNT[1..]);
    assert_eq!(with_letter.len(), 64);
    assert!(!is_valid_account_id(&with_letter));
    let with_space = format!(" {}", &MANAGEMENT_ACCOUNT[1..]);
    assert!(!is_valid_account_id(&with_space));
    let sixty_four_dashes = "-".repeat(64);
    assert!(!is_valid_account_id(&sixty_four_dashes));
    let beyond_ascii = "é".repeat(32);
    assert_eq!(beyond_ascii.len(), 64);
    assert!(!is_valid_account_id(&beyond_ascii));
    let beyond_ascii_chars = "é".repeat(64);
    assert!(!is_valid_account_id(&beyond_ascii_chars));
}

#[test]
fn upper_case_identifier_is_valid() {
    let upper = MANAGEMENT_ACCOUNT.to_uppercase();
    assert!(is_valid_account_id(&upper));
    assert!(is_valid_account_id(MANAGEMENT_ACCOUNT));
}

#[test]
fn hex_text_round_trips() {
    assert_eq!(encode(&[0x00, 0x0f, 0x10, 0xab, 0xff]), "000f10abff");
    assert_eq!(encode(&[]), "");
    assert_eq!(decode("000f10abff").unwrap(), vec![0x00, 0x0f, 0x10, 0xab, 0xff]);
    assert_eq!(decode("000F10ABFF").unwrap(), vec![0x00, 0x0f, 0x10, 0xab, 0xff]);
    assert_eq!(decode("aBcD").unwrap(), vec![0xab, 0xcd]);
    assert_eq!(decode("").unwrap(), Vec::<u8>::new());
    assert!(decode("abc").is_none());
    assert!(decode("zz").is_none());
    assert!(decode("0x").is_none());
    assert!(decode("éé").is_none());
    for b in 0..=255u8 {
        let text = encode(&[b]);
        assert_eq!(text.len(), 2);
        assert_eq!(decode(&text).unwrap(), vec![b]);
        assert_eq!(decode(&text.to_uppercase()).unwrap(), vec![b]);
    }
}

#[test]
fn bytes_are_compared_by_content() {
    assert!(bytes_equal(&[1, 2, 3], &[1, 2, 3]));
    assert!(!bytes_equal(&[1, 2, 3], &[1, 2, 4]));
    assert!(!bytes_equal(&[1, 2, 3], &[1, 2]));
    assert!(bytes_equal(&[], &[]));
}

#[test]
fn checksum_failure_says_what_was_expected() {
    let good = decode(GOVERNANCE_ACCOUNT).unwrap();
    let mut bytes = [0u8; 32];
    bytes.copy_from_slice(&good);
    assert_eq!(verify_checksum(bytes), Ok(()));
    let mut bad = bytes;
    bad[0] ^= 0xFF;
    let e = verify_checksum(bad).unwrap_err();
    assert_eq!(e.input(), bad);
    assert_eq!(e.expected_checksum(), [bytes[0], bytes[1], bytes[2], bytes[3]]);
    assert_eq!(e.found_checksum(), [bad[0], bad[1], bad[2], bad[3]]);
    assert_eq!(e.expected_checksum(), [0x08, 0x2e, 0xcf, 0x2e]);
}

#[test]
fn checksum_of_other_lengths_never_matches() {
    let good = decode(GOVERNANCE_ACCOUNT).unwrap();
    assert!(has_matching_checksum(&good));
    assert!(!has_matching_checksum(&good[..31]));
    assert!(!has_matching_checksum(&good[4..]));
    assert!(!has_matching_checksum(&[]));
    let mut longer = good.clone();
    longer.push(0);
    assert!(!has_matching_checksum(&longer));
}

#[test]
fn checksum_is_put_in_front_of_a_digest() {
    let good = decode(GOVERNANCE_ACCOUNT).unwrap();
    let id = prepend_checksum(&good[4..]);
    assert_eq!(&id[..], &good[..]);
}

#[test]
fn canonical_form_of_decoded_bytes() {
    let good = decode(GOVERNANCE_ACCOUNT).unwrap();
    assert_eq!(canonical_account(&good).unwrap().to_vec(), good);
    assert_eq!(canonical_account(&good[4..]).unwrap().to_vec(), good);
    let mut bad = good.clone();
    bad[3] ^= 1;
    assert!(canonical_account(&bad).is_none());
    assert!(canonical_account(&good[..31]).is_none());
    assert!(canonical_account(&[]).is_none());
}

#[test]
fn account_hex_is_given_back_three_ways() {
    let (orig, formatted, link) = process_account_hex(GOVERNANCE_ACCOUNT);
    assert_eq!(orig.unwrap(), GOVERNANCE_ACCOUNT);
    assert_eq!(formatted.unwrap(), GOVERNANCE_ACCOUNT);
    assert_eq!(
        link.unwrap(),
        format!("https://dashboard.internetcomputer.org/account/{}", GOVERNANCE_ACCOUNT)
    );
}

#[test]
fn upper_case_account_hex_is_made_canonical() {
    let upper = GOVERNANCE_ACCOUNT.to_uppercase();
    let (orig, formatted, link) = process_account_hex(&upper);
    assert_eq!(orig.unwrap(), upper);
    assert_eq!(formatted.unwrap(), GOVERNANCE_ACCOUNT);
    assert!(link.unwrap().ends_with(GOVERNANCE_ACCOUNT));
}

#[test]
fn bare_digest_is_given_its_checksum() {
    let (orig, formatted, link) = process_account_hex(&GOVERNANCE_ACCOUNT[8..]);
    assert_eq!(orig.unwrap(), &GOVERNANCE_ACCOUNT[8..]);
    assert_eq!(formatted.unwrap(), GOVERNANCE_ACCOUNT);
    assert!(link.is_some());
}

#[test]
fn account_hex_that_is_no_identifier_is_only_given_back() {
    for text in ["", "xyz", "abcd", &GOVERNANCE_ACCOUNT[..62]] {
        let (orig, formatted, link) = process_account_hex(text);
        assert_eq!(orig.unwrap(), text);
        assert!(formatted.is_none());
        assert!(link.is_none());
    }
    let mut wrong = String::from("00000000");
    wrong.push_str(&GOVERNANCE_ACCOUNT[8..]);
    let (orig, formatted, link) = process_account_hex(&wrong);
    assert_eq!(orig.unwrap(), wrong);
    assert!(formatted.is_none());
    assert!(link.is_none());
}

#[test]
fn principal_text_round_trips() {
    for text in ["aaaaa-aa", "2vxsx-fae", "rrkah-fqaaa-aaaaa-aaaaq-cai", "ryjl3-tyaaa-aaaaa-aaaba-cai"] {
        let p = Principal::from_text(text).unwrap();
        assert_eq!(p.to_text(), text);
        let q = Principal::from_slice(p.as_slice()).unwrap();
        assert!(p.same_as(&q));
        assert!(p.clone().same_as(&p));
    }
    let a = Principal::from_text("aaaaa-aa").unwrap();
    let b = Principal::from_text("2vxsx-fae").unwrap();
    assert!(!a.same_as(&b));
}

#[test]
fn principal_text_that_is_wrong_is_refused() {
    assert!(Principal::from_text("").is_err());
    assert!(Principal::from_text("not a principal").is_err());
    assert!(Principal::from_text("rrkah-fqaaa-aaaaa-aaaaq-caj").is_err());
    assert!(Principal::from_text("rrkahfqaaaaaaaaaaaaaqcai").is_err());
    let message = Principal::from_text("rrkah-fqaaa-aaaaa-aaaaq-caj").unwrap_err();
    assert!(!message.is_empty());
}
