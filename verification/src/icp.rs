//! The ledger's public API: where mint transactions are asked for, what
//! comes back, and what the transactions add up to.

use vstd::prelude::*;
use crate::text::{chars_of, join_text, text_equal};

verus! {

/// Why transactions could not be had. Each case carries a message: that of
/// the failed request, that of the JSON parser, or one of this library.
#[derive(Debug, PartialEq, Eq)]
pub enum FetchError {
    Request(String),
    Parse(String),
    Other(String),
}

/// What an error says of itself.
pub open spec fn fetch_error_message(e: FetchError) -> Seq<char> {
    match e {
        FetchError::Request(m) => "Request error: "@ + m@,
        FetchError::Parse(m) => "JSON parsing error: "@ + m@,
        FetchError::Other(m) => "Error: "@ + m@,
    }
}

impl FetchError {
    /// The error as one line of text.
    pub fn message(&self) -> (text: String)
        ensures
            text@ == fetch_error_message(*self),
    {
        match self {
            FetchError::Request(m) => join_text("Request error: ", m.as_str()),
            FetchError::Parse(m) => join_text("JSON parsing error: ", m.as_str()),
            FetchError::Other(m) => join_text("Error: ", m.as_str()),
        }
    }
}

/// One transaction as the ledger API lists it.
#[derive(Debug, PartialEq, Eq)]
pub struct LedgerTransaction {
    pub block_height: String,
    pub transaction_hash: String,
    pub from_account_identifier: Option<String>,
    pub to_account_identifier: String,
    pub transfer_type: String,
    pub amount: String,
    pub fee: String,
    pub memo: String,
    pub created_at: u64,
}

/// The ledger API's answer.
#[derive(Debug, PartialEq, Eq)]
pub struct ApiResponse {
    pub total: u32,
    pub blocks: Vec<LedgerTransaction>,
}

/// What the mint transactions of an account add up to.
#[derive(Debug, PartialEq, Eq)]
pub struct RewardSummary {
    pub total_transactions: usize,
    pub total_e8s: u128,
    pub first_transaction_timestamp: Option<u64>,
    pub last_transaction_timestamp: Option<u64>,
}

/// The address of the ledger API.
pub open spec fn ledger_api_url() -> Seq<char> {
    "https://ledger-api.internetcomputer.org"@
}

/// The address that lists the mint transactions of an account.
pub open spec fn mint_url(account_id: Seq<char>) -> Seq<char> {
    ledger_api_url() + "/accounts/"@ + account_id
        + "/transactions?limit=1000&offset=0&transfer_type=mint"@
}

/// The address to ask for the mint transactions of `account_id`.
pub fn mint_transactions_url(account_id: &str) -> (url: String)
    ensures
        url@ == mint_url(account_id@),
{
    let mut url: String = "https://ledger-api.internetcomputer.org".to_owned();
    url.append("/accounts/");
    url.append(account_id);
    url.append("/transactions?limit=1000&offset=0&transfer_type=mint");
    url
}

/// A status code from 200 to 299 is a success.
pub open spec fn is_success(status: u16) -> bool {
    200 <= status <= 299
}

/// Judges the status of an answer: any status that is no success is an
/// error that quotes the status as the server worded it.
pub fn check_status(status: u16, status_text: &str) -> (r: Result<(), FetchError>)
    ensures
        r is Ok <==> is_success(status),
        r matches Err(e) ==> e matches FetchError::Other(m) && m@ == "API returned status code: "@
            + status_text@,
{
    if 200 <= status && status <= 299 {
        Ok(())
    } else {
        Err(FetchError::Other(join_text("API returned status code: ", status_text)))
    }
}

/// Whether `c` is one of `0` to `9`.
pub open spec fn is_digit(c: char) -> bool {
    '0' <= c && c <= '9'
}

/// The number that a run of decimal digits spells.
pub open spec fn digits_value(digits: Seq<char>) -> nat
    decreases digits.len(),
{
    if digits.len() == 0 {
        0
    } else {
        (digits_value(digits.drop_last()) * 10 + (digits.last() as u32 - '0' as u32)) as nat
    }
}

/// The digits of an amount's text: all of it, but for one leading `+`.
pub open spec fn amount_digits(text: Seq<char>) -> Seq<char> {
    if text.len() > 0 && text[0] == '+' {
        text.skip(1)
    } else {
        text
    }
}

/// The amount that a text spells: an optional `+`, then one or more decimal
/// digits, worth no more than `u64::MAX`. Any other text spells none.
pub open spec fn parsed_amount(text: Seq<char>) -> Option<u64> {
    let digits = amount_digits(text);
    if digits.len() > 0 && (forall|i: int| 0 <= i < digits.len() ==> is_digit(#[trigger] digits[i]))
        && digits_value(digits) <= u64::MAX {
        Some(digits_value(digits) as u64)
    } else {
        None
    }
}

/// A run of digits is worth at least as much as any of its beginnings.
pub proof fn lemma_digits_value_grows(digits: Seq<char>, n: int)
    requires
        0 <= n <= digits.len(),
        forall|i: int| 0 <= i < digits.len() ==> is_digit(#[trigger] digits[i]),
    ensures
        digits_value(digits.take(n)) <= digits_value(digits),
    decreases digits.len() - n,
{
    if n == digits.len() {
        assert(digits.take(n) =~= digits);
    } else {
        lemma_digits_value_grows(digits, n + 1);
        assert(digits.take(n + 1).drop_last() =~= digits.take(n));
        assert(is_digit(digits[n]));
        assert(digits.take(n + 1).last() == digits[n]);
    }
}

/// Reads an amount from decimal text; see [`parsed_amount`].
pub fn parse_amount(text: &str) -> (amount: Option<u64>)
    ensures
        amount == parsed_amount(text@),
{
    let chars: Vec<char> = chars_of(text);
    let start: usize = if chars.len() > 0 && chars[0] == '+' {
        1
    } else {
        0
    };
    let ghost digits = amount_digits(text@);
    assert(digits =~= chars@.skip(start as int));
    if start == chars.len() {
        return None;
    }
    let mut value: u64 = 0;
    let mut i: usize = start;
    assert(digits.take(0) =~= Seq::<char>::empty());
    while i < chars.len()
        invariant
            start <= i <= chars@.len(),
            start < chars@.len(),
            digits == chars@.skip(start as int),
            digits == amount_digits(text@),
            forall|k: int| 0 <= k < i - start ==> is_digit(#[trigger] digits[k]),
            value == digits_value(digits.take(i - start)),
        decreases chars.len() - i,
    {
        let c: char = chars[i];
        assert(digits[i - start] == c);
        if !('0' <= c && c <= '9') {
            assert(!is_digit(digits[i - start]));
            return None;
        }
        let d: u64 = (c as u32 - '0' as u32) as u64;
        proof {
            assert(digits.take(i - start + 1).drop_last() =~= digits.take(i - start));
            assert(digits.take(i - start + 1).last() == c);
            assert(digits_value(digits.take(i - start + 1)) == value * 10 + d);
        }
        if value > (u64::MAX - d) / 10 {
            proof {
                assert(value * 10 + d > u64::MAX);
                if forall|k: int| 0 <= k < digits.len() ==> is_digit(#[trigger] digits[k]) {
                    lemma_digits_value_grows(digits, i - start + 1);
                }
            }
            return None;
        }
        value = value * 10 + d;
        i += 1;
    }
    assert(digits.take(digits.len() as int) =~= digits);
    Some(value)
}

/// Whether a transaction is a mint.
pub open spec fn is_mint(tx: LedgerTransaction) -> bool {
    tx.transfer_type@ == "mint"@
}

/// What a transaction adds to the total: its amount if it is a mint whose
/// amount can be read, else nothing.
pub open spec fn minted_amount(tx: LedgerTransaction) -> nat {
    if is_mint(tx) {
        match parsed_amount(tx.amount@) {
            Some(amount) => amount as nat,
            None => 0,
        }
    } else {
        0
    }
}

/// The total of the first `n` transactions.
pub open spec fn minted_total(blocks: Seq<LedgerTransaction>, n: int) -> nat
    decreases n,
{
    if n <= 0 {
        0
    } else {
        minted_total(blocks, n - 1) + minted_amount(blocks[n - 1])
    }
}

/// `t` is the earliest time of a mint among `blocks`.
pub open spec fn is_first_mint(blocks: Seq<LedgerTransaction>, t: u64) -> bool {
    &&& exists|i: int| 0 <= i < blocks.len() && is_mint(#[trigger] blocks[i]) && blocks[i].created_at == t
    &&& forall|i: int| 0 <= i < blocks.len() && is_mint(#[trigger] blocks[i]) ==> t <= blocks[i].created_at
}

/// `t` is the latest time of a mint among `blocks`.
pub open spec fn is_last_mint(blocks: Seq<LedgerTransaction>, t: u64) -> bool {
    &&& exists|i: int| 0 <= i < blocks.len() && is_mint(#[trigger] blocks[i]) && blocks[i].created_at == t
    &&& forall|i: int| 0 <= i < blocks.len() && is_mint(#[trigger] blocks[i]) ==> blocks[i].created_at <= t
}

/// Whether some transaction is a mint.
pub open spec fn has_mint(blocks: Seq<LedgerTransaction>) -> bool {
    exists|i: int| 0 <= i < blocks.len() && is_mint(#[trigger] blocks[i])
}

/// Sums up the mint transactions of an answer: how many transactions it lists
/// in all, the total minted, and the times of the earliest and latest mint.
/// A mint whose amount cannot be read counts for the times and adds nothing.
pub fn calculate_rewards(transactions: &ApiResponse) -> (summary: RewardSummary)
    ensures
        summary.total_transactions == transactions.blocks@.len(),
        summary.total_e8s == minted_total(transactions.blocks@, transactions.blocks@.len() as int),
        summary.first_transaction_timestamp is Some <==> has_mint(transactions.blocks@),
        summary.last_transaction_timestamp is Some <==> has_mint(transactions.blocks@),
        summary.first_transaction_timestamp matches Some(t) ==> is_first_mint(
            transactions.blocks@,
            t,
        ),
        summary.last_transaction_timestamp matches Some(t) ==> is_last_mint(
            transactions.blocks@,
            t,
        ),
{
    let mut total_e8s: u128 = 0;
    let mut first_timestamp: Option<u64> = None;
    let mut last_timestamp: Option<u64> = None;
    let ghost blocks = transactions.blocks@;
    let mut i: usize = 0;
    while i < transactions.blocks.len()
        invariant
            i <= blocks.len(),
            blocks == transactions.blocks@,
            total_e8s == minted_total(blocks, i as int),
            total_e8s <= i * u64::MAX,
            first_timestamp is Some <==> has_mint(blocks.take(i as int)),
            last_timestamp is Some <==> has_mint(blocks.take(i as int)),
            first_timestamp matches Some(t) ==> is_first_mint(blocks.take(i as int), t),
            last_timestamp matches Some(t) ==> is_last_mint(blocks.take(i as int), t),
        decreases transactions.blocks.len() - i,
    {
        let tx: &LedgerTransaction = &transactions.blocks[i];
        let ghost before = blocks.take(i as int);
        let ghost after = blocks.take(i + 1);
        proof {
            assert(after.len() == i + 1);
            assert(after[i as int] == blocks[i as int]);
            assert forall|k: int| 0 <= k < i implies after[k] == before[k] by {}
            assert((i + 1) * u64::MAX == i * u64::MAX + u64::MAX) by (nonlinear_arith);
            assert(i * u64::MAX + u64::MAX <= usize::MAX * u64::MAX + u64::MAX) by (nonlinear_arith)
                requires
                    i <= usize::MAX,
            ;
            assert(usize::MAX * u64::MAX + u64::MAX <= u128::MAX) by (nonlinear_arith)
                requires
                    usize::MAX <= u64::MAX,
                    u64::MAX == 0xFFFF_FFFF_FFFF_FFFF,
                    u128::MAX == 0xFFFF_FFFF_FFFF_FFFF_FFFF_FFFF_FFFF_FFFF,
            ;
        }
        if text_equal(tx.transfer_type.as_str(), "mint") {
            match parse_amount(tx.amount.as_str()) {
                Some(amount) => {
                    total_e8s = total_e8s + amount as u128;
                },
                None => {},
            }
            let t: u64 = tx.created_at;
            first_timestamp = match first_timestamp {
                Some(first) => if t < first {
                    Some(t)
                } else {
                    Some(first)
                },
                None => Some(t),
            };
            last_timestamp = match last_timestamp {
                Some(last) => if t > last {
                    Some(t)
                } else {
                    Some(last)
                },
                None => Some(t),
            };
            proof {
                assert(is_mint(after[i as int]));
                if has_mint(before) {
                    let w = choose|w: int| 0 <= w < before.len() && is_mint(#[trigger] before[w]);
                    assert(is_mint(after[w]));
                }
                let f = first_timestamp->0;
                let l = last_timestamp->0;
                assert(exists|k: int|
                    0 <= k < after.len() && is_mint(#[trigger] after[k]) && after[k].created_at
                        == f) by {
                    if f == t {
                        assert(is_mint(after[i as int]) && after[i as int].created_at == f);
                    } else {
                        let w = choose|w: int|
                            0 <= w < before.len() && is_mint(#[trigger] before[w])
                                && before[w].created_at == f;
                        assert(is_mint(after[w]) && after[w].created_at == f);
                    }
                }
                assert(exists|k: int|
                    0 <= k < after.len() && is_mint(#[trigger] after[k]) && after[k].created_at
                        == l) by {
                    if l == t {
                        assert(is_mint(after[i as int]) && after[i as int].created_at == l);
                    } else {
                        let w = choose|w: int|
                            0 <= w < before.len() && is_mint(#[trigger] before[w])
                                && before[w].created_at == l;
                        assert(is_mint(after[w]) && after[w].created_at == l);
                    }
                }
                assert forall|k: int| 0 <= k < after.len() && is_mint(#[trigger] after[k]) implies f
                    <= after[k].created_at <= l by {
                    if k < i {
                        assert(is_mint(before[k]));
                    }
                }
            }
        } else {
            proof {
                assert(!is_mint(after[i as int]));
                if has_mint(before) {
                    let w = choose|w: int| 0 <= w < before.len() && is_mint(#[trigger] before[w]);
                    assert(is_mint(after[w]));
                }
                if has_mint(after) {
                    let w = choose|w: int| 0 <= w < after.len() && is_mint(#[trigger] after[w]);
                    assert(is_mint(before[w]));
                }
                if first_timestamp is Some {
                    let f = first_timestamp->0;
                    let w = choose|w: int|
                        0 <= w < before.len() && is_mint(#[trigger] before[w])
                            && before[w].created_at == f;
                    assert(is_mint(after[w]) && after[w].created_at == f);
                    assert forall|k: int|
                        0 <= k < after.len() && is_mint(#[trigger] after[k]) implies f
                        <= after[k].created_at by {
                        assert(is_mint(before[k]));
                    }
                }
                if last_timestamp is Some {
                    let l = last_timestamp->0;
                    let w = choose|w: int|
                        0 <= w < before.len() && is_mint(#[trigger] before[w])
                            && before[w].created_at == l;
                    assert(is_mint(after[w]) && after[w].created_at == l);
                    assert forall|k: int|
                        0 <= k < after.len() && is_mint(#[trigger] after[k]) implies after[k].created_at
                        <= l by {
                        assert(is_mint(before[k]));
                    }
                }
            }
        }
        i += 1;
    }
    assert(blocks.take(blocks.len() as int) =~= blocks);
    RewardSummary {
        total_transactions: transactions.blocks.len(),
        total_e8s,
        first_transaction_timestamp: first_timestamp,
        last_transaction_timestamp: last_timestamp,
    }
}

} // verus!
