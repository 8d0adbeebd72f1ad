//! Transactions of an account as the ledger's index reports them, and the
//! steps by which the transactions of one registry entry are gathered.

use vstd::prelude::*;
use crate::account::{
    account_id_bytes, default_subaccount, is_valid_account_id, principal_to_account_id,
    valid_account_text,
};
use crate::entity::{kind_name, AccountData, AccountDataView, Type};
use crate::hex_text::{encode, encoded_text};
use crate::principal::{principal_bytes_text, Principal};
use crate::rewards::{
    alternate_accounts, encoded_rows, get_accounts_from_rewards, response_entries, text_rows,
    ListNodeProviderRewardsResponse,
};

verus! {

/// An account in the ledger's newer form: an owner and a subaccount.
#[derive(Debug, PartialEq, Eq)]
pub struct Account {
    pub owner: Principal,
    pub subaccount: Option<Vec<u8>>,
}

/// What is asked of the index: up to `max_results` transactions of an
/// account, from `start` backwards.
#[derive(Debug, PartialEq, Eq)]
pub struct GetAccountTransactionsArgs {
    pub max_results: u64,
    pub start: Option<u64>,
    pub account_identifier: String,
}

#[derive(Debug, PartialEq, Eq)]
pub struct Tokens {
    pub e8s: u64,
}

#[derive(Debug, PartialEq, Eq)]
pub struct TimeStamp {
    pub timestamp_nanos: u64,
}

/// What a transaction did.
#[allow(inconsistent_fields)]
#[derive(Debug, PartialEq, Eq)]
pub enum Operation {
    Approve {
        fee: Tokens,
        from: String,
        allowance: Tokens,
        expected_allowance: Option<Tokens>,
        expires_at: Option<TimeStamp>,
        spender: String,
    },
    Burn { from: String, amount: Tokens, spender: Option<String> },
    Mint { to: String, amount: Tokens },
    Transfer { to: String, fee: Tokens, from: String, amount: Tokens, spender: Option<String> },
}

#[derive(Debug, PartialEq, Eq)]
pub struct Transaction {
    pub memo: u64,
    pub icrc1_memo: Option<Vec<u8>>,
    pub operation: Operation,
    pub timestamp: Option<TimeStamp>,
    pub created_at_time: Option<TimeStamp>,
}

#[derive(Debug, PartialEq, Eq)]
pub struct TransactionWithId {
    pub id: u64,
    pub transaction: Transaction,
}

/// The index's answer: the account's balance and its transactions.
#[derive(Debug, PartialEq, Eq)]
pub struct GetAccountIdentifierTransactionsResponse {
    pub balance: u64,
    pub transactions: Vec<TransactionWithId>,
    pub oldest_tx_id: Option<u64>,
}

/// The index's refusal.
#[derive(Debug, PartialEq, Eq)]
pub struct GetAccountIdentifierTransactionsError {
    pub message: String,
}

/// What the index sends back: an answer or a refusal.
#[derive(Debug, PartialEq, Eq)]
pub enum GetAccountIdentifierTransactionsResult {
    Answered(GetAccountIdentifierTransactionsResponse),
    Refused(GetAccountIdentifierTransactionsError),
}

/// Everything gathered for one registry entry.
#[derive(Debug, PartialEq, Eq)]
pub struct AccountTransactionsJson {
    pub name: String,
    pub principal: Option<String>,
    pub account: Option<String>,
    pub ty: String,
    pub extra_accounts: Vec<String>,
    pub transactions: Vec<TransactionWithId>,
    pub balance: u64,
    pub oldest_tx_id: Option<u64>,
}

/// The most transactions asked for in one query.
pub const MAX_RESULTS: u64 = 10000;

/// The query for the transactions of one account: the newest ten thousand.
pub fn transactions_request(account_identifier: &str) -> (args: GetAccountTransactionsArgs)
    ensures
        args.max_results == MAX_RESULTS,
        args.start is None,
        args.account_identifier@ == account_identifier@,
{
    GetAccountTransactionsArgs {
        max_results: MAX_RESULTS,
        start: None,
        account_identifier: account_identifier.to_owned(),
    }
}

/// The account identifier text under which an entry's transactions are
/// looked up: the one derived from its principal, with no subaccount, or
/// else the text it carries.
pub open spec fn resolved_identifier(entry: AccountDataView) -> Seq<char> {
    match entry.principal {
        Some(p) => encoded_text(account_id_bytes(p, default_subaccount())),
        None => match entry.account {
            Some(a) => a,
            None => Seq::empty(),
        },
    }
}

/// Works out the account identifier text of an entry.
pub fn resolve_account_identifier(entry: &AccountData) -> (text: String)
    ensures
        text@ == resolved_identifier(entry@),
        entry@.principal is Some ==> valid_account_text(text@),
{
    match entry.principal() {
        Some(p) => {
            let id: [u8; 32] = principal_to_account_id(p, None);
            encode(id.as_slice())
        },
        None => match entry.account() {
            Some(a) => a.to_owned(),
            None => String::new(),
        },
    }
}

/// What a collector is waiting for.
#[derive(Debug, Clone, Copy, PartialEq, Eq, Structural)]
pub enum Phase {
    /// The transactions of the entry's own account.
    AwaitingTransactions,
    /// The rewards that the governance service lists.
    AwaitingRewards,
    /// The transactions of the alternate account at this position.
    AwaitingExtra(usize),
}

/// The state of gathering one entry's transactions: the entry, the account
/// it resolved to, and what has come in so far.
#[derive(Debug, PartialEq, Eq)]
pub struct Collector {
    pub name: String,
    pub principal: Option<Principal>,
    pub ty: Type,
    pub account_identifier: String,
    pub phase: Phase,
    pub balance: u64,
    pub oldest_tx_id: Option<u64>,
    pub transactions: Vec<TransactionWithId>,
    pub extra_accounts: Vec<String>,
}

/// A [`Collector`] as plain values.
pub struct CollectorView {
    pub name: Seq<char>,
    pub principal: Option<Seq<u8>>,
    pub ty: Type,
    pub account_identifier: Seq<char>,
    pub phase: Phase,
    pub balance: u64,
    pub oldest_tx_id: Option<u64>,
    pub transactions: Seq<TransactionWithId>,
    pub extra_accounts: Seq<Seq<char>>,
}

impl View for Collector {
    type V = CollectorView;

    open spec fn view(&self) -> CollectorView {
        CollectorView {
            name: self.name@,
            principal: match self.principal {
                Some(p) => Some(p@),
                None => None,
            },
            ty: self.ty,
            account_identifier: self.account_identifier@,
            phase: self.phase,
            balance: self.balance,
            oldest_tx_id: self.oldest_tx_id,
            transactions: self.transactions@,
            extra_accounts: text_rows(self.extra_accounts@),
        }
    }
}

/// An [`AccountTransactionsJson`] as plain values.
pub struct AccountTransactionsView {
    pub name: Seq<char>,
    pub principal: Option<Seq<char>>,
    pub account: Option<Seq<char>>,
    pub ty: Seq<char>,
    pub extra_accounts: Seq<Seq<char>>,
    pub transactions: Seq<TransactionWithId>,
    pub balance: u64,
    pub oldest_tx_id: Option<u64>,
}

impl View for AccountTransactionsJson {
    type V = AccountTransactionsView;

    open spec fn view(&self) -> AccountTransactionsView {
        AccountTransactionsView {
            name: self.name@,
            principal: match self.principal {
                Some(p) => Some(p@),
                None => None,
            },
            account: match self.account {
                Some(a) => Some(a@),
                None => None,
            },
            ty: self.ty@,
            extra_accounts: text_rows(self.extra_accounts@),
            transactions: self.transactions@,
            balance: self.balance,
            oldest_tx_id: self.oldest_tx_id,
        }
    }
}

/// What a collector asks its caller to fetch.
#[derive(Debug, PartialEq, Eq)]
pub enum Query {
    Transactions(GetAccountTransactionsArgs),
    Rewards,
}

/// A [`Query`] as plain values: the account asked about, or the rewards.
pub enum QueryView {
    Transactions(Seq<char>),
    Rewards,
}

/// What came back from a query, or that it failed on the way.
#[derive(Debug, PartialEq, Eq)]
pub enum CollectorEvent {
    Transactions(GetAccountIdentifierTransactionsResult),
    Rewards(ListNodeProviderRewardsResponse),
    Failed(String),
}

/// How gathering goes on: with a query, with the finished record, or with
/// the reason why this entry is given up.
#[derive(Debug, PartialEq, Eq)]
pub enum CollectorStep {
    Continue(Collector, Query),
    Finish(AccountTransactionsJson),
    Fail(String),
}

/// A [`CollectorStep`] as plain values.
pub enum StepView {
    Continue(CollectorView, QueryView),
    Finish(AccountTransactionsView),
    Fail(Seq<char>),
}

/// The plain values of a query. Every query for transactions asks for the
/// newest ten thousand, which is part of [`query_well_formed`].
pub open spec fn query_view(q: Query) -> QueryView {
    match q {
        Query::Transactions(args) => QueryView::Transactions(args.account_identifier@),
        Query::Rewards => QueryView::Rewards,
    }
}

/// A query for transactions asks for the newest ten thousand.
pub open spec fn query_well_formed(q: Query) -> bool {
    match q {
        Query::Transactions(args) => args.max_results == MAX_RESULTS && args.start is None,
        Query::Rewards => true,
    }
}

/// The plain values of a step.
pub open spec fn step_view(step: CollectorStep) -> StepView {
    match step {
        CollectorStep::Continue(c, q) => StepView::Continue(c@, query_view(q)),
        CollectorStep::Finish(record) => StepView::Finish(record@),
        CollectorStep::Fail(reason) => StepView::Fail(reason@),
    }
}

/// The record that a state amounts to.
pub open spec fn record_of(s: CollectorView) -> AccountTransactionsView {
    AccountTransactionsView {
        name: s.name,
        principal: match s.principal {
            Some(p) => Some(principal_bytes_text(p)),
            None => None,
        },
        account: Some(s.account_identifier),
        ty: kind_name(s.ty),
        extra_accounts: s.extra_accounts,
        transactions: s.transactions,
        balance: s.balance,
        oldest_tx_id: s.oldest_tx_id,
    }
}

/// The first step for an entry: its account identifier is resolved and
/// checked; a valid one is asked about, an invalid one ends the entry.
pub open spec fn first_step(entry: AccountDataView) -> StepView {
    let id = resolved_identifier(entry);
    if valid_account_text(id) {
        StepView::Continue(
            CollectorView {
                name: entry.name,
                principal: entry.principal,
                ty: entry.ty,
                account_identifier: id,
                phase: Phase::AwaitingTransactions,
                balance: 0,
                oldest_tx_id: None,
                transactions: Seq::empty(),
                extra_accounts: Seq::empty(),
            },
            QueryView::Transactions(id),
        )
    } else {
        StepView::Fail("Invalid account ID"@)
    }
}

/// The alternate accounts that the rewards show for a state's principal;
/// none where the entry has no principal.
pub open spec fn extras_of(
    s: CollectorView,
    rewards: ListNodeProviderRewardsResponse,
) -> Seq<Seq<char>> {
    match s.principal {
        Some(p) => encoded_rows(
            alternate_accounts(
                response_entries(rewards),
                p,
                account_id_bytes(p, default_subaccount()),
            ),
        ),
        None => Seq::empty(),
    }
}

/// Goes on to the alternate account at `next`, or finishes when there is
/// none at that position.
pub open spec fn onward(s: CollectorView, next: int) -> StepView {
    if 0 <= next < s.extra_accounts.len() {
        StepView::Continue(
            CollectorView { phase: Phase::AwaitingExtra(next as usize), ..s },
            QueryView::Transactions(s.extra_accounts[next]),
        )
    } else {
        StepView::Finish(record_of(s))
    }
}

/// The step that a state takes on an event.
///
/// A failed query or a refusal by the index ends the entry with that
/// message. The answer for the entry's own account gives the balance, the
/// oldest transaction id and the first transactions, and leads to the query
/// for rewards. The rewards give the alternate accounts, which are then asked
/// about one by one; each answer's transactions are appended, none removed.
/// After the last the record is finished. An event that the state was not
/// waiting for ends the entry too.
pub open spec fn next_step(s: CollectorView, event: CollectorEvent) -> StepView {
    match event {
        CollectorEvent::Failed(reason) => StepView::Fail(reason@),
        CollectorEvent::Transactions(GetAccountIdentifierTransactionsResult::Refused(e)) => {
            if s.phase is AwaitingRewards {
                StepView::Fail(unexpected_event())
            } else {
                StepView::Fail(e.message@)
            }
        },
        CollectorEvent::Transactions(GetAccountIdentifierTransactionsResult::Answered(answer)) => {
            match s.phase {
                Phase::AwaitingTransactions => StepView::Continue(
                    CollectorView {
                        phase: Phase::AwaitingRewards,
                        balance: answer.balance,
                        oldest_tx_id: answer.oldest_tx_id,
                        transactions: answer.transactions@,
                        ..s
                    },
                    QueryView::Rewards,
                ),
                Phase::AwaitingRewards => StepView::Fail(unexpected_event()),
                Phase::AwaitingExtra(k) => onward(
                    CollectorView { transactions: s.transactions + answer.transactions@, ..s },
                    k + 1,
                ),
            }
        },
        CollectorEvent::Rewards(rewards) => {
            if s.phase is AwaitingRewards {
                onward(CollectorView { extra_accounts: extras_of(s, rewards), ..s }, 0)
            } else {
                StepView::Fail(unexpected_event())
            }
        },
    }
}

/// What is said of an event that was not waited for.
pub open spec fn unexpected_event() -> Seq<char> {
    "Unexpected answer"@
}

impl Collector {
    /// Begins gathering for an entry, as [`first_step`] says. Nothing is
    /// fetched here or in [`Collector::step`]: the caller performs each query
    /// and hands back what came of it.
    pub fn start(entry: AccountData) -> (step: CollectorStep)
        ensures
            step_view(step) == first_step(entry@),
            step matches CollectorStep::Continue(_, q) ==> query_well_formed(q),
    {
        let account_identifier: String = resolve_account_identifier(&entry);
        if !is_valid_account_id(account_identifier.as_str()) {
            return CollectorStep::Fail("Invalid account ID".to_owned());
        }
        let query: Query = Query::Transactions(transactions_request(account_identifier.as_str()));
        let parts = entry.into_parts();
        let collector = Collector {
            name: parts.0,
            principal: parts.1,
            ty: parts.3,
            account_identifier,
            phase: Phase::AwaitingTransactions,
            balance: 0,
            oldest_tx_id: None,
            transactions: Vec::new(),
            extra_accounts: Vec::new(),
        };
        assert(collector@.extra_accounts =~= Seq::<Seq<char>>::empty());
        CollectorStep::Continue(collector, query)
    }

    /// The finished record of this state.
    pub fn finish(self) -> (record: AccountTransactionsJson)
        ensures
            record@ == record_of(self@),
    {
        let principal: Option<String> = match &self.principal {
            Some(p) => Some(p.to_text()),
            None => None,
        };
        AccountTransactionsJson {
            name: self.name,
            principal,
            account: Some(self.account_identifier),
            ty: self.ty.name(),
            extra_accounts: self.extra_accounts,
            transactions: self.transactions,
            balance: self.balance,
            oldest_tx_id: self.oldest_tx_id,
        }
    }

    /// Goes on to the alternate account at `next`, or finishes.
    fn onward(self, next: usize) -> (step: CollectorStep)
        ensures
            step_view(step) == onward(self@, next as int),
            step matches CollectorStep::Continue(_, q) ==> query_well_formed(q),
    {
        if next < self.extra_accounts.len() {
            let query: Query = Query::Transactions(
                transactions_request(self.extra_accounts[next].as_str()),
            );
            let collector = Collector {
                name: self.name,
                principal: self.principal,
                ty: self.ty,
                account_identifier: self.account_identifier,
                phase: Phase::AwaitingExtra(next),
                balance: self.balance,
                oldest_tx_id: self.oldest_tx_id,
                transactions: self.transactions,
                extra_accounts: self.extra_accounts,
            };
            CollectorStep::Continue(collector, query)
        } else {
            CollectorStep::Finish(self.finish())
        }
    }

    /// Takes what came of the last query and says how to go on, as
    /// [`next_step`] says.
    pub fn step(self, event: CollectorEvent) -> (step: CollectorStep)
        ensures
            step_view(step) == next_step(self@, event),
            step matches CollectorStep::Continue(_, q) ==> query_well_formed(q),
    {
        match event {
            CollectorEvent::Failed(reason) => CollectorStep::Fail(reason),
            CollectorEvent::Transactions(GetAccountIdentifierTransactionsResult::Refused(e)) => {
                match self.phase {
                    Phase::AwaitingRewards => CollectorStep::Fail("Unexpected answer".to_owned()),
                    _ => CollectorStep::Fail(e.message),
                }
            },
            CollectorEvent::Transactions(
                GetAccountIdentifierTransactionsResult::Answered(answer),
            ) => {
                match self.phase {
                    Phase::AwaitingTransactions => {
                        let collector = Collector {
                            name: self.name,
                            principal: self.principal,
                            ty: self.ty,
                            account_identifier: self.account_identifier,
                            phase: Phase::AwaitingRewards,
                            balance: answer.balance,
                            oldest_tx_id: answer.oldest_tx_id,
                            transactions: answer.transactions,
                            extra_accounts: self.extra_accounts,
                        };
                        CollectorStep::Continue(collector, Query::Rewards)
                    },
                    Phase::AwaitingRewards => CollectorStep::Fail("Unexpected answer".to_owned()),
                    Phase::AwaitingExtra(k) => {
                        let mut transactions: Vec<TransactionWithId> = self.transactions;
                        let mut more: Vec<TransactionWithId> = answer.transactions;
                        transactions.append(&mut more);
                        let collector = Collector {
                            name: self.name,
                            principal: self.principal,
                            ty: self.ty,
                            account_identifier: self.account_identifier,
                            phase: self.phase,
                            balance: self.balance,
                            oldest_tx_id: self.oldest_tx_id,
                            transactions,
                            extra_accounts: self.extra_accounts,
                        };
                        if k < collector.extra_accounts.len() {
                            collector.onward(k + 1)
                        } else {
                            CollectorStep::Finish(collector.finish())
                        }
                    },
                }
            },
            CollectorEvent::Rewards(rewards) => {
                match self.phase {
                    Phase::AwaitingRewards => {
                        let extra_accounts: Vec<String> = match &self.principal {
                            Some(p) => get_accounts_from_rewards(p.clone(), rewards),
                            None => Vec::new(),
                        };
                        assert(self.principal is None ==> text_rows(extra_accounts@)
                            =~= Seq::<Seq<char>>::empty());
                        let collector = Collector {
                            name: self.name,
                            principal: self.principal,
                            ty: self.ty,
                            account_identifier: self.account_identifier,
                            phase: self.phase,
                            balance: self.balance,
                            oldest_tx_id: self.oldest_tx_id,
                            transactions: self.transactions,
                            extra_accounts,
                        };
                        collector.onward(0)
                    },
                    _ => CollectorStep::Fail("Unexpected answer".to_owned()),
                }
            },
        }
    }
}

} // verus!
