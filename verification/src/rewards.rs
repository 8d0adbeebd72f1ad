//! Rewards that the governance service reports, month by month, and what
//! they add up to for each principal.

use vstd::prelude::*;
use crate::account::{
    account_id_bytes, canonical_account_bytes, dashboard_prefix, default_subaccount,
    principal_to_account_id, process_account_hex,
};
use crate::hex_text::{encode, encoded_text, lemma_encoded_text_injective};
use crate::principal::{bytes_equal, Principal};
use crate::text::{copy_optional, optional_text, text_equal};

verus! {

/// An account as the governance service names it: 32 bytes with the checksum
/// in front, or the bare 28-byte digest.
#[derive(Debug, PartialEq, Eq)]
pub struct GovAccountIdentifier {
    pub hash: Vec<u8>,
}

/// Who a reward is for, and where that provider asked to be paid.
#[derive(Debug, PartialEq, Eq)]
pub struct NodeProviderReward {
    pub id: Option<Principal>,
    pub reward_account: Option<GovAccountIdentifier>,
}

#[derive(Debug, PartialEq, Eq)]
pub struct RewardToNeuron {
    pub dissolve_delay_seconds: u64,
}

#[derive(Debug, PartialEq, Eq)]
pub struct RewardToAccount {
    pub to_account: Option<GovAccountIdentifier>,
}

/// How a reward is paid out.
#[derive(Debug, PartialEq, Eq)]
pub enum RewardMode {
    RewardToNeuron(RewardToNeuron),
    RewardToAccount(RewardToAccount),
}

/// One reward of one month.
#[derive(Debug, PartialEq, Eq)]
pub struct RewardNodeProvider {
    pub node_provider: Option<NodeProviderReward>,
    pub reward_mode: Option<RewardMode>,
    pub amount_e8s: u64,
}

#[derive(Debug, PartialEq, Eq)]
pub struct XdrConversionRate {
    pub xdr_permyriad_per_icp: Option<u64>,
    pub timestamp_seconds: Option<u64>,
}

#[derive(Debug, PartialEq, Eq)]
pub struct DateRangeFilter {
    pub start_timestamp_seconds: Option<u64>,
    pub end_timestamp_seconds: Option<u64>,
}

/// What is asked of the governance service.
#[derive(Debug, PartialEq, Eq)]
pub struct ListNodeProviderRewardsRequest {
    pub date_filter: Option<DateRangeFilter>,
}

/// The rewards of one month, with the conversion rate of that month.
#[derive(Debug, PartialEq, Eq)]
pub struct MonthlyNodeProviderRewards {
    pub timestamp: u64,
    pub rewards: Vec<RewardNodeProvider>,
    pub xdr_conversion_rate: Option<XdrConversionRate>,
    pub node_providers: Vec<NodeProviderReward>,
    pub registry_version: Option<u64>,
    pub minimum_xdr_permyriad_per_icp: Option<u64>,
    pub maximum_node_provider_rewards_e8s: Option<u64>,
}

/// What the governance service answers.
#[derive(Debug, PartialEq, Eq)]
pub struct ListNodeProviderRewardsResponse {
    pub rewards: Vec<MonthlyNodeProviderRewards>,
}

/// One payment to one principal, as plain values. The rate is in XDR per
/// ten thousand ICP, zero where the month gives none.
pub struct RewardEntry {
    pub principal: Seq<u8>,
    pub timestamp: u64,
    pub amount_e8s: u64,
    pub xdr_permyriad_per_icp: u64,
    pub payout_account: Option<Seq<u8>>,
}

/// Where a reward is paid: the account on the provider's record if there is
/// one, else the account of a pay-to-account mode, else nowhere in particular.
pub open spec fn payout_account_of(reward: RewardNodeProvider) -> Option<Seq<u8>> {
    match reward.node_provider {
        Some(NodeProviderReward { reward_account: Some(account), .. }) => Some(account.hash@),
        _ => match reward.reward_mode {
            Some(RewardMode::RewardToAccount(RewardToAccount { to_account: Some(account) })) => Some(
                account.hash@,
            ),
            _ => None,
        },
    }
}

/// The rate of a month, zero where it gives none.
pub open spec fn month_rate(month: MonthlyNodeProviderRewards) -> u64 {
    match month.xdr_conversion_rate {
        Some(XdrConversionRate { xdr_permyriad_per_icp: Some(rate), .. }) => rate,
        _ => 0,
    }
}

/// The payment that a reward stands for; none where it names no principal.
pub open spec fn entry_at(
    month: MonthlyNodeProviderRewards,
    reward: RewardNodeProvider,
) -> Option<RewardEntry> {
    match reward.node_provider {
        Some(NodeProviderReward { id: Some(id), .. }) => Some(
            RewardEntry {
                principal: id@,
                timestamp: month.timestamp,
                amount_e8s: reward.amount_e8s,
                xdr_permyriad_per_icp: month_rate(month),
                payout_account: payout_account_of(reward),
            },
        ),
        _ => None,
    }
}

/// The payments among the first `n` rewards of a month, in order.
pub open spec fn month_entries(month: MonthlyNodeProviderRewards, n: int) -> Seq<RewardEntry>
    decreases n,
{
    if n <= 0 {
        Seq::empty()
    } else {
        let before = month_entries(month, n - 1);
        match entry_at(month, month.rewards@[n - 1]) {
            Some(e) => before.push(e),
            None => before,
        }
    }
}

/// The payments of the first `m` months of an answer, in order.
pub open spec fn entries_upto(
    response: ListNodeProviderRewardsResponse,
    m: int,
) -> Seq<RewardEntry>
    decreases m,
{
    if m <= 0 {
        Seq::empty()
    } else {
        let month = response.rewards@[m - 1];
        entries_upto(response, m - 1) + month_entries(month, month.rewards@.len() as int)
    }
}

/// All payments of an answer, in order.
pub open spec fn response_entries(response: ListNodeProviderRewardsResponse) -> Seq<RewardEntry> {
    entries_upto(response, response.rewards@.len() as int)
}

/// What is known of one principal's rewards: the account and the amounts of
/// the latest month, the totals over all months, and the accounts other than
/// the principal's default account that rewards were paid to. The fields on
/// mint transactions are for what the ledger says, and are empty here.
///
/// Converted amounts are exact integers: e8s times the rate, which is XDR
/// times ten to the twelfth. Totals stop at `u128::MAX`.
#[derive(Debug, PartialEq, Eq)]
pub struct ProviderRewardInfo {
    pub reward_account_hex: Option<String>,
    pub reward_account_formatted: Option<String>,
    pub reward_account_dashboard_link: Option<String>,
    pub most_recent_reward_e8s: Option<u64>,
    pub most_recent_reward_xdr_e12: Option<u128>,
    pub most_recent_timestamp: Option<u64>,
    pub total_reward_e8s: u128,
    pub total_reward_xdr_e12: u128,
    pub alternate_accounts: Vec<String>,
    pub total_mint_rewards_e8s: Option<u64>,
    pub mint_transaction_count: Option<u32>,
    pub first_mint_timestamp: Option<u64>,
    pub last_mint_timestamp: Option<u64>,
}

/// A [`ProviderRewardInfo`] as plain values.
pub struct ProviderRewardInfoView {
    pub reward_account_hex: Option<Seq<char>>,
    pub reward_account_formatted: Option<Seq<char>>,
    pub reward_account_dashboard_link: Option<Seq<char>>,
    pub most_recent_reward_e8s: Option<u64>,
    pub most_recent_reward_xdr_e12: Option<u128>,
    pub most_recent_timestamp: Option<u64>,
    pub total_reward_e8s: u128,
    pub total_reward_xdr_e12: u128,
    pub alternate_accounts: Seq<Seq<char>>,
    pub total_mint_rewards_e8s: Option<u64>,
    pub mint_transaction_count: Option<u32>,
    pub first_mint_timestamp: Option<u64>,
    pub last_mint_timestamp: Option<u64>,
}

impl View for ProviderRewardInfo {
    type V = ProviderRewardInfoView;

    open spec fn view(&self) -> ProviderRewardInfoView {
        ProviderRewardInfoView {
            reward_account_hex: optional_text(self.reward_account_hex),
            reward_account_formatted: optional_text(self.reward_account_formatted),
            reward_account_dashboard_link: optional_text(self.reward_account_dashboard_link),
            most_recent_reward_e8s: self.most_recent_reward_e8s,
            most_recent_reward_xdr_e12: self.most_recent_reward_xdr_e12,
            most_recent_timestamp: self.most_recent_timestamp,
            total_reward_e8s: self.total_reward_e8s,
            total_reward_xdr_e12: self.total_reward_xdr_e12,
            alternate_accounts: text_rows(self.alternate_accounts@),
            total_mint_rewards_e8s: self.total_mint_rewards_e8s,
            mint_transaction_count: self.mint_transaction_count,
            first_mint_timestamp: self.first_mint_timestamp,
            last_mint_timestamp: self.last_mint_timestamp,
        }
    }
}

/// A sum, stopped at the largest `u128`.
pub open spec fn capped(x: int) -> u128 {
    if x > u128::MAX {
        u128::MAX
    } else {
        x as u128
    }
}

/// A payment in XDR times ten to the twelfth: the amount times the rate.
pub open spec fn converted(e: RewardEntry) -> int {
    e.amount_e8s as int * e.xdr_permyriad_per_icp as int
}

/// The payout account as hex text, as it came.
pub open spec fn payout_hex(account: Option<Seq<u8>>) -> Option<Seq<char>> {
    match account {
        Some(bytes) => Some(encoded_text(bytes)),
        None => None,
    }
}

/// The payout account in canonical form, where it is an identifier.
pub open spec fn payout_formatted(account: Option<Seq<u8>>) -> Option<Seq<char>> {
    match account {
        Some(bytes) => match canonical_account_bytes(bytes) {
            Some(id) => Some(encoded_text(id)),
            None => None,
        },
        None => None,
    }
}

/// The dashboard address of the payout account, where it is an identifier.
pub open spec fn payout_link(account: Option<Seq<u8>>) -> Option<Seq<char>> {
    match payout_formatted(account) {
        Some(f) => Some(dashboard_prefix() + f),
        None => None,
    }
}

/// The account that a principal has by default: the one derived from it
/// with no subaccount.
pub open spec fn default_account(principal: Seq<u8>) -> Seq<u8> {
    account_id_bytes(principal, default_subaccount())
}

/// A payment goes to an alternate account when it names a payout account
/// other than its principal's default account.
pub open spec fn is_alternate(e: RewardEntry) -> bool {
    e.payout_account matches Some(account) && account != default_account(e.principal)
}

/// The alternate accounts known after one more payment: its payout account
/// is added, as hex text, if it is an alternate that is not yet known.
pub open spec fn alternates_after(known: Seq<Seq<char>>, e: RewardEntry) -> Seq<Seq<char>> {
    if is_alternate(e) && !known.contains(encoded_text(e.payout_account->0)) {
        known.push(encoded_text(e.payout_account->0))
    } else {
        known
    }
}

/// What is known after a principal's first payment.
pub open spec fn first_observation(e: RewardEntry) -> ProviderRewardInfoView {
    ProviderRewardInfoView {
        reward_account_hex: payout_hex(e.payout_account),
        reward_account_formatted: payout_formatted(e.payout_account),
        reward_account_dashboard_link: payout_link(e.payout_account),
        most_recent_reward_e8s: Some(e.amount_e8s),
        most_recent_reward_xdr_e12: Some(converted(e) as u128),
        most_recent_timestamp: Some(e.timestamp),
        total_reward_e8s: e.amount_e8s as u128,
        total_reward_xdr_e12: converted(e) as u128,
        alternate_accounts: alternates_after(Seq::empty(), e),
        total_mint_rewards_e8s: None,
        mint_transaction_count: None,
        first_mint_timestamp: None,
        last_mint_timestamp: None,
    }
}

/// A payment is newer than what is known when its month is strictly later.
pub open spec fn is_newer(info: ProviderRewardInfoView, e: RewardEntry) -> bool {
    info.most_recent_timestamp matches Some(known) && e.timestamp > known
}

/// What is known after a further payment. The totals always grow, and a new
/// alternate account is always taken in. The most recent amounts change only
/// for a strictly later month, and the account only if that later payment
/// names one.
pub open spec fn next_observation(info: ProviderRewardInfoView, e: RewardEntry) -> ProviderRewardInfoView {
    let takes_account = is_newer(info, e) && e.payout_account is Some;
    ProviderRewardInfoView {
        reward_account_hex: if takes_account {
            payout_hex(e.payout_account)
        } else {
            info.reward_account_hex
        },
        reward_account_formatted: if takes_account {
            payout_formatted(e.payout_account)
        } else {
            info.reward_account_formatted
        },
        reward_account_dashboard_link: if takes_account {
            payout_link(e.payout_account)
        } else {
            info.reward_account_dashboard_link
        },
        most_recent_reward_e8s: if is_newer(info, e) {
            Some(e.amount_e8s)
        } else {
            info.most_recent_reward_e8s
        },
        most_recent_reward_xdr_e12: if is_newer(info, e) {
            Some(converted(e) as u128)
        } else {
            info.most_recent_reward_xdr_e12
        },
        most_recent_timestamp: if is_newer(info, e) {
            Some(e.timestamp)
        } else {
            info.most_recent_timestamp
        },
        total_reward_e8s: capped(info.total_reward_e8s + e.amount_e8s),
        total_reward_xdr_e12: capped(info.total_reward_xdr_e12 + converted(e)),
        alternate_accounts: alternates_after(info.alternate_accounts, e),
        total_mint_rewards_e8s: info.total_mint_rewards_e8s,
        mint_transaction_count: info.mint_transaction_count,
        first_mint_timestamp: info.first_mint_timestamp,
        last_mint_timestamp: info.last_mint_timestamp,
    }
}

/// What is known after one more payment: its principal's row is started or
/// carried on, and the other rows stay.
pub open spec fn observed(
    before: Map<Seq<u8>, ProviderRewardInfoView>,
    e: RewardEntry,
) -> Map<Seq<u8>, ProviderRewardInfoView> {
    if before.dom().contains(e.principal) {
        before.insert(e.principal, next_observation(before[e.principal], e))
    } else {
        before.insert(e.principal, first_observation(e))
    }
}

/// The principals that the payments `entries` name, each once, in the order
/// in which they are first named.
pub open spec fn principals_seen(entries: Seq<RewardEntry>) -> Seq<Seq<u8>>
    decreases entries.len(),
{
    if entries.len() == 0 {
        Seq::empty()
    } else {
        seen_after(principals_seen(entries.drop_last()), entries.last().principal)
    }
}

/// A list of principals after one more is named: a new one goes to the end.
pub open spec fn seen_after(seen: Seq<Seq<u8>>, principal: Seq<u8>) -> Seq<Seq<u8>> {
    if seen.contains(principal) {
        seen
    } else {
        seen.push(principal)
    }
}

/// What is known of every principal after the payments `entries`, taken in
/// order.
pub open spec fn summarize(entries: Seq<RewardEntry>) -> Map<Seq<u8>, ProviderRewardInfoView>
    decreases entries.len(),
{
    if entries.len() == 0 {
        Map::empty()
    } else {
        observed(summarize(entries.drop_last()), entries.last())
    }
}

/// A product of two 64-bit numbers fits in 128 bits.
pub proof fn lemma_converted_fits(e: RewardEntry)
    ensures
        0 <= converted(e) <= u128::MAX,
{
    let a = e.amount_e8s as int;
    let b = e.xdr_permyriad_per_icp as int;
    assert(0 <= a * b <= 0xFFFF_FFFF_FFFF_FFFF * 0xFFFF_FFFF_FFFF_FFFF) by (nonlinear_arith)
        requires
            0 <= a <= 0xFFFF_FFFF_FFFF_FFFF,
            0 <= b <= 0xFFFF_FFFF_FFFF_FFFF,
    ;
}

/// One principal and what is known of its rewards.
#[derive(Debug, PartialEq, Eq)]
pub struct ProviderRewards {
    pub principal: Principal,
    pub info: ProviderRewardInfo,
}

/// What is known of the rewards of each principal: at most one row per
/// principal, in the order in which the principals were first seen.
#[derive(Debug, PartialEq, Eq)]
pub struct RewardTable {
    rows: Vec<ProviderRewards>,
}

impl RewardTable {
    #[verifier::type_invariant]
    spec fn distinct_principals(self) -> bool {
        forall|i: int, j: int|
            0 <= i < j < self.rows@.len() ==> self.rows@[i].principal@ != self.rows@[j].principal@
    }

    /// The row of a principal, if it has one.
    pub closed spec fn position(&self, principal: Seq<u8>) -> Option<int> {
        if exists|i: int| 0 <= i < self.rows@.len() && self.rows@[i].principal@ == principal {
            Some(choose|i: int| 0 <= i < self.rows@.len() && self.rows@[i].principal@ == principal)
        } else {
            None
        }
    }

    /// The principals of the rows, in order.
    pub closed spec fn principals(&self) -> Seq<Seq<u8>> {
        Seq::new(self.rows@.len(), |i: int| self.rows@[i].principal@)
    }

    /// The information of the rows, in order.
    pub closed spec fn infos(&self) -> Seq<ProviderRewardInfoView> {
        Seq::new(self.rows@.len(), |i: int| self.rows@[i].info@)
    }

    /// An empty table.
    pub fn new() -> (table: RewardTable)
        ensures
            table@ == Map::<Seq<u8>, ProviderRewardInfoView>::empty(),
            table.principals().len() == 0,
    {
        let table = RewardTable { rows: Vec::new() };
        assert(table@ =~= Map::<Seq<u8>, ProviderRewardInfoView>::empty());
        table
    }

    /// The number of principals in the table.
    pub fn len(&self) -> (n: usize)
        ensures
            n == self.principals().len(),
            n == self.infos().len(),
    {
        self.rows.len()
    }

    /// The row at `index`, in the order in which principals were first seen.
    pub fn row(&self, index: usize) -> (row: &ProviderRewards)
        requires
            index < self.principals().len(),
        ensures
            row.principal@ == self.principals()[index as int],
            row.info@ == self.infos()[index as int],
            self@.dom().contains(row.principal@),
            self@[row.principal@] == row.info@,
    {
        proof {
            use_type_invariant(self);
            self.lemma_position(index as int);
        }
        &self.rows[index]
    }

    proof fn lemma_position(&self, i: int)
        requires
            self.distinct_principals(),
            0 <= i < self.rows@.len(),
        ensures
            self.position(self.rows@[i].principal@) == Some(i),
    {
        let p = self.rows@[i].principal@;
        let j = choose|j: int| 0 <= j < self.rows@.len() && self.rows@[j].principal@ == p;
        assert(0 <= j < self.rows@.len() && self.rows@[j].principal@ == p);
    }

    /// Where the principal's row is, if it has one.
    fn find(&self, principal: &Principal) -> (found: Option<usize>)
        ensures
            found is Some <==> self@.dom().contains(principal@),
            found matches Some(i) ==> i < self.rows@.len() && self.rows@[i as int].principal@
                == principal@ && self@[principal@] == self.rows@[i as int].info@,
    {
        proof {
            use_type_invariant(self);
        }
        let mut i: usize = 0;
        while i < self.rows.len()
            invariant
                i <= self.rows@.len(),
                self.distinct_principals(),
                forall|k: int| 0 <= k < i ==> self.rows@[k].principal@ != principal@,
            decreases self.rows.len() - i,
        {
            if self.rows[i].principal.same_as(principal) {
                proof {
                    self.lemma_position(i as int);
                }
                return Some(i);
            }
            i += 1;
        }
        None
    }

    /// The table's rows and its view say the same.
    proof fn lemma_rows(&self)
        requires
            self.distinct_principals(),
        ensures
            forall|i: int|
                0 <= i < self.rows@.len() ==> self@.dom().contains(
                    #[trigger] self.rows@[i].principal@,
                ) && self@[self.rows@[i].principal@] == self.rows@[i].info@,
            forall|p: Seq<u8>|
                self@.dom().contains(p) ==> exists|i: int|
                    0 <= i < self.rows@.len() && #[trigger] self.rows@[i].principal@ == p,
    {
        assert forall|i: int| 0 <= i < self.rows@.len() implies self@.dom().contains(
            #[trigger] self.rows@[i].principal@,
        ) && self@[self.rows@[i].principal@] == self.rows@[i].info@ by {
            self.lemma_position(i);
        }
    }

    /// Takes one more payment into the table.
    pub fn record(
        &mut self,
        principal: &Principal,
        timestamp: u64,
        amount_e8s: u64,
        xdr_permyriad_per_icp: u64,
        payout_account: Option<&[u8]>,
    )
        ensures
            final(self)@ == observed(
                old(self)@,
                payment(
                    principal@,
                    timestamp,
                    amount_e8s,
                    xdr_permyriad_per_icp,
                    bytes_view(payout_account),
                ),
            ),
            final(self).principals() == seen_after(old(self).principals(), principal@),
    {
        let ghost e = payment(
            principal@,
            timestamp,
            amount_e8s,
            xdr_permyriad_per_icp,
            bytes_view(payout_account),
        );
        let ghost before = *self;
        proof {
            use_type_invariant(&*self);
            before.lemma_rows();
        }
        let found: Option<usize> = self.find(principal);
        let mut taken: RewardTable = RewardTable { rows: Vec::new() };
        core::mem::swap(self, &mut taken);
        let mut rows: Vec<ProviderRewards> = taken.rows;
        match found {
            Some(i) => {
                let info = rows[i].info.next(
                    principal,
                    timestamp,
                    amount_e8s,
                    xdr_permyriad_per_icp,
                    payout_account,
                );
                let row = ProviderRewards { principal: principal.clone(), info };
                rows[i] = row;
                *self = RewardTable { rows };
                proof {
                    assert(self.distinct_principals());
                    self.lemma_rows();
                    assert forall|p: Seq<u8>| self@.dom().contains(p) <==> before@.dom().contains(
                        p,
                    ) by {
                        if self@.dom().contains(p) {
                            let k = choose|k: int|
                                0 <= k < self.rows@.len() && #[trigger] self.rows@[k].principal@
                                    == p;
                            assert(before.rows@[k].principal@ == p);
                        }
                        if before@.dom().contains(p) {
                            let k = choose|k: int|
                                0 <= k < before.rows@.len() && #[trigger] before.rows@[k].principal@
                                    == p;
                            assert(self.rows@[k].principal@ == p);
                        }
                    }
                    assert forall|p: Seq<u8>| self@.dom().contains(p) implies self@[p] == observed(
                        before@,
                        e,
                    )[p] by {
                        let k = choose|k: int|
                            0 <= k < self.rows@.len() && #[trigger] self.rows@[k].principal@ == p;
                        assert(before.rows@[k].principal@ == p);
                    }
                    assert(self@ =~= observed(before@, e));
                    assert(before.principals()[i as int] == principal@);
                    assert(self.principals() =~= before.principals());
                }
            },
            None => {
                let info = ProviderRewardInfo::first(
                    principal,
                    timestamp,
                    amount_e8s,
                    xdr_permyriad_per_icp,
                    payout_account,
                );
                rows.push(ProviderRewards { principal: principal.clone(), info });
                *self = RewardTable { rows };
                proof {
                    assert(self.distinct_principals()) by {
                        assert forall|a: int, b: int| 0 <= a < b < self.rows@.len() implies self.rows@[a].principal@
                            != self.rows@[b].principal@ by {
                            if b == before.rows@.len() {
                                assert(before.rows@[a].principal@ == self.rows@[a].principal@);
                            } else {
                                assert(before.rows@[a] == self.rows@[a]);
                                assert(before.rows@[b] == self.rows@[b]);
                            }
                        }
                    }
                    self.lemma_rows();
                    let n = before.rows@.len() as int;
                    assert(self.rows@[n].principal@ == principal@);
                    assert forall|p: Seq<u8>| self@.dom().contains(p) <==> (before@.dom().contains(
                        p,
                    ) || p == principal@) by {
                        if self@.dom().contains(p) {
                            let k = choose|k: int|
                                0 <= k < self.rows@.len() && #[trigger] self.rows@[k].principal@
                                    == p;
                            if k < n {
                                assert(before.rows@[k].principal@ == p);
                            }
                        }
                        if before@.dom().contains(p) {
                            let k = choose|k: int|
                                0 <= k < before.rows@.len() && #[trigger] before.rows@[k].principal@
                                    == p;
                            assert(self.rows@[k].principal@ == p);
                        }
                    }
                    assert forall|p: Seq<u8>| self@.dom().contains(p) implies self@[p] == observed(
                        before@,
                        e,
                    )[p] by {
                        let k = choose|k: int|
                            0 <= k < self.rows@.len() && #[trigger] self.rows@[k].principal@ == p;
                        if k < n {
                            assert(before.rows@[k] == self.rows@[k]);
                        }
                    }
                    assert(self@ =~= observed(before@, e));
                    assert(self.principals() =~= before.principals().push(principal@));
                    if before.principals().contains(principal@) {
                        let k = choose|k: int|
                            0 <= k < before.principals().len() && before.principals()[k]
                                == principal@;
                        assert(before.rows@[k].principal@ == principal@);
                    }
                }
            },
        }
    }

    /// What is known of a principal, if anything.
    pub fn get(&self, principal: &Principal) -> (info: Option<&ProviderRewardInfo>)
        ensures
            info is Some <==> self@.dom().contains(principal@),
            info matches Some(i) ==> i@ == self@[principal@],
    {
        match self.find(principal) {
            Some(i) => Some(&self.rows[i].info),
            None => None,
        }
    }
}

/// The bytes of an optional account.
pub open spec fn bytes_view(account: Option<&[u8]>) -> Option<Seq<u8>> {
    match account {
        Some(bytes) => Some(bytes@),
        None => None,
    }
}

/// The three texts of a payout account: as it came, canonical, and as a
/// dashboard address.
fn payout_texts(account: Option<&[u8]>) -> (texts: (Option<String>, Option<String>, Option<String>))
    ensures
        optional_text(texts.0) == payout_hex(bytes_view(account)),
        optional_text(texts.1) == payout_formatted(bytes_view(account)),
        optional_text(texts.2) == payout_link(bytes_view(account)),
{
    match account {
        Some(bytes) => {
            let hex: String = encode(bytes);
            process_account_hex(hex.as_str())
        },
        None => (None, None, None),
    }
}

/// The amount times the rate.
fn converted_amount(amount_e8s: u64, xdr_permyriad_per_icp: u64) -> (xdr_e12: u128)
    ensures
        xdr_e12 == amount_e8s as int * xdr_permyriad_per_icp as int,
{
    let a: u128 = amount_e8s as u128;
    let b: u128 = xdr_permyriad_per_icp as u128;
    assert(0 <= a * b <= 0xFFFF_FFFF_FFFF_FFFF * 0xFFFF_FFFF_FFFF_FFFF) by (nonlinear_arith)
        requires
            0 <= a <= 0xFFFF_FFFF_FFFF_FFFF,
            0 <= b <= 0xFFFF_FFFF_FFFF_FFFF,
    ;
    a * b
}

/// The alternate accounts known after a payment to `payout_account`.
fn alternates_with(
    known: &Vec<String>,
    principal: &Principal,
    payout_account: Option<&[u8]>,
) -> (all: Vec<String>)
    ensures
        forall|timestamp: u64, amount_e8s: u64, rate: u64|
            text_rows(all@) == alternates_after(
                text_rows(known@),
                #[trigger] payment(
                    principal@,
                    timestamp,
                    amount_e8s,
                    rate,
                    bytes_view(payout_account),
                ),
            ),
{
    let mut all: Vec<String> = Vec::new();
    let mut i: usize = 0;
    while i < known.len()
        invariant
            i <= known@.len(),
            all@.len() == i,
            forall|k: int| 0 <= k < i ==> (#[trigger] all@[k])@ == known@[k]@,
        decreases known.len() - i,
    {
        all.push(known[i].clone());
        i += 1;
    }
    assert(text_rows(all@) =~= text_rows(known@));
    match payout_account {
        Some(account) => {
            let default: [u8; 32] = principal_to_account_id(principal, None);
            if !bytes_equal(account, default.as_slice()) {
                let text: String = encode(account);
                let mut found: bool = false;
                let mut j: usize = 0;
                while j < known.len()
                    invariant
                        j <= known@.len(),
                        found == exists|k: int| 0 <= k < j && #[trigger] text_rows(known@)[k] == text@,
                    decreases known.len() - j,
                {
                    if text_equal(known[j].as_str(), text.as_str()) {
                        assert(text_rows(known@)[j as int] == text@);
                        found = true;
                    }
                    j += 1;
                }
                if !found {
                    let ghost before = text_rows(all@);
                    all.push(text);
                    assert(text_rows(all@) =~= before.push(text@));
                }
            }
        },
        None => {},
    }
    all
}

impl ProviderRewardInfo {
    /// What is known after a principal's first payment.
    pub fn first(
        principal: &Principal,
        timestamp: u64,
        amount_e8s: u64,
        xdr_permyriad_per_icp: u64,
        payout_account: Option<&[u8]>,
    ) -> (info: ProviderRewardInfo)
        ensures
            info@ == first_observation(
                payment(
                    principal@,
                    timestamp,
                    amount_e8s,
                    xdr_permyriad_per_icp,
                    bytes_view(payout_account),
                ),
            ),
    {
        let ghost e = payment(
            principal@,
            timestamp,
            amount_e8s,
            xdr_permyriad_per_icp,
            bytes_view(payout_account),
        );
        let texts = payout_texts(payout_account);
        let xdr: u128 = converted_amount(amount_e8s, xdr_permyriad_per_icp);
        let none: Vec<String> = Vec::new();
        assert(text_rows(none@) =~= Seq::<Seq<char>>::empty());
        let alternate_accounts: Vec<String> = alternates_with(&none, principal, payout_account);
        assert(text_rows(alternate_accounts@) == alternates_after(text_rows(none@), e));
        ProviderRewardInfo {
            reward_account_hex: texts.0,
            reward_account_formatted: texts.1,
            reward_account_dashboard_link: texts.2,
            most_recent_reward_e8s: Some(amount_e8s),
            most_recent_reward_xdr_e12: Some(xdr),
            most_recent_timestamp: Some(timestamp),
            total_reward_e8s: amount_e8s as u128,
            total_reward_xdr_e12: xdr,
            alternate_accounts,
            total_mint_rewards_e8s: None,
            mint_transaction_count: None,
            first_mint_timestamp: None,
            last_mint_timestamp: None,
        }
    }

    /// What is known after a further payment to the same principal.
    pub fn next(
        &self,
        principal: &Principal,
        timestamp: u64,
        amount_e8s: u64,
        xdr_permyriad_per_icp: u64,
        payout_account: Option<&[u8]>,
    ) -> (info: ProviderRewardInfo)
        ensures
            info@ == next_observation(
                self@,
                payment(
                    principal@,
                    timestamp,
                    amount_e8s,
                    xdr_permyriad_per_icp,
                    bytes_view(payout_account),
                ),
            ),
    {
        let ghost e = payment(
            principal@,
            timestamp,
            amount_e8s,
            xdr_permyriad_per_icp,
            bytes_view(payout_account),
        );
        let xdr: u128 = converted_amount(amount_e8s, xdr_permyriad_per_icp);
        let newer: bool = match self.most_recent_timestamp {
            Some(known) => timestamp > known,
            None => false,
        };
        let takes_account: bool = newer && payout_account.is_some();
        let texts = if takes_account {
            payout_texts(payout_account)
        } else {
            (
                copy_optional(&self.reward_account_hex),
                copy_optional(&self.reward_account_formatted),
                copy_optional(&self.reward_account_dashboard_link),
            )
        };
        let alternate_accounts: Vec<String> = alternates_with(
            &self.alternate_accounts,
            principal,
            payout_account,
        );
        assert(text_rows(alternate_accounts@) == alternates_after(
            text_rows(self.alternate_accounts@),
            e,
        ));
        ProviderRewardInfo {
            reward_account_hex: texts.0,
            reward_account_formatted: texts.1,
            reward_account_dashboard_link: texts.2,
            most_recent_reward_e8s: if newer {
                Some(amount_e8s)
            } else {
                self.most_recent_reward_e8s
            },
            most_recent_reward_xdr_e12: if newer {
                Some(xdr)
            } else {
                self.most_recent_reward_xdr_e12
            },
            most_recent_timestamp: if newer {
                Some(timestamp)
            } else {
                self.most_recent_timestamp
            },
            total_reward_e8s: self.total_reward_e8s.saturating_add(amount_e8s as u128),
            total_reward_xdr_e12: self.total_reward_xdr_e12.saturating_add(xdr),
            alternate_accounts,
            total_mint_rewards_e8s: self.total_mint_rewards_e8s,
            mint_transaction_count: self.mint_transaction_count,
            first_mint_timestamp: self.first_mint_timestamp,
            last_mint_timestamp: self.last_mint_timestamp,
        }
    }
}

/// The payment made of the given values.
pub open spec fn payment(
    principal: Seq<u8>,
    timestamp: u64,
    amount_e8s: u64,
    xdr_permyriad_per_icp: u64,
    payout_account: Option<Seq<u8>>,
) -> RewardEntry {
    RewardEntry { principal, timestamp, amount_e8s, xdr_permyriad_per_icp, payout_account }
}

impl View for RewardTable {
    type V = Map<Seq<u8>, ProviderRewardInfoView>;

    closed spec fn view(&self) -> Map<Seq<u8>, ProviderRewardInfoView> {
        Map::new(
            |p: Seq<u8>| self.position(p) is Some,
            |p: Seq<u8>| self.rows@[self.position(p)->0].info@,
        )
    }
}

/// Where a reward is paid, by the rule of [`payout_account_of`].
pub fn payout_of(reward: &RewardNodeProvider) -> (account: Option<&[u8]>)
    ensures
        bytes_view(account) == payout_account_of(*reward),
{
    match &reward.node_provider {
        Some(provider) => match &provider.reward_account {
            Some(account) => {
                return Some(account.hash.as_slice());
            },
            None => {},
        },
        None => {},
    }
    match &reward.reward_mode {
        Some(RewardMode::RewardToAccount(to)) => match &to.to_account {
            Some(account) => Some(account.hash.as_slice()),
            None => None,
        },
        _ => None,
    }
}

/// The rate of a month, zero where it gives none.
pub fn rate_of(month: &MonthlyNodeProviderRewards) -> (rate: u64)
    ensures
        rate == month_rate(*month),
{
    match &month.xdr_conversion_rate {
        Some(r) => match r.xdr_permyriad_per_icp {
            Some(rate) => rate,
            None => 0,
        },
        None => 0,
    }
}

/// Taking one more payment is one more step of [`summarize`].
pub proof fn lemma_summarize_push(entries: Seq<RewardEntry>, e: RewardEntry)
    ensures
        summarize(entries.push(e)) == observed(summarize(entries), e),
{
    assert(entries.push(e).drop_last() =~= entries);
}

/// Goes through every reward of every month, in order, and gathers for each
/// principal what [`summarize`] says: running totals, the amounts of the
/// latest month, and the account paid to.
pub fn process_rewards_data(
    rewards_response: ListNodeProviderRewardsResponse,
) -> (table: RewardTable)
    ensures
        table@ == summarize(response_entries(rewards_response)),
        table.principals() == principals_seen(response_entries(rewards_response)),
{
    let mut table: RewardTable = RewardTable::new();
    let mut m: usize = 0;
    while m < rewards_response.rewards.len()
        invariant
            m <= rewards_response.rewards@.len(),
            table@ == summarize(entries_upto(rewards_response, m as int)),
            table.principals() == principals_seen(entries_upto(rewards_response, m as int)),
        decreases rewards_response.rewards.len() - m,
    {
        let month: &MonthlyNodeProviderRewards = &rewards_response.rewards[m];
        let rate: u64 = rate_of(month);
        let ghost earlier = entries_upto(rewards_response, m as int);
        let mut j: usize = 0;
        assert(earlier + month_entries(*month, 0) =~= earlier);
        while j < month.rewards.len()
            invariant
                j <= month.rewards@.len(),
                m < rewards_response.rewards@.len(),
                *month == rewards_response.rewards@[m as int],
                rate == month_rate(*month),
                earlier == entries_upto(rewards_response, m as int),
                table@ == summarize(earlier + month_entries(*month, j as int)),
                table.principals() == principals_seen(earlier + month_entries(*month, j as int)),
            decreases month.rewards.len() - j,
        {
            let reward: &RewardNodeProvider = &month.rewards[j];
            let ghost seen = earlier + month_entries(*month, j as int);
            match &reward.node_provider {
                Some(provider) => match &provider.id {
                    Some(id) => {
                        let account: Option<&[u8]> = payout_of(reward);
                        table.record(id, month.timestamp, reward.amount_e8s, rate, account);
                        proof {
                            let e = entry_at(*month, *reward)->0;
                            assert(month_entries(*month, j + 1) == month_entries(
                                *month,
                                j as int,
                            ).push(e));
                            assert(earlier + month_entries(*month, j + 1) =~= seen.push(e));
                            lemma_summarize_push(seen, e);
                            assert(seen.push(e).drop_last() =~= seen);
                        }
                    },
                    None => {
                        assert(month_entries(*month, j + 1) == month_entries(*month, j as int));
                    },
                },
                None => {
                    assert(month_entries(*month, j + 1) == month_entries(*month, j as int));
                },
            }
            j += 1;
        }
        m += 1;
    }
    table
}

/// Adds a payment's amount to a sum if the payment is for `principal`.
pub open spec fn add_amount(principal: Seq<u8>) -> spec_fn(int, RewardEntry) -> int {
    |sum: int, e: RewardEntry|
        if e.principal == principal {
            sum + e.amount_e8s
        } else {
            sum
        }
}

/// Adds a payment's converted amount to a sum if the payment is for
/// `principal`.
pub open spec fn add_converted(principal: Seq<u8>) -> spec_fn(int, RewardEntry) -> int {
    |sum: int, e: RewardEntry|
        if e.principal == principal {
            sum + converted(e)
        } else {
            sum
        }
}

/// The sum of the amounts paid to `principal`.
pub open spec fn amount_sum(entries: Seq<RewardEntry>, principal: Seq<u8>) -> int {
    entries.fold_left(0int, add_amount(principal))
}

/// The sum of the converted amounts paid to `principal`.
pub open spec fn converted_sum(entries: Seq<RewardEntry>, principal: Seq<u8>) -> int {
    entries.fold_left(0int, add_converted(principal))
}

/// Whether some payment is for `principal`.
pub open spec fn is_paid(entries: Seq<RewardEntry>, principal: Seq<u8>) -> bool {
    exists|i: int| 0 <= i < entries.len() && (#[trigger] entries[i]).principal == principal
}

/// A principal has a row exactly when some payment is for it, and its totals
/// are the sums of all its payments, stopped at the largest `u128`.
pub proof fn lemma_totals_are_sums(entries: Seq<RewardEntry>, principal: Seq<u8>)
    ensures
        summarize(entries).dom().contains(principal) <==> is_paid(entries, principal),
        0 <= amount_sum(entries, principal),
        0 <= converted_sum(entries, principal),
        !is_paid(entries, principal) ==> amount_sum(entries, principal) == 0 && converted_sum(
            entries,
            principal,
        ) == 0,
        is_paid(entries, principal) ==> summarize(entries)[principal].total_reward_e8s == capped(
            amount_sum(entries, principal),
        ) && summarize(entries)[principal].total_reward_xdr_e12 == capped(
            converted_sum(entries, principal),
        ),
    decreases entries.len(),
{
    if entries.len() > 0 {
        let before = entries.drop_last();
        let e = entries.last();
        lemma_totals_are_sums(before, principal);
        lemma_converted_fits(e);
        if is_paid(before, principal) {
            let i = choose|i: int|
                0 <= i < before.len() && (#[trigger] before[i]).principal == principal;
            assert(entries[i].principal == principal);
        }
        if e.principal == principal {
            assert(entries[entries.len() - 1].principal == principal);
        }
        if is_paid(entries, principal) {
            let i = choose|i: int|
                0 <= i < entries.len() && (#[trigger] entries[i]).principal == principal;
            if i < before.len() {
                assert(before[i].principal == principal);
            }
        }
    }
}

/// The totals do not depend on the order of the payments: two runs of the
/// same payments, in any two orders, know the same principals and give each
/// the same totals.
pub proof fn lemma_totals_ignore_order(
    first: Seq<RewardEntry>,
    second: Seq<RewardEntry>,
    principal: Seq<u8>,
)
    requires
        first.to_multiset() == second.to_multiset(),
    ensures
        summarize(first).dom().contains(principal) == summarize(second).dom().contains(principal),
        summarize(first).dom().contains(principal) ==> summarize(first)[principal].total_reward_e8s
            == summarize(second)[principal].total_reward_e8s && summarize(
            first,
        )[principal].total_reward_xdr_e12 == summarize(second)[principal].total_reward_xdr_e12,
{
    broadcast use vstd::seq_lib::group_to_multiset_ensures;

    lemma_totals_are_sums(first, principal);
    lemma_totals_are_sums(second, principal);
    vstd::seq_lib::lemma_fold_left_permutation(first, second, add_amount(principal), 0int);
    vstd::seq_lib::lemma_fold_left_permutation(first, second, add_converted(principal), 0int);
    if is_paid(first, principal) {
        let i = choose|i: int| 0 <= i < first.len() && (#[trigger] first[i]).principal == principal;
        assert(first.to_multiset().count(first[i]) > 0);
        assert(second.contains(first[i]));
        let j = choose|j: int| 0 <= j < second.len() && second[j] == first[i];
        assert(second[j].principal == principal);
    }
    if is_paid(second, principal) {
        let i = choose|i: int|
            0 <= i < second.len() && (#[trigger] second[i]).principal == principal;
        assert(second.to_multiset().count(second[i]) > 0);
        assert(first.contains(second[i]));
        let j = choose|j: int| 0 <= j < first.len() && first[j] == second[i];
        assert(first[j].principal == principal);
    }
}

/// Payment `i` is the principal's latest: it is for the principal, none of
/// the principal's payments has a later month, and of those with the same
/// month it is the first.
pub open spec fn is_latest(entries: Seq<RewardEntry>, principal: Seq<u8>, i: int) -> bool {
    &&& 0 <= i < entries.len()
    &&& entries[i].principal == principal
    &&& forall|j: int|
        0 <= j < entries.len() && (#[trigger] entries[j]).principal == principal ==> {
            &&& entries[j].timestamp <= entries[i].timestamp
            &&& j < i ==> entries[j].timestamp < entries[i].timestamp
        }
}

/// The most recent month, amount and converted amount of a principal are
/// those of its latest payment: the one that [`is_latest`] singles out, whose
/// index is returned.
pub proof fn lemma_most_recent_is_latest(entries: Seq<RewardEntry>, principal: Seq<u8>) -> (i: int)
    requires
        is_paid(entries, principal),
    ensures
        is_latest(entries, principal, i),
        summarize(entries)[principal].most_recent_timestamp == Some(entries[i].timestamp),
        summarize(entries)[principal].most_recent_reward_e8s == Some(entries[i].amount_e8s),
        summarize(entries)[principal].most_recent_reward_xdr_e12 == Some(
            converted(entries[i]) as u128,
        ),
    decreases entries.len(),
{
    let before = entries.drop_last();
    let e = entries.last();
    let n = entries.len() - 1;
    lemma_totals_are_sums(before, principal);
    lemma_totals_are_sums(entries, principal);
    if is_paid(before, principal) {
        let k = lemma_most_recent_is_latest(before, principal);
        assert(before[k] == entries[k]);
        if e.principal == principal && e.timestamp > before[k].timestamp {
            assert forall|j: int|
                0 <= j < entries.len() && (#[trigger] entries[j]).principal
                    == principal implies entries[j].timestamp <= e.timestamp && (j < n
                ==> entries[j].timestamp < e.timestamp) by {
                if j < n {
                    assert(before[j] == entries[j]);
                }
            }
            n
        } else {
            assert forall|j: int|
                0 <= j < entries.len() && (#[trigger] entries[j]).principal
                    == principal implies entries[j].timestamp <= entries[k].timestamp && (j < k
                ==> entries[j].timestamp < entries[k].timestamp) by {
                if j < n {
                    assert(before[j] == entries[j]);
                }
            }
            k
        }
    } else {
        let w = choose|w: int|
            0 <= w < entries.len() && (#[trigger] entries[w]).principal == principal;
        if w < n {
            assert(before[w].principal == principal);
        }
        assert forall|j: int|
            0 <= j < entries.len() && (#[trigger] entries[j]).principal
                == principal implies entries[j].timestamp <= e.timestamp && (j < n
            ==> entries[j].timestamp < e.timestamp) by {
            if j < n {
                assert(before[j].principal == principal);
            }
        }
        n
    }
}

/// The payout accounts of `principal` other than `default_account`, each
/// once, in the order in which the payments first name them.
pub open spec fn alternate_accounts(
    entries: Seq<RewardEntry>,
    principal: Seq<u8>,
    default_account: Seq<u8>,
) -> Seq<Seq<u8>>
    decreases entries.len(),
{
    if entries.len() == 0 {
        Seq::empty()
    } else {
        let before = alternate_accounts(entries.drop_last(), principal, default_account);
        let e = entries.last();
        if names_alternate(e, principal, default_account) && !before.contains(
            e.payout_account->0,
        ) {
            before.push(e.payout_account->0)
        } else {
            before
        }
    }
}

/// A payment names an alternate account when it is for `principal` and is
/// paid to an account other than `default_account`.
pub open spec fn names_alternate(e: RewardEntry, principal: Seq<u8>, default_account: Seq<u8>) -> bool {
    &&& e.principal == principal
    &&& e.payout_account matches Some(account)
    &&& account != default_account
}

/// The alternate accounts hold no account twice, and hold exactly the
/// accounts that some payment names as an alternate.
pub proof fn lemma_alternate_accounts(
    entries: Seq<RewardEntry>,
    principal: Seq<u8>,
    default_account: Seq<u8>,
)
    ensures
        alternate_accounts(entries, principal, default_account).no_duplicates(),
        forall|account: Seq<u8>|
            alternate_accounts(entries, principal, default_account).contains(account) <==> exists|
                i: int,
            |
                0 <= i < entries.len() && names_alternate(
                    #[trigger] entries[i],
                    principal,
                    default_account,
                ) && entries[i].payout_account == Some(account),
        !alternate_accounts(entries, principal, default_account).contains(default_account),
    decreases entries.len(),
{
    let all = alternate_accounts(entries, principal, default_account);
    if entries.len() > 0 {
        let before_entries = entries.drop_last();
        let before = alternate_accounts(before_entries, principal, default_account);
        let e = entries.last();
        let n = entries.len() - 1;
        lemma_alternate_accounts(before_entries, principal, default_account);
        assert forall|account: Seq<u8>| all.contains(account) <==> exists|i: int|
            0 <= i < entries.len() && names_alternate(
                #[trigger] entries[i],
                principal,
                default_account,
            ) && entries[i].payout_account == Some(account) by {
            if all.contains(account) {
                let k = choose|k: int| 0 <= k < all.len() && all[k] == account;
                if k < before.len() {
                    assert(before[k] == account);
                    assert(before.contains(account));
                    let i = choose|i: int|
                        0 <= i < before_entries.len() && names_alternate(
                            #[trigger] before_entries[i],
                            principal,
                            default_account,
                        ) && before_entries[i].payout_account == Some(account);
                    assert(entries[i] == before_entries[i]);
                } else {
                    assert(entries[n] == e);
                }
            }
            if exists|i: int|
                0 <= i < entries.len() && names_alternate(
                    #[trigger] entries[i],
                    principal,
                    default_account,
                ) && entries[i].payout_account == Some(account) {
                let i = choose|i: int|
                    0 <= i < entries.len() && names_alternate(
                        #[trigger] entries[i],
                        principal,
                        default_account,
                    ) && entries[i].payout_account == Some(account);
                if i < n {
                    assert(before_entries[i] == entries[i]);
                    assert(before.contains(account));
                    let k = choose|k: int| 0 <= k < before.len() && before[k] == account;
                    assert(all[k] == account);
                } else {
                    if before.contains(account) {
                        let k = choose|k: int| 0 <= k < before.len() && before[k] == account;
                        assert(all[k] == account);
                    } else {
                        assert(all[before.len() as int] == account);
                    }
                }
            }
        }
    }
}

/// The alternate accounts in a principal's row are, as hex text, the ones
/// that [`alternate_accounts`] lists for the principal and its default
/// account, in the same order.
pub proof fn lemma_alternates_in_summary(entries: Seq<RewardEntry>, principal: Seq<u8>)
    requires
        is_paid(entries, principal),
    ensures
        summarize(entries).dom().contains(principal),
        summarize(entries)[principal].alternate_accounts == encoded_rows(
            alternate_accounts(entries, principal, default_account(principal)),
        ),
    decreases entries.len(),
{
    let default = default_account(principal);
    let before = entries.drop_last();
    let e = entries.last();
    let n = entries.len() - 1;
    let listed = alternate_accounts(before, principal, default);
    lemma_totals_are_sums(before, principal);
    lemma_totals_are_sums(entries, principal);
    lemma_alternate_accounts(before, principal, default);
    if is_paid(before, principal) {
        lemma_alternates_in_summary(before, principal);
        if e.principal == principal && is_alternate(e) {
            let account = e.payout_account->0;
            let known = summarize(before)[principal].alternate_accounts;
            if known.contains(encoded_text(account)) {
                let k = choose|k: int| 0 <= k < known.len() && known[k] == encoded_text(account);
                lemma_encoded_text_injective(listed[k], account);
                assert(listed.contains(account));
            }
            if listed.contains(account) {
                let k = choose|k: int| 0 <= k < listed.len() && listed[k] == account;
                assert(known[k] == encoded_text(account));
            } else {
                assert(encoded_rows(listed.push(account)) =~= encoded_rows(listed).push(
                    encoded_text(account),
                ));
            }
        }
    } else {
        assert(e.principal == principal) by {
            let w = choose|w: int|
                0 <= w < entries.len() && (#[trigger] entries[w]).principal == principal;
            if w < n {
                assert(before[w].principal == principal);
            }
        }
        assert(listed.len() == 0) by {
            if listed.len() > 0 {
                assert(listed.contains(listed[0]));
                let i = choose|i: int|
                    0 <= i < before.len() && names_alternate(
                        #[trigger] before[i],
                        principal,
                        default,
                    ) && before[i].payout_account == Some(listed[0]);
                assert(before[i].principal == principal);
            }
        }
        assert(encoded_rows(listed) =~= Seq::<Seq<char>>::empty());
        if is_alternate(e) {
            let account = e.payout_account->0;
            assert(encoded_rows(listed.push(account)) =~= encoded_rows(listed).push(
                encoded_text(account),
            ));
        }
    }
}

/// The byte strings of a list, as plain values.
pub open spec fn byte_rows(rows: Seq<Vec<u8>>) -> Seq<Seq<u8>> {
    Seq::new(rows.len(), |i: int| rows[i]@)
}

/// The texts of a list, as plain values.
pub open spec fn text_rows(rows: Seq<String>) -> Seq<Seq<char>> {
    Seq::new(rows.len(), |i: int| rows[i]@)
}

/// The hex texts of a list of byte strings.
pub open spec fn encoded_rows(rows: Seq<Seq<u8>>) -> Seq<Seq<char>> {
    Seq::new(rows.len(), |i: int| encoded_text(rows[i]))
}

/// Whether `account` is among `rows`.
fn holds_account(rows: &Vec<Vec<u8>>, account: &[u8]) -> (found: bool)
    ensures
        found == byte_rows(rows@).contains(account@),
{
    let mut i: usize = 0;
    while i < rows.len()
        invariant
            i <= rows@.len(),
            forall|k: int| 0 <= k < i ==> byte_rows(rows@)[k] != account@,
        decreases rows.len() - i,
    {
        if bytes_equal(rows[i].as_slice(), account) {
            assert(byte_rows(rows@)[i as int] == account@);
            return true;
        }
        i += 1;
    }
    false
}

/// A copy of `bytes`.
fn copy_bytes(bytes: &[u8]) -> (copy: Vec<u8>)
    ensures
        copy@ == bytes@,
{
    let mut copy: Vec<u8> = Vec::new();
    crate::account::append_bytes(&mut copy, bytes);
    assert(copy@ =~= bytes@);
    copy
}

/// The accounts, other than the principal's own default account, to which the
/// principal's rewards were paid: each once, as lower-case hex text, in the
/// order in which the rewards first name them. The default account is the one
/// derived from the principal with no subaccount.
pub fn get_accounts_from_rewards(
    principal: Principal,
    rewards: ListNodeProviderRewardsResponse,
) -> (accounts: Vec<String>)
    ensures
        text_rows(accounts@) == encoded_rows(
            alternate_accounts(
                response_entries(rewards),
                principal@,
                account_id_bytes(principal@, default_subaccount()),
            ),
        ),
{
    let default_account: [u8; 32] = principal_to_account_id(&principal, None);
    let ghost default_bytes = account_id_bytes(principal@, default_subaccount());
    let mut found: Vec<Vec<u8>> = Vec::new();
    let mut m: usize = 0;
    assert(byte_rows(found@) =~= Seq::<Seq<u8>>::empty());
    while m < rewards.rewards.len()
        invariant
            m <= rewards.rewards@.len(),
            default_account@ == default_bytes,
            byte_rows(found@) == alternate_accounts(
                entries_upto(rewards, m as int),
                principal@,
                default_bytes,
            ),
        decreases rewards.rewards.len() - m,
    {
        let month: &MonthlyNodeProviderRewards = &rewards.rewards[m];
        let ghost earlier = entries_upto(rewards, m as int);
        let mut j: usize = 0;
        assert(earlier + month_entries(*month, 0) =~= earlier);
        while j < month.rewards.len()
            invariant
                j <= month.rewards@.len(),
                m < rewards.rewards@.len(),
                *month == rewards.rewards@[m as int],
                default_account@ == default_bytes,
                earlier == entries_upto(rewards, m as int),
                byte_rows(found@) == alternate_accounts(
                    earlier + month_entries(*month, j as int),
                    principal@,
                    default_bytes,
                ),
            decreases month.rewards.len() - j,
        {
            let reward: &RewardNodeProvider = &month.rewards[j];
            let ghost seen = earlier + month_entries(*month, j as int);
            let ghost rows_before = byte_rows(found@);
            match &reward.node_provider {
                Some(provider) => match &provider.id {
                    Some(id) => {
                        let ghost e = entry_at(*month, *reward)->0;
                        proof {
                            assert(month_entries(*month, j + 1) == month_entries(
                                *month,
                                j as int,
                            ).push(e));
                            assert(earlier + month_entries(*month, j + 1) =~= seen.push(e));
                            assert(seen.push(e).drop_last() =~= seen);
                        }
                        if id.same_as(&principal) {
                            match payout_of(reward) {
                                Some(account) => {
                                    if !bytes_equal(account, default_account.as_slice())
                                        && !holds_account(&found, account) {
                                        found.push(copy_bytes(account));
                                        assert(byte_rows(found@) =~= rows_before.push(account@));
                                    }
                                },
                                None => {},
                            }
                        }
                    },
                    None => {
                        assert(month_entries(*month, j + 1) == month_entries(*month, j as int));
                    },
                },
                None => {
                    assert(month_entries(*month, j + 1) == month_entries(*month, j as int));
                },
            }
            j += 1;
        }
        m += 1;
    }
    let mut accounts: Vec<String> = Vec::new();
    let mut k: usize = 0;
    while k < found.len()
        invariant
            k <= found@.len(),
            accounts@.len() == k,
            forall|i: int| 0 <= i < k ==> accounts@[i]@ == encoded_text(found@[i]@),
        decreases found.len() - k,
    {
        accounts.push(encode(found[k].as_slice()));
        k += 1;
    }
    assert(text_rows(accounts@) =~= encoded_rows(byte_rows(found@)));
    accounts
}

} // verus!
