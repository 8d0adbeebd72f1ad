use np_tool::account::principal_to_account_id;
use np_tool::hex_text::{decode, encode};
use np_tool::principal::Principal;
use np_tool::rewards::{
    get_accounts_from_rewards, payout_of, process_rewards_data, rate_of, GovAccountIdentifier,
    ListNodeProviderRewardsResponse, MonthlyNodeProviderRewards, NodeProviderReward,
    ProviderRewardInfo, RewardMode, RewardNodeProvider, RewardTable, RewardToAccount,
    RewardToNeuron, XdrConversionRate,
};

const GOVERNANCE_ACCOUNT: &str = "082ecf2e3f647ac600f43f38a68342fba5b8e68b085f02592b77f39808a8d2b5";
const ANONYMOUS_ACCOUNT: &str = "1c7a48ba6a562aa9eaa2481a9049cdf0433b9738c992d698c31d8abf89cadc79";
const MANAGEMENT_ACCOUNT: &str = "2d0e897f7e862d2b57d9bc9ea5c65f9a24ac6c074575f47898314b8d6cb0929d";

fn principal(text: &str) -> Principal {
    Principal::from_text(text).unwrap()
}

fn account(hex: &str) -> GovAccountIdentifier {
    GovAccountIdentifier { hash: decode(hex).unwrap() }
}

fn reward(
    id: Option<&str>,
    reward_account: Option<&str>,
    to_account: Option<Option<&str>>,
    amount_e8s: u64,
) -> RewardNodeProvider {
    RewardNodeProvider {
        node_provider: Some(NodeProviderReward {
            id: id.map(principal),
            reward_account: reward_account.map(account),
        }),
        reward_mode: to_account.map(|a| {
            RewardMode::RewardToAccount(RewardToAccount { to_account: a.map(account) })
        }),
        amount_e8s,
    }
}

fn month(timestamp: u64, rate: Option<u64>, rewards: Vec<RewardNodeProvider>) -> MonthlyNodeProviderRewards {
    MonthlyNodeProviderRewards {
        timestamp,
        rewards,
        xdr_conversion_rate: rate.map(|r| XdrConversionRate {
            xdr_permyriad_per_icp: Some(r),
            timestamp_seconds: Some(timestamp),
        }),
        node_providers: vec![],
        registry_version: None,
        minimum_xdr_permyriad_per_icp: None,
        maximum_node_provider_rewards_e8s: None,
    }
}

fn response(months: Vec<MonthlyNodeProviderRewards>) -> ListNodeProviderRewardsResponse {
    ListNodeProviderRewardsResponse { rewards: months }
}

const FIRST_PROVIDER: &str = "rrkah-fqaaa-aaaaa-aaaaq-cai";
const SECOND_PROVIDER: &str = "ryjl3-tyaaa-aaaaa-aaaba-cai";

#[test]
fn no_rewards_no_rows() {
    let table = process_rewards_data(response(vec![]));
    assert_eq!(table.len(), 0);
    assert!(table.get(&principal(FIRST_PROVIDER)).is_none());
    let table = process_rewards_data(response(vec![month(5, None, vec![])]));
    assert_eq!(table.len(), 0);
}

#[test]
fn later_month_is_the_most_recent() {
    let table = process_rewards_data(response(vec![
        month(100, Some(30000), vec![reward(Some(FIRST_PROVIDER), None, None, 700)]),
        month(200, Some(40000), vec![reward(Some(FIRST_PROVIDER), None, None, 900)]),
    ]));
    let info = table.get(&principal(FIRST_PROVIDER)).unwrap();
    assert_eq!(info.most_recent_timestamp, Some(200));
    assert_eq!(info.most_recent_reward_e8s, Some(900));
    assert_eq!(info.most_recent_reward_xdr_e12, Some(900 * 40000));
    assert_eq!(info.total_reward_e8s, 1600);
    assert_eq!(info.total_reward_xdr_e12, 700 * 30000 + 900 * 40000);
}

#[test]
fn order_of_months_does_not_change_the_outcome() {
    let table = process_rewards_data(response(vec![
        month(200, Some(40000), vec![reward(Some(FIRST_PROVIDER), None, None, 900)]),
        month(100, Some(30000), vec![reward(Some(FIRST_PROVIDER), None, None, 700)]),
        month(150, Some(10000), vec![reward(Some(FIRST_PROVIDER), None, None, 1)]),
    ]));
    let info = table.get(&principal(FIRST_PROVIDER)).unwrap();
    assert_eq!(info.most_recent_timestamp, Some(200));
    assert_eq!(info.most_recent_reward_e8s, Some(900));
    assert_eq!(info.most_recent_reward_xdr_e12, Some(900 * 40000));
    assert_eq!(info.total_reward_e8s, 1601);
    assert_eq!(info.total_reward_xdr_e12, 700 * 30000 + 900 * 40000 + 10000);
}

#[test]
fn totals_are_the_same_in_every_order() {
    let amounts: [(u64, u64); 4] = [(100, 11), (200, 22), (50, 33), (200, 44)];
    let orders: [[usize; 4]; 4] = [[0, 1, 2, 3], [3, 2, 1, 0], [1, 3, 0, 2], [2, 0, 3, 1]];
    for order in orders {
        let months = order
            .iter()
            .map(|&i| month(amounts[i].0, Some(10000), vec![reward(Some(FIRST_PROVIDER), None, None, amounts[i].1)]))
            .collect();
        let table = process_rewards_data(response(months));
        let info = table.get(&principal(FIRST_PROVIDER)).unwrap();
        assert_eq!(info.total_reward_e8s, 110);
        assert_eq!(info.total_reward_xdr_e12, 1_100_000);
        assert_eq!(info.most_recent_timestamp, Some(200));
    }
}

#[test]
fn equal_months_keep_the_first_seen() {
    let table = process_rewards_data(response(vec![
        month(200, Some(10000), vec![reward(Some(FIRST_PROVIDER), None, None, 22)]),
        month(200, Some(10000), vec![reward(Some(FIRST_PROVIDER), None, None, 44)]),
    ]));
    let info = table.get(&principal(FIRST_PROVIDER)).unwrap();
    assert_eq!(info.most_recent_timestamp, Some(200));
    assert_eq!(info.most_recent_reward_e8s, Some(22));
    assert_eq!(info.total_reward_e8s, 66);
}

#[test]
fn each_principal_has_its_own_row() {
    let table = process_rewards_data(response(vec![
        month(
            100,
            Some(10000),
            vec![
                reward(Some(FIRST_PROVIDER), None, None, 5),
                reward(Some(SECOND_PROVIDER), None, None, 7),
                reward(None, None, None, 1000),
            ],
        ),
        month(
            200,
            None,
            vec![reward(Some(SECOND_PROVIDER), None, None, 11), RewardNodeProvider {
                node_provider: None,
                reward_mode: None,
                amount_e8s: 99,
            }],
        ),
    ]));
    assert_eq!(table.len(), 2);
    assert!(table.row(0).principal.same_as(&principal(FIRST_PROVIDER)));
    assert!(table.row(1).principal.same_as(&principal(SECOND_PROVIDER)));
    let one = table.get(&principal(FIRST_PROVIDER)).unwrap();
    assert_eq!(one.total_reward_e8s, 5);
    assert_eq!(one.most_recent_timestamp, Some(100));
    let two = table.get(&principal(SECOND_PROVIDER)).unwrap();
    assert_eq!(two.total_reward_e8s, 18);
    assert_eq!(two.most_recent_timestamp, Some(200));
    assert_eq!(two.most_recent_reward_e8s, Some(11));
    assert_eq!(two.most_recent_reward_xdr_e12, Some(0));
    assert_eq!(two.total_reward_xdr_e12, 70000);
    assert!(table.get(&principal("aaaaa-aa")).is_none());
    assert_eq!(&table.row(1).info, two);
}

#[test]
fn month_without_a_rate_converts_to_nothing() {
    assert_eq!(rate_of(&month(1, None, vec![])), 0);
    assert_eq!(rate_of(&month(1, Some(31234), vec![])), 31234);
    let mut m = month(1, Some(5), vec![]);
    m.xdr_conversion_rate = Some(XdrConversionRate { xdr_permyriad_per_icp: None, timestamp_seconds: Some(1) });
    assert_eq!(rate_of(&m), 0);
}

#[test]
fn account_on_the_record_comes_before_the_mode() {
    let r = reward(Some(FIRST_PROVIDER), Some(GOVERNANCE_ACCOUNT), Some(Some(ANONYMOUS_ACCOUNT)), 1);
    assert_eq!(payout_of(&r).unwrap(), &decode(GOVERNANCE_ACCOUNT).unwrap()[..]);
    let r = reward(Some(FIRST_PROVIDER), None, Some(Some(ANONYMOUS_ACCOUNT)), 1);
    assert_eq!(payout_of(&r).unwrap(), &decode(ANONYMOUS_ACCOUNT).unwrap()[..]);
    let r = reward(Some(FIRST_PROVIDER), None, Some(None), 1);
    assert!(payout_of(&r).is_none());
    let r = reward(Some(FIRST_PROVIDER), None, None, 1);
    assert!(payout_of(&r).is_none());
    let r = RewardNodeProvider {
        node_provider: Some(NodeProviderReward { id: None, reward_account: None }),
        reward_mode: Some(RewardMode::RewardToNeuron(RewardToNeuron { dissolve_delay_seconds: 3 })),
        amount_e8s: 1,
    };
    assert!(payout_of(&r).is_none());
    let r = RewardNodeProvider {
        node_provider: None,
        reward_mode: Some(RewardMode::RewardToAccount(RewardToAccount {
            to_account: Some(account(ANONYMOUS_ACCOUNT)),
        })),
        amount_e8s: 1,
    };
    assert_eq!(payout_of(&r).unwrap(), &decode(ANONYMOUS_ACCOUNT).unwrap()[..]);
}

#[test]
fn first_payment_sets_the_account_texts() {
    let table = process_rewards_data(response(vec![month(
        100,
        Some(10000),
        vec![reward(Some(FIRST_PROVIDER), Some(ANONYMOUS_ACCOUNT), None, 5)],
    )]));
    let info = table.get(&principal(FIRST_PROVIDER)).unwrap();
    assert_eq!(info.reward_account_hex.as_deref(), Some(ANONYMOUS_ACCOUNT));
    assert_eq!(info.reward_account_formatted.as_deref(), Some(ANONYMOUS_ACCOUNT));
    assert_eq!(
        info.reward_account_dashboard_link.clone().unwrap(),
        format!("https://dashboard.internetcomputer.org/account/{}", ANONYMOUS_ACCOUNT)
    );
    assert_eq!(info.total_mint_rewards_e8s, None);
    assert_eq!(info.mint_transaction_count, None);
    assert_eq!(info.first_mint_timestamp, None);
    assert_eq!(info.last_mint_timestamp, None);
}

#[test]
fn account_changes_only_with_a_newer_payment_that_names_one() {
    let table = process_rewards_data(response(vec![
        month(100, None, vec![reward(Some(FIRST_PROVIDER), Some(ANONYMOUS_ACCOUNT), None, 5)]),
        month(50, None, vec![reward(Some(FIRST_PROVIDER), Some(MANAGEMENT_ACCOUNT), None, 5)]),
    ]));
    let info = table.get(&principal(FIRST_PROVIDER)).unwrap();
    assert_eq!(info.reward_account_formatted.as_deref(), Some(ANONYMOUS_ACCOUNT));

    let table = process_rewards_data(response(vec![
        month(100, None, vec![reward(Some(FIRST_PROVIDER), Some(ANONYMOUS_ACCOUNT), None, 5)]),
        month(150, None, vec![reward(Some(FIRST_PROVIDER), None, None, 6)]),
    ]));
    let info = table.get(&principal(FIRST_PROVIDER)).unwrap();
    assert_eq!(info.reward_account_formatted.as_deref(), Some(ANONYMOUS_ACCOUNT));
    assert_eq!(info.most_recent_reward_e8s, Some(6));

    let table = process_rewards_data(response(vec![
        month(100, None, vec![reward(Some(FIRST_PROVIDER), Some(ANONYMOUS_ACCOUNT), None, 5)]),
        month(150, None, vec![reward(Some(FIRST_PROVIDER), None, Some(Some(MANAGEMENT_ACCOUNT)), 6)]),
    ]));
    let info = table.get(&principal(FIRST_PROVIDER)).unwrap();
    assert_eq!(info.reward_account_hex.as_deref(), Some(MANAGEMENT_ACCOUNT));
    assert_eq!(info.reward_account_formatted.as_deref(), Some(MANAGEMENT_ACCOUNT));
}

#[test]
fn account_that_is_no_identifier_is_kept_as_it_came() {
    let table = process_rewards_data(response(vec![month(
        100,
        None,
        vec![RewardNodeProvider {
            node_provider: Some(NodeProviderReward {
                id: Some(principal(FIRST_PROVIDER)),
                reward_account: Some(GovAccountIdentifier { hash: vec![1, 2, 3] }),
            }),
            reward_mode: None,
            amount_e8s: 5,
        }],
    )]));
    let info = table.get(&principal(FIRST_PROVIDER)).unwrap();
    assert_eq!(info.reward_account_hex.as_deref(), Some("010203"));
    assert_eq!(info.reward_account_formatted, None);
    assert_eq!(info.reward_account_dashboard_link, None);
}

#[test]
fn bare_digest_account_is_made_canonical() {
    let table = process_rewards_data(response(vec![month(
        100,
        None,
        vec![reward(Some(FIRST_PROVIDER), Some(&ANONYMOUS_ACCOUNT[8..]), None, 5)],
    )]));
    let info = table.get(&principal(FIRST_PROVIDER)).unwrap();
    assert_eq!(info.reward_account_hex.as_deref(), Some(&ANONYMOUS_ACCOUNT[8..]));
    assert_eq!(info.reward_account_formatted.as_deref(), Some(ANONYMOUS_ACCOUNT));
}

#[test]
fn totals_stop_at_the_largest_number() {
    let table = process_rewards_data(response(vec![
        month(1, Some(u64::MAX), vec![reward(Some(FIRST_PROVIDER), None, None, u64::MAX)]),
        month(2, Some(u64::MAX), vec![reward(Some(FIRST_PROVIDER), None, None, u64::MAX)]),
    ]));
    let info = table.get(&principal(FIRST_PROVIDER)).unwrap();
    assert_eq!(info.total_reward_e8s, 2 * (u64::MAX as u128));
    assert_eq!(info.total_reward_xdr_e12, u128::MAX);
    assert_eq!(info.most_recent_reward_xdr_e12, Some((u64::MAX as u128) * (u64::MAX as u128)));
}

#[test]
fn payments_are_recorded_one_by_one() {
    let mut table = RewardTable::new();
    let p = principal(FIRST_PROVIDER);
    table.record(&p, 10, 3, 10000, None);
    table.record(&p, 20, 4, 20000, Some(&decode(ANONYMOUS_ACCOUNT).unwrap()));
    table.record(&principal(SECOND_PROVIDER), 5, 1, 0, None);
    assert_eq!(table.len(), 2);
    let info = table.get(&p).unwrap();
    assert_eq!(info.total_reward_e8s, 7);
    assert_eq!(info.total_reward_xdr_e12, 110000);
    assert_eq!(info.most_recent_timestamp, Some(20));
    assert_eq!(info.reward_account_formatted.as_deref(), Some(ANONYMOUS_ACCOUNT));
    let first = ProviderRewardInfo::first(&p, 10, 3, 10000, None);
    assert!(first.alternate_accounts.is_empty());
    let next = first.next(&p, 20, 4, 20000, Some(&decode(ANONYMOUS_ACCOUNT).unwrap()));
    assert_eq!(&next, info);
    assert_eq!(next.alternate_accounts, vec![ANONYMOUS_ACCOUNT.to_string()]);
}

#[test]
fn alternate_accounts_are_those_other_than_the_default() {
    let p = principal(FIRST_PROVIDER);
    let default_hex = encode(&principal_to_account_id(&p, None));
    assert_eq!(default_hex, GOVERNANCE_ACCOUNT);
    let rewards = response(vec![
        month(
            1,
            None,
            vec![
                reward(Some(FIRST_PROVIDER), None, Some(Some(GOVERNANCE_ACCOUNT)), 1),
                reward(Some(FIRST_PROVIDER), None, Some(Some(ANONYMOUS_ACCOUNT)), 1),
                reward(Some(SECOND_PROVIDER), None, Some(Some(MANAGEMENT_ACCOUNT)), 1),
            ],
        ),
        month(
            2,
            None,
            vec![
                reward(Some(FIRST_PROVIDER), Some(MANAGEMENT_ACCOUNT), Some(Some(GOVERNANCE_ACCOUNT)), 1),
                reward(Some(FIRST_PROVIDER), None, Some(Some(ANONYMOUS_ACCOUNT)), 1),
                reward(Some(FIRST_PROVIDER), None, None, 1),
                reward(None, None, Some(Some(ANONYMOUS_ACCOUNT)), 1),
            ],
        ),
    ]);
    let accounts = get_accounts_from_rewards(p, rewards);
    assert_eq!(accounts, vec![ANONYMOUS_ACCOUNT.to_string(), MANAGEMENT_ACCOUNT.to_string()]);
}

#[test]
fn rows_know_their_alternate_accounts() {
    let rewards = || {
        response(vec![
            month(
                1,
                None,
                vec![
                    reward(Some(FIRST_PROVIDER), None, Some(Some(GOVERNANCE_ACCOUNT)), 1),
                    reward(Some(FIRST_PROVIDER), None, Some(Some(ANONYMOUS_ACCOUNT)), 1),
                    reward(Some(SECOND_PROVIDER), None, Some(Some(MANAGEMENT_ACCOUNT)), 1),
                ],
            ),
            month(
                2,
                None,
                vec![
                    reward(Some(FIRST_PROVIDER), Some(MANAGEMENT_ACCOUNT), None, 1),
                    reward(Some(FIRST_PROVIDER), None, Some(Some(ANONYMOUS_ACCOUNT)), 1),
                    reward(Some(SECOND_PROVIDER), None, None, 1),
                ],
            ),
        ])
    };
    let table = process_rewards_data(rewards());
    for text in [FIRST_PROVIDER, SECOND_PROVIDER] {
        let info = table.get(&principal(text)).unwrap();
        assert_eq!(info.alternate_accounts, get_accounts_from_rewards(principal(text), rewards()));
    }
    assert_eq!(
        table.get(&principal(FIRST_PROVIDER)).unwrap().alternate_accounts,
        vec![ANONYMOUS_ACCOUNT.to_string(), MANAGEMENT_ACCOUNT.to_string()]
    );
    assert_eq!(
        table.get(&principal(SECOND_PROVIDER)).unwrap().alternate_accounts,
        vec![MANAGEMENT_ACCOUNT.to_string()]
    );
}

#[test]
fn no_alternate_accounts_without_other_payouts() {
    let rewards = response(vec![month(
        1,
        None,
        vec![
            reward(Some(FIRST_PROVIDER), None, Some(Some(GOVERNANCE_ACCOUNT)), 1),
            reward(Some(FIRST_PROVIDER), None, None, 1),
            reward(Some(SECOND_PROVIDER), Some(ANONYMOUS_ACCOUNT), None, 1),
        ],
    )]);
    assert!(get_accounts_from_rewards(principal(FIRST_PROVIDER), rewards).is_empty());
    assert!(get_accounts_from_rewards(principal(FIRST_PROVIDER), response(vec![])).is_empty());
}
