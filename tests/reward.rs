use reward_campaign::calls::{ContributerSubmission, CreateCampaignParams, SmallRational, StartCampaign};
use reward_campaign::campaign::{AccountId, Campaign, Contributer};
use reward_campaign::error::ArithmeticError;
use reward_campaign::reward::{DHX, REWARD_POOL};

fn account(n: u8) -> AccountId {
    AccountId { bytes: [n; 32] }
}

fn campaign_with(amounts: &[u128]) -> Campaign {
    let mut contributers = Vec::new();
    for (i, a) in amounts.iter().enumerate() {
        contributers.push(Contributer::new(account(i as u8 + 1), *a));
    }
    Campaign {
        campaign_id: 7,
        instant_percentage: (1, 4),
        starts_from: 10,
        ends_at: 1000,
        hoster: account(99),
        contributers,
    }
}

fn amounts_of(calls: &[ContributerSubmission]) -> Vec<u128> {
    calls.iter().map(|c| c.amount).collect()
}

#[test]
fn pool_is_three_hundred_thousand_dhx() {
    assert_eq!(DHX, 1_000_000_000_000_000_000);
    assert_eq!(REWARD_POOL, 300_000_000_000_000_000_000_000);
}

#[test]
fn proportional_split_of_one_to_two_to_seven() {
    let campaign = campaign_with(&[100, 200, 700]);
    assert_eq!(campaign.total_raised(), Ok(1000));
    let calls = campaign.populate_contributer().unwrap();
    assert_eq!(
        amounts_of(&calls),
        vec![REWARD_POOL / 10, REWARD_POOL / 5, REWARD_POOL / 10 * 7]
    );
    assert_eq!(
        calls[1],
        ContributerSubmission { campaign_id: 7, who: account(2), amount: 60_000 * DHX }
    );
}

#[test]
fn sole_contributor_receives_whole_pool_at_full_range() {
    let c = Contributer::new(account(1), u128::MAX);
    assert_eq!(c.reward_amount(u128::MAX), Ok(REWARD_POOL));
    let small = Contributer::new(account(1), 1);
    assert_eq!(small.reward_amount(1), Ok(REWARD_POOL));
}

#[test]
fn large_amounts_do_not_overflow() {
    let c = Contributer::new(account(1), u128::MAX / 2);
    assert_eq!(c.reward_amount(u128::MAX), Ok(REWARD_POOL / 2 - 1));
}

#[test]
fn reward_is_floor_of_share() {
    let c = Contributer::new(account(1), 1);
    assert_eq!(c.reward_amount(3), Ok(100_000_000_000_000_000_000_000));
    let d = Contributer::new(account(1), 2);
    assert_eq!(d.reward_amount(7), Ok(85_714_285_714_285_714_285_714));
}

#[test]
fn rewards_leave_remainder_within_pool() {
    let campaign = campaign_with(&[1, 1, 1]);
    let amounts = amounts_of(&campaign.populate_contributer().unwrap());
    assert_eq!(amounts, vec![REWARD_POOL / 3; 3]);
    let sum: u128 = amounts.iter().sum();
    assert!(sum <= REWARD_POOL);
    let uneven = campaign_with(&[3, 5, 11, 13]);
    let sum2: u128 = amounts_of(&uneven.populate_contributer().unwrap()).iter().sum();
    assert!(sum2 <= REWARD_POOL);
}

#[test]
fn raising_an_amount_never_lowers_its_reward() {
    let before = campaign_with(&[100, 200, 700]);
    let after = campaign_with(&[500, 200, 700]);
    let r0 = before.populate_contributer().unwrap()[0].amount;
    let r1 = after.populate_contributer().unwrap()[0].amount;
    assert!(r1 >= r0);
    assert_eq!(r1, 107_142_857_142_857_142_857_142);
}

#[test]
fn zero_total_is_division_by_zero() {
    let c = Contributer::new(account(1), 5);
    assert_eq!(c.reward_amount(0), Err(ArithmeticError::DivisionByZero));
    assert_eq!(campaign_with(&[]).populate_contributer(), Err(ArithmeticError::DivisionByZero));
    assert_eq!(campaign_with(&[0, 0]).populate_contributer(), Err(ArithmeticError::DivisionByZero));
}

#[test]
fn result_beyond_128_bits_is_overflow() {
    let c = Contributer::new(account(1), u128::MAX);
    assert_eq!(c.reward_amount(1), Err(ArithmeticError::Overflow));
}

#[test]
fn total_beyond_128_bits_is_overflow() {
    let campaign = campaign_with(&[u128::MAX, 1]);
    assert_eq!(campaign.total_raised(), Err(ArithmeticError::Overflow));
    assert_eq!(campaign.populate_contributer(), Err(ArithmeticError::Overflow));
}

#[test]
fn create_carries_descriptor_fields() {
    let campaign = campaign_with(&[1]);
    assert_eq!(
        campaign.create(),
        StartCampaign {
            campaign_id: 7,
            params: CreateCampaignParams {
                hoster: Some(account(99)),
                instant_percentage: SmallRational { numenator: 1, denomator: 4 },
                starts_from: Some(10),
                end_target: 1000,
            },
        }
    );
}
