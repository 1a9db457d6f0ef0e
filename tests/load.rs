use reward_campaign::campaign::{AccountId, Campaign, Contributer, ContributerRecord, InputFile};
use reward_campaign::decimal::parse_balance;
use reward_campaign::error::LoadError;

fn account(n: u8) -> AccountId {
    AccountId { bytes: [n; 32] }
}

fn input(denominator: u32, starts_from: u32, ends_at: u32) -> InputFile {
    InputFile {
        campaign: Campaign {
            campaign_id: 3,
            instant_percentage: (1, denominator),
            starts_from,
            ends_at,
            hoster: account(9),
            contributers: Vec::new(),
        },
        contributers_file: "contributers.json".to_string(),
    }
}

fn record(n: u8, amount: &str) -> ContributerRecord {
    ContributerRecord { who: account(n), contributed: amount.to_string() }
}

#[test]
fn missing_contributor_file_is_load_error() {
    let res = input(2, 1, 5).process(Err(LoadError::FileNotFound));
    assert_eq!(res, Err(LoadError::FileNotFound));
}

#[test]
fn zero_contributors_fail_fast() {
    assert_eq!(input(2, 1, 5).process(Ok(Vec::new())), Err(LoadError::NoContributors));
}

#[test]
fn loads_contributors_in_order() {
    let campaign = input(2, 1, 5)
        .process(Ok(vec![record(1, "100"), record(2, "+200"), record(3, "0700")]))
        .unwrap();
    assert_eq!(campaign.campaign_id, 3);
    assert_eq!(campaign.instant_percentage, (1, 2));
    assert_eq!(campaign.hoster, account(9));
    assert_eq!(
        campaign.contributers,
        vec![
            Contributer::new(account(1), 100),
            Contributer::new(account(2), 200),
            Contributer::new(account(3), 700),
        ]
    );
}

#[test]
fn unparseable_amount_is_invalid_number() {
    for bad in ["", "+", "12a", "-5", " 1", "1.5", "340282366920938463463374607431768211456"] {
        let res = input(2, 1, 5).process(Ok(vec![record(1, "10"), record(2, bad)]));
        assert_eq!(res, Err(LoadError::InvalidNumber), "{bad:?}");
    }
}

#[test]
fn parses_decimal_amounts() {
    assert_eq!(parse_balance("0"), Ok(0));
    assert_eq!(parse_balance("+42"), Ok(42));
    assert_eq!(parse_balance("340282366920938463463374607431768211455"), Ok(u128::MAX));
    assert_eq!(parse_balance("99999999999999999999999999999999999999999"), Err(LoadError::InvalidNumber));
}

#[test]
fn descriptor_rules_are_malformed_errors() {
    let one = || Ok(vec![record(1, "1")]);
    assert_eq!(input(0, 1, 5).process(one()), Err(LoadError::Malformed));
    assert_eq!(input(2, 6, 5).process(one()), Err(LoadError::Malformed));
    assert!(input(2, 5, 5).process(one()).is_ok());
}

#[test]
fn total_beyond_128_bits_is_refused() {
    let res = input(2, 1, 5).process(Ok(vec![
        record(1, "340282366920938463463374607431768211455"),
        record(2, "1"),
    ]));
    assert_eq!(res, Err(LoadError::TotalOverflow));
}
