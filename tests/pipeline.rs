use reward_campaign::calls::ContributerSubmission;
use reward_campaign::campaign::{AccountId, Campaign, Contributer};
use reward_campaign::error::ArithmeticError;
use reward_campaign::pipeline::{Pipeline, Stage, Step};
use reward_campaign::reward::REWARD_POOL;

fn account(n: u8) -> AccountId {
    AccountId { bytes: [n; 32] }
}

fn campaign() -> Campaign {
    Campaign {
        campaign_id: 11,
        instant_percentage: (1, 10),
        starts_from: 1,
        ends_at: 100,
        hoster: account(50),
        contributers: vec![
            Contributer::new(account(1), 100),
            Contributer::new(account(2), 200),
            Contributer::new(account(3), 700),
        ],
    }
}

fn add(n: u8, amount: u128) -> Step {
    Step::AddContributor(ContributerSubmission { campaign_id: 11, who: account(n), amount })
}

#[test]
fn failed_contributor_does_not_stop_the_rest() {
    let c = campaign();
    let mut p = Pipeline::new(&c).unwrap();
    assert_eq!(p.next_step(), Step::CreateCampaign(c.create()));
    p.record(true);
    assert_eq!(p.stage, Stage::CampaignCreated);
    assert_eq!(p.next_step(), add(1, REWARD_POOL / 10));
    p.record(true);
    assert_eq!(p.next_step(), add(2, REWARD_POOL / 5));
    p.record(false);
    assert_eq!(p.stage, Stage::ContributorsInFlight);
    assert_eq!(p.next_step(), add(3, REWARD_POOL / 10 * 7));
    p.record(true);
    assert_eq!(p.stage, Stage::Done);
    assert_eq!(p.next_step(), Step::Finished);
    assert_eq!(p.outcomes, vec![true, false, true]);
}

#[test]
fn failed_campaign_creation_aborts_the_run() {
    let mut p = Pipeline::new(&campaign()).unwrap();
    p.record(false);
    assert_eq!(p.stage, Stage::Aborted);
    assert_eq!(p.next_step(), Step::Aborted);
    p.record(true);
    assert_eq!(p.next_step(), Step::Aborted);
    assert!(p.outcomes.is_empty());
}

#[test]
fn run_cannot_start_without_contributors() {
    let mut c = campaign();
    c.contributers.clear();
    assert!(matches!(Pipeline::new(&c), Err(ArithmeticError::DivisionByZero)));
}
