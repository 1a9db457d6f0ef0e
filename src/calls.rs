//! The parameters of the two pallet calls a campaign is registered with:
//! one that starts the campaign, and one per contributor that adds it.

use crate::campaign::{AccountId, Campaign};
use crate::error::ArithmeticError;
use crate::reward::{lemma_contribution_within_total, lemma_total_nonnegative, reward_of, total_of};
use vstd::prelude::*;

verus! {

/// A fraction as the pallet encodes it.
#[derive(Clone, Copy, Debug, PartialEq, Eq)]
pub struct SmallRational {
    pub numenator: u32,
    pub denomator: u32,
}

/// The pallet's parameters for a new campaign.
#[derive(Clone, Copy, Debug, PartialEq, Eq)]
pub struct CreateCampaignParams {
    pub hoster: Option<AccountId>,
    pub instant_percentage: SmallRational,
    pub starts_from: Option<u32>,
    pub end_target: u32,
}

/// The call that starts a campaign.
#[derive(Clone, Copy, Debug, PartialEq, Eq)]
pub struct StartCampaign {
    pub campaign_id: u32,
    pub params: CreateCampaignParams,
}

/// The call that adds one contributor, with its reward, to a campaign.
#[derive(Clone, Copy, Debug, PartialEq, Eq)]
pub struct ContributerSubmission {
    pub campaign_id: u32,
    pub who: AccountId,
    pub amount: u128,
}

impl Campaign {
    /// The call that starts this campaign on chain.
    pub open spec fn start_call(&self) -> StartCampaign {
        StartCampaign {
            campaign_id: self.campaign_id,
            params: CreateCampaignParams {
                hoster: Some(self.hoster),
                instant_percentage: SmallRational {
                    numenator: self.instant_percentage.0,
                    denomator: self.instant_percentage.1,
                },
                starts_from: Some(self.starts_from),
                end_target: self.ends_at,
            },
        }
    }

    /// The call that adds contributor `i` with its reward.
    pub open spec fn add_call(&self, i: int) -> ContributerSubmission {
        ContributerSubmission {
            campaign_id: self.campaign_id,
            who: self.contributers@[i].who,
            amount: reward_of(
                self.contributers@[i].contributed as int,
                total_of(self.contributers@),
            ) as u128,
        }
    }

    /// `populate_contributer` succeeds.
    pub open spec fn populate_contributer_ok(&self) -> bool {
        0 < total_of(self.contributers@) <= u128::MAX
    }

    /// The error of `populate_contributer`, where it fails.
    pub open spec fn populate_contributer_err(&self) -> Option<ArithmeticError> {
        if total_of(self.contributers@) > u128::MAX {
            Some(ArithmeticError::Overflow)
        } else if total_of(self.contributers@) == 0 {
            Some(ArithmeticError::DivisionByZero)
        } else {
            None
        }
    }

    /// The amount raised by all contributors, if it fits in 128 bits.
    pub fn total_raised(&self) -> (res: Result<u128, ArithmeticError>)
        ensures
            res is Ok <==> total_of(self.contributers@) <= u128::MAX,
            res matches Ok(t) ==> t == total_of(self.contributers@),
            res matches Err(e) ==> e == ArithmeticError::Overflow,
    {
        let mut total: u128 = 0;
        let mut i: usize = 0;
        while i < self.contributers.len()
            invariant
                i <= self.contributers@.len(),
                total == total_of(self.contributers@.take(i as int)),
            decreases self.contributers@.len() - i,
        {
            let ghost next = self.contributers@.take(i + 1);
            assert(next.drop_last() == self.contributers@.take(i as int));
            match total.checked_add(self.contributers[i].contributed) {
                None => {
                    proof {
                        lemma_total_nonnegative(next);
                        self.lemma_prefix_total_grows(i + 1);
                    }
                    return Err(ArithmeticError::Overflow);
                },
                Some(t) => {
                    total = t;
                },
            }
            i = i + 1;
        }
        assert(self.contributers@.take(i as int) == self.contributers@);
        Ok(total)
    }

    /// The total of a prefix of the contributors is at most the total of all.
    proof fn lemma_prefix_total_grows(&self, k: int)
        requires
            0 <= k <= self.contributers@.len(),
        ensures
            total_of(self.contributers@.take(k)) <= total_of(self.contributers@),
        decreases self.contributers@.len() - k,
    {
        let cs = self.contributers@;
        if k == cs.len() {
            assert(cs.take(k) == cs);
        } else {
            self.lemma_prefix_total_grows(k + 1);
            assert(cs.take(k + 1).drop_last() == cs.take(k));
        }
    }

    /// The call that starts this campaign: its id, hoster, instant fraction,
    /// start and end blocks, as the pallet takes them.
    pub fn create(&self) -> (call: StartCampaign)
        ensures
            call == self.start_call(),
    {
        let (numenator, denomator) = self.instant_percentage;
        StartCampaign {
            campaign_id: self.campaign_id,
            params: CreateCampaignParams {
                hoster: Some(self.hoster),
                instant_percentage: SmallRational { numenator, denomator },
                starts_from: Some(self.starts_from),
                end_target: self.ends_at,
            },
        }
    }

    /// One add-contributor call per contributor, in the order of the list,
    /// each carrying that contributor's share of the pool. Fails when the
    /// total does not fit in 128 bits, or is zero (which an empty list is).
    pub fn populate_contributer(&self) -> (res: Result<Vec<ContributerSubmission>, ArithmeticError>)
        ensures
            total_of(self.contributers@) > u128::MAX ==> res == Err::<
                Vec<ContributerSubmission>,
                ArithmeticError,
            >(ArithmeticError::Overflow),
            total_of(self.contributers@) == 0 ==> res == Err::<
                Vec<ContributerSubmission>,
                ArithmeticError,
            >(ArithmeticError::DivisionByZero),
            0 < total_of(self.contributers@) <= u128::MAX ==> res is Ok,
            res matches Ok(calls) ==> calls@.len() == self.contributers@.len() && forall|i: int|
                0 <= i < calls@.len() ==> #[trigger] calls@[i] == self.add_call(i) && calls@[i].amount
                    == reward_of(
                    self.contributers@[i].contributed as int,
                    total_of(self.contributers@),
                ),
    {
        let total = match self.total_raised() {
            Err(e) => return Err(e),
            Ok(t) => t,
        };
        if total == 0 {
            return Err(ArithmeticError::DivisionByZero);
        }
        let mut calls: Vec<ContributerSubmission> = Vec::new();
        let mut i: usize = 0;
        while i < self.contributers.len()
            invariant
                i <= self.contributers@.len(),
                total == total_of(self.contributers@),
                total > 0,
                calls@.len() == i,
                forall|j: int|
                    0 <= j < i ==> #[trigger] calls@[j] == self.add_call(j) && calls@[j].amount
                        == reward_of(
                        self.contributers@[j].contributed as int,
                        total_of(self.contributers@),
                    ),
            decreases self.contributers@.len() - i,
        {
            let c = &self.contributers[i];
            proof {
                lemma_contribution_within_total(self.contributers@, i as int);
            }
            let amount = match c.reward_amount(total) {
                Ok(r) => r,
                Err(e) => return Err(e),
            };
            calls.push(ContributerSubmission { campaign_id: self.campaign_id, who: c.who, amount });
            i = i + 1;
        }
        Ok(calls)
    }
}

} // verus!
