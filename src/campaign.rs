//! The campaign as loaded from its two input files, and the on-chain call
//! parameters derived from it.

use crate::decimal::{balance_text_value, is_balance_text, parse_balance};
use crate::error::LoadError;
use crate::reward::total_of;
use vstd::prelude::*;

verus! {

/// The chain this tool talks to. Its base unit and reward pool are the
/// constants of the reward module.
#[derive(Clone, Copy, Debug, PartialEq, Eq, PartialOrd, Ord)]
pub struct DatahighwayConfig;

/// A 32-byte account identifier.
#[derive(Clone, Copy, Debug, PartialEq, Eq)]
pub struct AccountId {
    pub bytes: [u8; 32],
}

/// An account and the amount it contributed. Its reward is derived from the
/// amount and the campaign's total, never stored.
#[derive(Clone, Copy, Debug, PartialEq, Eq)]
pub struct Contributer {
    pub who: AccountId,
    pub contributed: u128,
}

impl Contributer {
    pub fn new(who: AccountId, contributed: u128) -> (c: Contributer)
        ensures
            c.who == who,
            c.contributed == contributed,
    {
        Contributer { who, contributed }
    }
}

/// A contributor as written in the contributor file: the amount is still
/// the decimal text.
#[derive(Clone, Debug, PartialEq, Eq)]
pub struct ContributerRecord {
    pub who: AccountId,
    pub contributed: String,
}

/// A campaign descriptor together with its ordered contributors.
#[derive(Debug, PartialEq, Eq)]
pub struct Campaign {
    pub campaign_id: u32,
    /// Numerator and denominator of the share released at once.
    pub instant_percentage: (u32, u32),
    pub starts_from: u32,
    pub ends_at: u32,
    pub hoster: AccountId,
    pub contributers: Vec<Contributer>,
}

impl Campaign {
    /// The descriptor's own rules: a positive denominator, and an end no
    /// earlier than the start.
    pub open spec fn descriptor_ok(&self) -> bool {
        self.instant_percentage.1 > 0 && self.starts_from <= self.ends_at
    }

    /// A campaign as loading produces it.
    pub open spec fn is_loaded(&self) -> bool {
        &&& self.descriptor_ok()
        &&& self.contributers@.len() > 0
        &&& total_of(self.contributers@) <= u128::MAX
    }

    /// Both campaigns have the same descriptor fields.
    pub open spec fn same_descriptor(&self, other: &Campaign) -> bool {
        &&& self.campaign_id == other.campaign_id
        &&& self.instant_percentage == other.instant_percentage
        &&& self.starts_from == other.starts_from
        &&& self.ends_at == other.ends_at
        &&& self.hoster == other.hoster
    }
}

/// The campaign file: a descriptor, and the path of the contributor file.
#[derive(Debug, PartialEq, Eq)]
pub struct InputFile {
    pub campaign: Campaign,
    pub contributers_file: String,
}

/// Every record's amount text is well formed.
pub open spec fn all_amounts_ok(records: Seq<ContributerRecord>) -> bool {
    forall|i: int| 0 <= i < records.len() ==> is_balance_text(#[trigger] records[i].contributed@)
}

/// The contributors that the records denote, in order.
pub open spec fn records_match(cs: Seq<Contributer>, records: Seq<ContributerRecord>) -> bool {
    &&& cs.len() == records.len()
    &&& forall|i: int|
        0 <= i < cs.len() ==> (#[trigger] cs[i]).who == records[i].who && cs[i].contributed
            == balance_text_value(records[i].contributed@)
}

impl InputFile {
    /// Merges the campaign descriptor with the contributor list that was read
    /// from `contributers_file`, or with the error that reading it gave.
    /// Checks, in this order: the read, the descriptor, every amount, that
    /// there is a contributor, and that the total fits in 128 bits.
    pub fn process(self, contributers: Result<Vec<ContributerRecord>, LoadError>) -> (res: Result<
        Campaign,
        LoadError,
    >)
        ensures
            contributers matches Err(e) ==> res == Err::<Campaign, LoadError>(e),
            contributers matches Ok(rs) ==> {
                &&& !self.campaign.descriptor_ok() ==> res == Err::<Campaign, LoadError>(
                    LoadError::Malformed,
                )
                &&& self.campaign.descriptor_ok() && !all_amounts_ok(rs@) ==> res == Err::<
                    Campaign,
                    LoadError,
                >(LoadError::InvalidNumber)
                &&& self.campaign.descriptor_ok() && all_amounts_ok(rs@) && rs@.len() == 0 ==> res
                    == Err::<Campaign, LoadError>(LoadError::NoContributors)
                &&& self.campaign.descriptor_ok() && all_amounts_ok(rs@) && rs@.len() > 0
                    ==> forall|cs: Seq<Contributer>|
                    records_match(cs, rs@) ==> (res is Ok <==> total_of(cs) <= u128::MAX) && (
                    total_of(cs) > u128::MAX ==> res == Err::<Campaign, LoadError>(
                        LoadError::TotalOverflow,
                    ))
                &&& res matches Ok(c) ==> c.is_loaded() && c.same_descriptor(&self.campaign)
                    && records_match(c.contributers@, rs@)
            },
    {
        let records = match contributers {
            Err(e) => return Err(e),
            Ok(rs) => rs,
        };
        let campaign = self.campaign;
        if campaign.instant_percentage.1 == 0 || campaign.starts_from > campaign.ends_at {
            return Err(LoadError::Malformed);
        }
        let mut cs: Vec<Contributer> = Vec::new();
        let mut total: u128 = 0;
        let mut overflow = false;
        let mut i: usize = 0;
        while i < records.len()
            invariant
                contributers == Ok::<Vec<ContributerRecord>, LoadError>(records),
                campaign == self.campaign,
                campaign.descriptor_ok(),
                i <= records@.len(),
                all_amounts_ok(records@.take(i as int)),
                records_match(cs@, records@.take(i as int)),
                !overflow ==> total == total_of(cs@),
                overflow ==> total_of(cs@) > u128::MAX,
            decreases records@.len() - i,
        {
            let record = &records[i];
            let amount = match parse_balance(record.contributed.as_str()) {
                Err(_) => {
                    assert(!is_balance_text(records@[i as int].contributed@));
                    return Err(LoadError::InvalidNumber);
                },
                Ok(v) => v,
            };
            let ghost before = cs@;
            cs.push(Contributer { who: record.who, contributed: amount });
            assert(cs@.drop_last() == before);
            proof {
                crate::reward::lemma_total_nonnegative(before);
            }
            if !overflow {
                match total.checked_add(amount) {
                    None => {
                        overflow = true;
                    },
                    Some(t) => {
                        total = t;
                    },
                }
            }
            i = i + 1;
            assert(records@.take(i as int).drop_last() == records@.take(i - 1));
            assert(all_amounts_ok(records@.take(i as int)));
        }
        assert(records@.take(i as int) == records@);
        if cs.len() == 0 {
            return Err(LoadError::NoContributors);
        }
        proof {
            assert forall|other: Seq<Contributer>| records_match(other, records@) implies other
                == cs@ by {
                assert(other =~= cs@);
            }
        }
        if overflow {
            return Err(LoadError::TotalOverflow);
        }
        Ok(
            Campaign {
                campaign_id: campaign.campaign_id,
                instant_percentage: campaign.instant_percentage,
                starts_from: campaign.starts_from,
                ends_at: campaign.ends_at,
                hoster: campaign.hoster,
                contributers: cs,
            },
        )
    }
}

} // verus!
