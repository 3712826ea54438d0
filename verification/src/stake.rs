//! Researcher stake: the collateral that gates submission and that a challenge can
//! slash. Every balance is exact integer wei.
use crate::amounts::{greater, lesser, lesser_of, plus_capped, times_capped, wei_cap};
use crate::keyed::{
    distinct_keys, lemma_map_total_insert, lemma_table_absent, lemma_table_len,
    lemma_table_push, lemma_table_row, lemma_table_update, map_total, table,
};
use crate::text::{decimal, same_text, to_decimal, to_wide_decimal};
use crate::types::CompetitionId;
use vstd::math::min;
use vstd::prelude::*;

verus! {

/// The least stake that makes a researcher eligible.
#[derive(Clone, Copy, Debug, PartialEq, Eq, Structural)]
pub struct StakePolicy {
    /// The floor in wei.
    pub min_stake_wei: u128,
}

impl StakePolicy {
    /// A floor that covers `k` wasted scoring runs and the leakage deposit, whichever
    /// is more.
    pub fn sized(k: u32, scoring_cost_per_candidate: u128, leakage_deposit: u128) -> (r: Self)
        ensures
            r.min_stake_wei == greater(
                wei_cap(scoring_cost_per_candidate * k),
                leakage_deposit as int,
            ),
    {
        let spam_floor: u128 = times_capped(scoring_cost_per_candidate, k as u128);
        StakePolicy {
            min_stake_wei: if spam_floor >= leakage_deposit {
                spam_floor
            } else {
                leakage_deposit
            },
        }
    }

    /// Whether `posted` reaches the floor.
    pub fn admits(&self, posted: u128) -> (r: bool)
        ensures
            r == (posted >= self.min_stake_wei),
    {
        posted >= self.min_stake_wei
    }
}

/// Errors of the ledger.
#[derive(Debug, PartialEq, Eq)]
pub enum StakeError {
    /// The stake would stay below the floor.
    BelowPolicy { competition: CompetitionId, researcher: String, posted: u128, floor: u128 },
    /// The researcher has no stake recorded.
    NoStake { competition: CompetitionId, researcher: String },
    /// More was asked for than there is.
    Insufficient { competition: CompetitionId, researcher: String, requested: u128, balance: u128 },
}

impl StakeError {
    /// What the error says.
    pub open spec fn said(self) -> Seq<char> {
        match self {
            StakeError::BelowPolicy { competition, researcher, posted, floor } => {
                "stake "@ + decimal(posted as nat) + " for researcher "@ + researcher@
                    + " in competition "@ + decimal(competition as nat)
                    + " is below the policy floor "@ + decimal(floor as nat)
            },
            StakeError::NoStake { competition, researcher } => {
                "no stake recorded for researcher "@ + researcher@ + " in competition "@
                    + decimal(competition as nat)
            },
            StakeError::Insufficient { competition, researcher, requested, balance } => {
                "cannot withdraw "@ + decimal(requested as nat) + " for researcher "@
                    + researcher@ + " in competition "@ + decimal(competition as nat)
                    + ": balance is "@ + decimal(balance as nat)
            },
        }
    }

    /// The error as a message.
    pub fn message(&self) -> (r: String)
        ensures
            r@ == self.said(),
    {
        match self {
            StakeError::BelowPolicy { competition, researcher, posted, floor } => {
                let mut out = "stake ".to_owned();
                out.append(to_wide_decimal(*posted).as_str());
                out.append(" for researcher ");
                out.append(researcher.as_str());
                out.append(" in competition ");
                out.append(to_decimal(*competition).as_str());
                out.append(" is below the policy floor ");
                out.append(to_wide_decimal(*floor).as_str());
                out
            },
            StakeError::NoStake { competition, researcher } => {
                let mut out = "no stake recorded for researcher ".to_owned();
                out.append(researcher.as_str());
                out.append(" in competition ");
                out.append(to_decimal(*competition).as_str());
                out
            },
            StakeError::Insufficient { competition, researcher, requested, balance } => {
                let mut out = "cannot withdraw ".to_owned();
                out.append(to_wide_decimal(*requested).as_str());
                out.append(" for researcher ");
                out.append(researcher.as_str());
                out.append(" in competition ");
                out.append(to_decimal(*competition).as_str());
                out.append(": balance is ");
                out.append(to_wide_decimal(*balance).as_str());
                out
            },
        }
    }
}

/// What a ledger error says.
pub enum StakeFault {
    BelowPolicy { competition: CompetitionId, researcher: Seq<char>, posted: u128, floor: u128 },
    NoStake { competition: CompetitionId, researcher: Seq<char> },
    Insufficient {
        competition: CompetitionId,
        researcher: Seq<char>,
        requested: u128,
        balance: u128,
    },
}

impl View for StakeError {
    type V = StakeFault;

    open spec fn view(&self) -> StakeFault {
        match *self {
            StakeError::BelowPolicy { competition, researcher, posted, floor } => {
                StakeFault::BelowPolicy { competition, researcher: researcher@, posted, floor }
            },
            StakeError::NoStake { competition, researcher } => StakeFault::NoStake {
                competition,
                researcher: researcher@,
            },
            StakeError::Insufficient { competition, researcher, requested, balance } => {
                StakeFault::Insufficient { competition, researcher: researcher@, requested, balance }
            },
        }
    }
}

#[derive(Clone, Debug)]
struct StakeEntry {
    competition: CompetitionId,
    researcher: String,
    balance: u128,
}

/// One balance for each competition and researcher.
#[derive(Clone, Debug)]
pub struct StakeLedger {
    entries: Vec<StakeEntry>,
}

spec fn rows(s: Seq<StakeEntry>) -> Seq<((CompetitionId, Seq<char>), u128)> {
    s.map_values(|e: StakeEntry| ((e.competition, e.researcher@), e.balance))
}

impl View for StakeLedger {
    type V = Map<(CompetitionId, Seq<char>), u128>;

    closed spec fn view(&self) -> Map<(CompetitionId, Seq<char>), u128> {
        table(rows(self.entries@))
    }
}

/// The balance of a researcher; nothing where none is recorded.
pub open spec fn staked(
    ledger: Map<(CompetitionId, Seq<char>), u128>,
    competition: CompetitionId,
    researcher: Seq<char>,
) -> u128 {
    if ledger.dom().contains((competition, researcher)) {
        ledger[(competition, researcher)]
    } else {
        0
    }
}

impl StakeLedger {
    /// No competition and researcher are recorded twice.
    pub closed spec fn wf(self) -> bool {
        distinct_keys(rows(self.entries@))
    }

    /// An empty ledger.
    pub fn new() -> (r: Self)
        ensures
            r.wf(),
            r@ == Map::<(CompetitionId, Seq<char>), u128>::empty(),
    {
        let r = StakeLedger { entries: Vec::new() };
        proof {
            assert(r@ =~= Map::empty());
        }
        r
    }

    fn find(&self, competition: CompetitionId, researcher: &str) -> (r: Option<usize>)
        requires
            self.wf(),
        ensures
            match r {
                Some(i) => {
                    &&& i < self.entries@.len()
                    &&& self.entries@[i as int].competition == competition
                    &&& self.entries@[i as int].researcher@ == researcher@
                    &&& self@.dom().contains((competition, researcher@))
                    &&& self@[(competition, researcher@)] == self.entries@[i as int].balance
                },
                None => !self@.dom().contains((competition, researcher@)),
            },
    {
        let ghost all = rows(self.entries@);
        for i in 0..self.entries.len()
            invariant
                self.wf(),
                all == rows(self.entries@),
                forall|j: int| 0 <= j < i ==> (#[trigger] all[j]).0 != (competition, researcher@),
        {
            if self.entries[i].competition == competition && same_text(
                self.entries[i].researcher.as_str(),
                researcher,
            ) {
                proof {
                    assert(all[i as int].0 == (competition, researcher@));
                    lemma_table_row(all, i as int);
                }
                return Some(i);
            }
        }
        proof {
            lemma_table_absent(all, (competition, researcher@));
        }
        None
    }

    fn set_balance(&mut self, i: usize, balance: u128)
        requires
            old(self).wf(),
            i < old(self).entries@.len(),
        ensures
            final(self).wf(),
            final(self)@ == old(self)@.insert(
                (old(self).entries@[i as int].competition, old(self).entries@[i as int].researcher@),
                balance,
            ),
    {
        let entry = StakeEntry {
            competition: self.entries[i].competition,
            researcher: self.entries[i].researcher.clone(),
            balance,
        };
        self.entries.set(i, entry);
        proof {
            let before = rows(old(self).entries@);
            lemma_table_update(before, i as int, balance);
            assert(rows(self.entries@) =~= before.update(
                i as int,
                (before[i as int].0, balance),
            ));
        }
    }

    /// Adds to a researcher's stake. What must reach the floor is the resulting
    /// balance, so a researcher may top up; a post that stays below it changes
    /// nothing.
    pub fn post_stake(
        &mut self,
        competition: CompetitionId,
        researcher: &str,
        amount: u128,
        policy: &StakePolicy,
    ) -> (r: Result<u128, StakeError>)
        requires
            old(self).wf(),
        ensures
            final(self).wf(),
            ({
                let total = wei_cap(staked(old(self)@, competition, researcher@) + amount);
                match r {
                    Ok(balance) => {
                        &&& total >= policy.min_stake_wei
                        &&& balance == total
                        &&& final(self)@ == old(self)@.insert((competition, researcher@), balance)
                    },
                    Err(e) => {
                        &&& total < policy.min_stake_wei
                        &&& final(self)@ == old(self)@
                        &&& e@ == (StakeFault::BelowPolicy {
                            competition,
                            researcher: researcher@,
                            posted: total as u128,
                            floor: policy.min_stake_wei,
                        })
                    },
                }
            }),
    {
        let found = self.find(competition, researcher);
        let before: u128 = match found {
            Some(i) => self.entries[i].balance,
            None => 0,
        };
        let balance: u128 = plus_capped(before, amount);
        if !policy.admits(balance) {
            return Err(
                StakeError::BelowPolicy {
                    competition,
                    researcher: researcher.to_owned(),
                    posted: balance,
                    floor: policy.min_stake_wei,
                },
            );
        }
        match found {
            Some(i) => {
                self.set_balance(i, balance);
            },
            None => {
                self.entries.push(
                    StakeEntry { competition, researcher: researcher.to_owned(), balance },
                );
                proof {
                    let rows_before = rows(old(self).entries@);
                    lemma_table_push(rows_before, (competition, researcher@), balance);
                    assert(rows(self.entries@) =~= rows_before.push(
                        ((competition, researcher@), balance),
                    ));
                }
            },
        }
        Ok(balance)
    }

    /// The balance of a researcher; zero where none is recorded.
    pub fn balance(&self, competition: CompetitionId, researcher: &str) -> (r: u128)
        requires
            self.wf(),
        ensures
            r == staked(self@, competition, researcher@),
    {
        match self.find(competition, researcher) {
            Some(i) => self.entries[i].balance,
            None => 0,
        }
    }

    /// Takes `amount` out of a researcher's stake and returns what is left.
    pub fn withdraw(&mut self, competition: CompetitionId, researcher: &str, amount: u128) -> (r:
        Result<u128, StakeError>)
        requires
            old(self).wf(),
        ensures
            final(self).wf(),
            match r {
                Ok(left) => {
                    &&& old(self)@.dom().contains((competition, researcher@))
                    &&& left == old(self)@[(competition, researcher@)] - amount
                    &&& final(self)@ == old(self)@.insert((competition, researcher@), left)
                },
                Err(e) => {
                    &&& final(self)@ == old(self)@
                    &&& if old(self)@.dom().contains((competition, researcher@)) {
                        &&& amount > old(self)@[(competition, researcher@)]
                        &&& e@ == (StakeFault::Insufficient {
                            competition,
                            researcher: researcher@,
                            requested: amount,
                            balance: old(self)@[(competition, researcher@)],
                        })
                    } else {
                        e@ == (StakeFault::NoStake { competition, researcher: researcher@ })
                    }
                },
            },
    {
        match self.find(competition, researcher) {
            Some(i) => {
                let balance: u128 = self.entries[i].balance;
                if amount > balance {
                    return Err(
                        StakeError::Insufficient {
                            competition,
                            researcher: researcher.to_owned(),
                            requested: amount,
                            balance,
                        },
                    );
                }
                let left: u128 = balance - amount;
                self.set_balance(i, left);
                Ok(left)
            },
            None => Err(StakeError::NoStake { competition, researcher: researcher.to_owned() }),
        }
    }

    /// Takes up to `amount` out of a researcher's stake and returns what was taken.
    pub fn slash(&mut self, competition: CompetitionId, researcher: &str, amount: u128) -> (r:
        Result<u128, StakeError>)
        requires
            old(self).wf(),
        ensures
            final(self).wf(),
            match r {
                Ok(removed) => {
                    let balance = old(self)@[(competition, researcher@)];
                    &&& old(self)@.dom().contains((competition, researcher@))
                    &&& removed == lesser(amount as int, balance as int)
                    &&& final(self)@ == old(self)@.insert(
                        (competition, researcher@),
                        (balance - removed) as u128,
                    )
                },
                Err(e) => {
                    &&& !old(self)@.dom().contains((competition, researcher@))
                    &&& final(self)@ == old(self)@
                    &&& e@ == (StakeFault::NoStake { competition, researcher: researcher@ })
                },
            },
    {
        match self.find(competition, researcher) {
            Some(i) => {
                let balance: u128 = self.entries[i].balance;
                let removed: u128 = lesser_of(amount, balance);
                self.set_balance(i, balance - removed);
                Ok(removed)
            },
            None => Err(StakeError::NoStake { competition, researcher: researcher.to_owned() }),
        }
    }

    /// The stake held over all competitions and researchers.
    pub fn total_staked(&self) -> (r: u128)
        requires
            self.wf(),
            map_total(self@) <= u128::MAX,
        ensures
            r == map_total(self@),
    {
        let ghost all = rows(self.entries@);
        let mut total: u128 = 0;
        proof {
            assert(all.take(0) =~= Seq::empty());
            assert(table(all.take(0)) =~= Map::empty());
        }
        for i in 0..self.entries.len()
            invariant
                self.wf(),
                all == rows(self.entries@),
                map_total(table(all)) <= u128::MAX,
                total == map_total(table(all.take(i as int))),
        {
            proof {
                lemma_prefix_total(all, i as int);
                lemma_prefix_within(all, i + 1);
            }
            total = total + self.entries[i].balance;
        }
        proof {
            assert(all.take(all.len() as int) =~= all);
        }
        total
    }
}

proof fn lemma_prefix_distinct<K, V>(s: Seq<(K, V)>, i: int)
    requires
        distinct_keys(s),
        0 <= i <= s.len(),
    ensures
        distinct_keys(s.take(i)),
{
    let t = s.take(i);
    assert forall|p: int, q: int|
        0 <= p < t.len() && 0 <= q < t.len() && p != q implies #[trigger] t[p].0
        != #[trigger] t[q].0 by {
        assert(s[p].0 != s[q].0);
    }
}

proof fn lemma_prefix_total<K>(s: Seq<(K, u128)>, i: int)
    requires
        distinct_keys(s),
        0 <= i < s.len(),
    ensures
        map_total(table(s.take(i + 1))) == map_total(table(s.take(i))) + s[i].1,
{
    let t = s.take(i);
    lemma_prefix_distinct(s, i);
    assert forall|j: int| 0 <= j < t.len() implies (#[trigger] t[j]).0 != s[i].0 by {
        assert(s[j].0 != s[i].0);
    }
    lemma_table_absent(t, s[i].0);
    lemma_table_push(t, s[i].0, s[i].1);
    lemma_table_len(t);
    lemma_map_total_insert(table(t), s[i].0, s[i].1);
    assert(s.take(i + 1) =~= t.push((s[i].0, s[i].1)));
}

proof fn lemma_prefix_within<K>(s: Seq<(K, u128)>, i: int)
    requires
        distinct_keys(s),
        0 <= i <= s.len(),
    ensures
        map_total(table(s.take(i))) <= map_total(table(s)),
    decreases s.len() - i,
{
    if i < s.len() {
        lemma_prefix_within(s, i + 1);
        lemma_prefix_total(s, i);
    } else {
        assert(s.take(i) =~= s);
    }
}

/// Changing one balance changes the total staked by as much: a post adds what it
/// credits, a withdrawal or a slash takes off what it pays or removes, and nobody
/// else's balance moves.
pub proof fn total_moves_with_the_balance(
    ledger: Map<(CompetitionId, Seq<char>), u128>,
    competition: CompetitionId,
    researcher: Seq<char>,
    balance: u128,
)
    requires
        ledger.dom().finite(),
    ensures
        map_total(ledger.insert((competition, researcher), balance)) == map_total(ledger) - staked(
            ledger,
            competition,
            researcher,
        ) + balance,
        forall|c: CompetitionId, r: Seq<char>|
            (c, r) != (competition, researcher) ==> #[trigger] staked(
                ledger.insert((competition, researcher), balance),
                c,
                r,
            ) == staked(ledger, c, r),
{
    lemma_map_total_insert(ledger, (competition, researcher), balance);
}

impl StakeLedger {
    /// A ledger records finitely many balances.
    pub proof fn records_are_finite(self)
        requires
            self.wf(),
        ensures
            self@.dom().finite(),
    {
        lemma_table_len(rows(self.entries@));
    }
}

impl Default for StakeLedger {
    fn default() -> (r: Self)
        ensures
            r.wf(),
            r@ == Map::<(CompetitionId, Seq<char>), u128>::empty(),
    {
        StakeLedger::new()
    }
}

/// A balance is what the ledger records of the researcher in that competition, and
/// nothing where it records none.
pub proof fn a_balance_is_what_is_recorded(
    ledger: Map<(CompetitionId, Seq<char>), u128>,
    competition: CompetitionId,
    researcher: Seq<char>,
    balance: u128,
)
    ensures
        staked(ledger.insert((competition, researcher), balance), competition, researcher)
            == balance,
        !ledger.dom().contains((competition, researcher)) ==> staked(
            ledger,
            competition,
            researcher,
        ) == 0,
        staked(Map::empty(), competition, researcher) == 0,
        map_total(Map::<(CompetitionId, Seq<char>), u128>::empty()) == 0,
{
}

// --- What the operations do --------------------------------------------------

/// A floor is at least the deposit and at least the cost of the wasted runs, and no more
/// than either of them asks for.
pub proof fn a_floor_covers_runs_and_deposit(
    k: u32,
    scoring_cost_per_candidate: u128,
    leakage_deposit: u128,
    policy: StakePolicy,
    posted: u128,
    admitted: bool,
)
    requires
        call_ensures(
            StakePolicy::sized,
            (k, scoring_cost_per_candidate, leakage_deposit),
            policy,
        ),
        call_ensures(StakePolicy::admits, (&policy, posted), admitted),
    ensures
        admitted <==> posted >= leakage_deposit && posted >= min(
            scoring_cost_per_candidate * k,
            u128::MAX as int,
        ),
{
}

/// A post goes in exactly where the balance with it reaches the floor; then the balance is
/// that and nobody else's moves, and otherwise nothing moves at all.
pub proof fn a_post_must_reach_the_floor(
    ledger: &mut StakeLedger,
    competition: CompetitionId,
    researcher: &str,
    amount: u128,
    policy: &StakePolicy,
    r: Result<u128, StakeError>,
    c: CompetitionId,
    who: Seq<char>,
)
    requires
        old(ledger).wf(),
        call_ensures(
            StakeLedger::post_stake,
            (ledger, competition, researcher, amount, policy),
            r,
        ),
    ensures
        ({
            let before = staked(old(ledger)@, competition, researcher@);
            let after = staked(final(ledger)@, competition, researcher@);
            let sum = min(before + amount, u128::MAX as int);
            &&& r is Ok <==> sum >= policy.min_stake_wei
            &&& r matches Ok(balance) ==> balance == sum && after == sum
            &&& r is Err ==> final(ledger)@ == old(ledger)@
            &&& (c, who) != (competition, researcher@) ==> staked(final(ledger)@, c, who)
                == staked(old(ledger)@, c, who)
        }),
{
}

/// A withdrawal goes out exactly where there is a balance that covers it; then the balance
/// is less by it and nobody else's moves, and otherwise nothing moves at all.
pub proof fn a_withdrawal_must_be_covered(
    ledger: &mut StakeLedger,
    competition: CompetitionId,
    researcher: &str,
    amount: u128,
    r: Result<u128, StakeError>,
    c: CompetitionId,
    who: Seq<char>,
)
    requires
        old(ledger).wf(),
        call_ensures(StakeLedger::withdraw, (ledger, competition, researcher, amount), r),
    ensures
        ({
            let before = staked(old(ledger)@, competition, researcher@);
            let after = staked(final(ledger)@, competition, researcher@);
            &&& r is Ok <==> old(ledger)@.dom().contains((competition, researcher@)) && before
                >= amount
            &&& r matches Ok(left) ==> left == before - amount && after == before - amount
            &&& r is Err ==> final(ledger)@ == old(ledger)@
            &&& (c, who) != (competition, researcher@) ==> staked(final(ledger)@, c, who)
                == staked(old(ledger)@, c, who)
        }),
{
}

/// A slash takes the amount, or all there is where there is less, off the balance and off
/// nobody else's; it fails exactly where no balance is recorded, and then takes nothing.
pub proof fn a_slash_takes_what_there_is(
    ledger: &mut StakeLedger,
    competition: CompetitionId,
    researcher: &str,
    amount: u128,
    r: Result<u128, StakeError>,
    c: CompetitionId,
    who: Seq<char>,
)
    requires
        old(ledger).wf(),
        call_ensures(StakeLedger::slash, (ledger, competition, researcher, amount), r),
    ensures
        ({
            let before = staked(old(ledger)@, competition, researcher@);
            let after = staked(final(ledger)@, competition, researcher@);
            &&& r is Ok <==> old(ledger)@.dom().contains((competition, researcher@))
            &&& r matches Ok(taken) ==> {
                &&& taken + after == before
                &&& before >= amount ==> taken == amount
                &&& before < amount ==> taken == before
            }
            &&& r is Err ==> final(ledger)@ == old(ledger)@
            &&& (c, who) != (competition, researcher@) ==> staked(final(ledger)@, c, who)
                == staked(old(ledger)@, c, who)
        }),
{
}

/// What is read as a balance is what was last recorded, and what is read as the total is
/// the sum of all balances.
pub proof fn a_ledger_is_read_as_recorded(
    ledger: &StakeLedger,
    competition: CompetitionId,
    researcher: &str,
    balance: u128,
    total: u128,
)
    requires
        ledger.wf(),
        call_ensures(StakeLedger::balance, (ledger, competition, researcher), balance),
        call_ensures(StakeLedger::total_staked, (ledger,), total),
    ensures
        ledger@.dom().contains((competition, researcher@)) ==> balance == ledger@[(
            competition,
            researcher@,
        )],
        !ledger@.dom().contains((competition, researcher@)) ==> balance == 0,
        total >= balance,
        total == map_total(ledger@),
{
    ledger.records_are_finite();
    lemma_map_total_insert(ledger@, (competition, researcher@), 0);
}

/// A ledger error says who and where, what was posted or asked for, and what it was held
/// against.
pub proof fn a_stake_error_says_who_and_how_much(
    competition: CompetitionId,
    researcher: String,
    amount: u128,
    held_against: u128,
    below: StakeError,
    beyond: StakeError,
    below_text: String,
    beyond_text: String,
)
    requires
        below == (StakeError::BelowPolicy {
            competition,
            researcher,
            posted: amount,
            floor: held_against,
        }),
        beyond == (StakeError::Insufficient {
            competition,
            researcher,
            requested: amount,
            balance: held_against,
        }),
        call_ensures(StakeError::message, (&below,), below_text),
        call_ensures(StakeError::message, (&beyond,), beyond_text),
    ensures
        below_text@ == "stake "@ + decimal(amount as nat) + " for researcher "@ + researcher@
            + " in competition "@ + decimal(competition as nat) + " is below the policy floor "@
            + decimal(held_against as nat),
        beyond_text@ == "cannot withdraw "@ + decimal(amount as nat) + " for researcher "@
            + researcher@ + " in competition "@ + decimal(competition as nat) + ": balance is "@
            + decimal(held_against as nat),
{
}

} // verus!
