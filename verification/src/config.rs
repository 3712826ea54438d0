//! Economic and payment configuration of an operator deployment.
//!
//! Every setting has a default and may be overridden in the environment. A setting
//! that cannot be read, or that would break the market's money rules, falls back to
//! its default.
use crate::amounts::{times_capped, wei_cap};
use crate::binary64::{key_order_is_value_order, Binary64};
use crate::jobs::{
    JOB_CHALLENGE, JOB_COMMIT_CANDIDATE, JOB_CREATE_COMPETITION, JOB_JOIN, JOB_REPORT_SCORE,
    JOB_REVEAL_CANDIDATE, JOB_SETTLE, JOB_TICK,
};
use crate::text::{parse_unsigned, same_text, trim, trimmed, unsigned_value};
use crate::types::{default_gate, Gate};
use std::collections::BTreeMap;
use vstd::prelude::*;

verus! {

broadcast use vstd::std_specs::btree::group_btree_axioms;

/// What the fee shares must sum to.
pub const FEE_SPLIT_TOTAL: u8 = 100;

/// The variables of an environment.
#[derive(Debug)]
pub struct Environment {
    pub vars: Vec<(String, String)>,
}

/// The value of the first variable with the given name.
pub open spec fn lookup(vars: Seq<(String, String)>, key: Seq<char>) -> Option<Seq<char>>
    decreases vars.len(),
{
    if vars.len() == 0 {
        None
    } else if vars[0].0@ == key {
        Some(vars[0].1@)
    } else {
        lookup(vars.skip(1), key)
    }
}

impl Environment {
    /// What a variable is set to.
    pub open spec fn setting(self, key: Seq<char>) -> Option<Seq<char>> {
        lookup(self.vars@, key)
    }

    /// A variable read as an unsigned number of at most `max`, white space at its ends
    /// aside.
    pub open spec fn number(self, key: Seq<char>, max: nat) -> Option<nat> {
        match self.setting(key) {
            Some(raw) => unsigned_value(trimmed(raw), max),
            None => None,
        }
    }

    /// The value of a variable.
    pub fn get(&self, key: &str) -> (r: Option<&String>)
        ensures
            match r {
                Some(v) => self.setting(key@) == Some(v@),
                None => self.setting(key@) is None,
            },
    {
        proof {
            assert(self.vars@.skip(0) =~= self.vars@);
        }
        for i in 0..self.vars.len()
            invariant
                lookup(self.vars@, key@) == lookup(self.vars@.skip(i as int), key@),
        {
            proof {
                assert(self.vars@.skip(i as int).skip(1) =~= self.vars@.skip(i + 1));
            }
            if same_text(self.vars[i].0.as_str(), key) {
                return Some(&self.vars[i].1);
            }
        }
        None
    }

    fn read_number(&self, key: &str, max: u128) -> (r: Option<u128>)
        ensures
            match r {
                Some(v) => self.number(key@, max as nat) == Some(v as nat),
                None => self.number(key@, max as nat) is None,
            },
    {
        match self.get(key) {
            Some(raw) => parse_unsigned(trim(raw.as_str()), max),
            None => None,
        }
    }
}

/// A variable read as a percentage: whether it is there, and its value if it reads
/// as one.
#[derive(Debug)]
pub struct EnvU8 {
    /// Whether the variable is set.
    pub present: bool,
    /// What it is set to.
    pub raw: Option<String>,
    /// Its value, if it can be read.
    pub value: Option<u8>,
}

impl EnvU8 {
    /// Whether the variable is set to something that cannot be read.
    pub fn unparsable(&self) -> (r: bool)
        ensures
            r == (self.present && self.value is None),
    {
        self.present && self.value.is_none()
    }
}

/// Reads a variable as a percentage.
pub fn env_u8_opt(env: &Environment, key: &str) -> (r: EnvU8)
    ensures
        r.present == env.setting(key@) is Some,
        match r.raw {
            Some(raw) => env.setting(key@) == Some(raw@),
            None => env.setting(key@) is None,
        },
        match r.value {
            Some(v) => env.number(key@, u8::MAX as nat) == Some(v as nat),
            None => env.number(key@, u8::MAX as nat) is None,
        },
{
    match env.get(key) {
        Some(raw) => {
            let value: Option<u8> = match env.read_number(key, u8::MAX as u128) {
                Some(v) => Some(v as u8),
                None => None,
            };
            EnvU8 { present: true, raw: Some(raw.clone()), value }
        },
        None => EnvU8 { present: false, raw: None, value: None },
    }
}

/// Reads a variable as a 32-bit number; `default` where it is not set to one.
pub fn env_u32(env: &Environment, key: &str, default: u32) -> (r: u32)
    ensures
        r == (match env.number(key@, u32::MAX as nat) {
            Some(v) => v as int,
            None => default as int,
        }),
{
    match env.read_number(key, u32::MAX as u128) {
        Some(v) => v as u32,
        None => default,
    }
}

/// Reads a variable as a 128-bit number; `default` where it is not set to one.
pub fn env_u128(env: &Environment, key: &str, default: u128) -> (r: u128)
    ensures
        r == (match env.number(key@, u128::MAX as nat) {
            Some(v) => v as int,
            None => default as int,
        }),
{
    match env.read_number(key, u128::MAX) {
        Some(v) => v,
        None => default,
    }
}

/// How a competition's fee is divided, in whole percent.
#[derive(Clone, Copy, Debug, PartialEq, Eq, Structural)]
pub struct FeeSplit {
    /// The share of the operator, who runs the service.
    pub operator_pct: u8,
    /// The share of the referee, who scores.
    pub referee_pct: u8,
    /// The share of the validators, who audit.
    pub validator_pct: u8,
}

/// The split of a deployment that does not set its own.
pub open spec fn default_split() -> FeeSplit {
    FeeSplit { operator_pct: 55, referee_pct: 30, validator_pct: 15 }
}

impl Default for FeeSplit {
    fn default() -> (r: Self)
        ensures
            r == default_split(),
            r.whole(),
    {
        FeeSplit { operator_pct: 55, referee_pct: 30, validator_pct: 15 }
    }
}

/// A percentage from the environment, or the default.
pub open spec fn percent(env: Environment, key: Seq<char>, default: u8) -> u8 {
    match env.number(key, u8::MAX as nat) {
        Some(v) => v as u8,
        None => default,
    }
}

/// The split that the environment asks for, share by share.
pub open spec fn asked_split(env: Environment) -> FeeSplit {
    FeeSplit {
        operator_pct: percent(env, "FEE_SPLIT_OPERATOR"@, default_split().operator_pct),
        referee_pct: percent(env, "FEE_SPLIT_REFEREE"@, default_split().referee_pct),
        validator_pct: percent(env, "FEE_SPLIT_VALIDATOR"@, default_split().validator_pct),
    }
}

/// What became of the split that the environment asks for.
#[derive(Clone, Copy, Debug, PartialEq, Eq, Structural)]
pub enum FeeSplitNotice {
    /// It asks for none.
    Unset,
    /// What it asks for applies.
    Applied,
    /// What it asks for was discarded; the flag tells whether a share could not be
    /// read.
    Rejected { had_unparsable: bool },
}

/// Whether a variable is set to something that does not read as a percentage.
pub open spec fn unreadable(env: Environment, key: Seq<char>) -> bool {
    env.setting(key) is Some && env.number(key, u8::MAX as nat) is None
}

/// Whether a share is set to something that does not read as a percentage.
pub open spec fn split_unreadable(env: Environment) -> bool {
    unreadable(env, "FEE_SPLIT_OPERATOR"@) || unreadable(env, "FEE_SPLIT_REFEREE"@)
        || unreadable(env, "FEE_SPLIT_VALIDATOR"@)
}

/// The split that applies: what the environment asks for if every share that is set can
/// be read and the shares are a whole, else the default.
pub open spec fn loaded_split(env: Environment) -> FeeSplit {
    if !split_unreadable(env) && asked_split(env).whole() {
        asked_split(env)
    } else {
        default_split()
    }
}

/// What became of the split that an environment asks for.
pub open spec fn split_notice(env: Environment) -> FeeSplitNotice {
    if env.setting("FEE_SPLIT_OPERATOR"@) is None && env.setting("FEE_SPLIT_REFEREE"@) is None
        && env.setting("FEE_SPLIT_VALIDATOR"@) is None {
        FeeSplitNotice::Unset
    } else if !split_unreadable(env) && asked_split(env).whole() {
        FeeSplitNotice::Applied
    } else {
        FeeSplitNotice::Rejected { had_unparsable: split_unreadable(env) }
    }
}

impl FeeSplit {
    /// The shares sum to the whole.
    pub open spec fn whole(self) -> bool {
        self.operator_pct + self.referee_pct + self.validator_pct == FEE_SPLIT_TOTAL
    }

    /// Whether the three shares sum to exactly 100%.
    pub fn validate(&self) -> (r: bool)
        ensures
            r == self.whole(),
    {
        self.operator_pct as u16 + self.referee_pct as u16 + self.validator_pct as u16
            == FEE_SPLIT_TOTAL as u16
    }

    /// The split that applies in an environment: an override with a share that cannot be
    /// read, or that is not a whole, is discarded altogether.
    pub fn from_env(env: &Environment) -> (r: Self)
        ensures
            r == loaded_split(*env),
            r.whole(),
    {
        let default = FeeSplit::default();
        let operator = env_u8_opt(env, "FEE_SPLIT_OPERATOR");
        let referee = env_u8_opt(env, "FEE_SPLIT_REFEREE");
        let validator = env_u8_opt(env, "FEE_SPLIT_VALIDATOR");
        let candidate = FeeSplit {
            operator_pct: operator.value.unwrap_or(default.operator_pct),
            referee_pct: referee.value.unwrap_or(default.referee_pct),
            validator_pct: validator.value.unwrap_or(default.validator_pct),
        };
        let had_unparsable = operator.unparsable() || referee.unparsable()
            || validator.unparsable();
        if !had_unparsable && candidate.validate() {
            candidate
        } else {
            default
        }
    }

    /// What became of the split that the environment asks for, so that an operator
    /// whose override was discarded can be told.
    pub fn env_notice(env: &Environment) -> (r: FeeSplitNotice)
        ensures
            r == split_notice(*env),
    {
        let default = FeeSplit::default();
        let operator = env_u8_opt(env, "FEE_SPLIT_OPERATOR");
        let referee = env_u8_opt(env, "FEE_SPLIT_REFEREE");
        let validator = env_u8_opt(env, "FEE_SPLIT_VALIDATOR");
        if !operator.present && !referee.present && !validator.present {
            return FeeSplitNotice::Unset;
        }
        let had_unparsable = operator.unparsable() || referee.unparsable()
            || validator.unparsable();
        let candidate = FeeSplit {
            operator_pct: operator.value.unwrap_or(default.operator_pct),
            referee_pct: referee.value.unwrap_or(default.referee_pct),
            validator_pct: validator.value.unwrap_or(default.validator_pct),
        };
        if !had_unparsable && candidate.validate() {
            FeeSplitNotice::Applied
        } else {
            FeeSplitNotice::Rejected { had_unparsable }
        }
    }
}

/// The reward shape that an operator advertises by default.
#[derive(Clone, Copy, Debug, PartialEq, Eq, Structural)]
pub enum DefaultRewardShape {
    /// Winner-take-all at the deadline.
    TerminalPrize,
    /// Split across the ranked top-k.
    SnapshotTopK,
    /// Continuous king-of-the-hill.
    RecordBounty,
}

/// The shape that a name stands for.
pub open spec fn shape_named(name: Option<Seq<char>>, default: DefaultRewardShape) -> DefaultRewardShape {
    if name == Some("terminal_prize"@) {
        DefaultRewardShape::TerminalPrize
    } else if name == Some("snapshot_topk"@) {
        DefaultRewardShape::SnapshotTopK
    } else if name == Some("record_bounty"@) {
        DefaultRewardShape::RecordBounty
    } else {
        default
    }
}

impl DefaultRewardShape {
    /// The shape that the environment names; `default` where it names none.
    pub fn from_env(env: &Environment, default: Self) -> (r: Self)
        ensures
            r == shape_named(env.setting("DEFAULT_REWARD_SHAPE"@), default),
    {
        proof {
            reveal_strlit("terminal_prize");
            reveal_strlit("snapshot_topk");
            reveal_strlit("record_bounty");
        }
        match env.get("DEFAULT_REWARD_SHAPE") {
            Some(name) => {
                if same_text(name.as_str(), "terminal_prize") {
                    DefaultRewardShape::TerminalPrize
                } else if same_text(name.as_str(), "snapshot_topk") {
                    DefaultRewardShape::SnapshotTopK
                } else if same_text(name.as_str(), "record_bounty") {
                    DefaultRewardShape::RecordBounty
                } else {
                    default
                }
            },
            None => default,
        }
    }
}

/// The full economic and payment configuration of a deployment.
#[derive(Clone, Debug, PartialEq)]
pub struct EconomicConfig {
    /// The promotion gate that applies where a competition does not declare its own.
    pub gate: Gate,
    /// The default stake floor in wei.
    pub min_stake_wei: u128,
    /// How a fee is split.
    pub fee_split: FeeSplit,
    /// The default reward shape.
    pub default_reward_shape: DefaultRewardShape,
    /// The price weight of each job.
    pub job_price_weights: BTreeMap<u8, u32>,
    /// The wei that a weight of one stands for.
    pub base_price_wei: u128,
}

/// The default stake floor.
pub const DEFAULT_MIN_STAKE_WEI: u128 = 1_000_000_000_000_000;

/// The default price of a weight of one.
pub const DEFAULT_BASE_PRICE_WEI: u128 = 1_000_000_000_000;

/// The default price weights: creating is dearest, reporting and settling are in the
/// middle, submissions are cheap and ticks are free.
pub open spec fn default_weights() -> Map<u8, u32> {
    map![
        JOB_CREATE_COMPETITION => 100u32,
        JOB_JOIN => 5u32,
        JOB_COMMIT_CANDIDATE => 5u32,
        JOB_REVEAL_CANDIDATE => 5u32,
        JOB_REPORT_SCORE => 50u32,
        JOB_SETTLE => 50u32,
        JOB_CHALLENGE => 20u32,
        JOB_TICK => 0u32
    ]
}

/// The default price weights of the jobs.
pub fn default_job_price_weights() -> (m: BTreeMap<u8, u32>)
    ensures
        m@ == default_weights(),
{
    let mut m: BTreeMap<u8, u32> = BTreeMap::new();
    m.insert(JOB_CREATE_COMPETITION, 100);
    m.insert(JOB_JOIN, 5);
    m.insert(JOB_COMMIT_CANDIDATE, 5);
    m.insert(JOB_REVEAL_CANDIDATE, 5);
    m.insert(JOB_REPORT_SCORE, 50);
    m.insert(JOB_SETTLE, 50);
    m.insert(JOB_CHALLENGE, 20);
    m.insert(JOB_TICK, 0);
    proof {
        assert(m@ =~= default_weights());
    }
    m
}

/// Why a gate may not be deployed, if it may not.
pub open spec fn gate_fault(gate: Gate) -> Option<Seq<char>> {
    if gate.min_n == 0 {
        Some("gate min_n must be positive"@)
    } else if !gate.min_lift_ci_lower.finite() || gate.min_lift_ci_lower.key() < 0 {
        Some("gate min_lift_ci_lower must be finite and non-negative"@)
    } else if gate.cost_per_task_ceiling is Some && !gate.cost_per_task_ceiling->0.finite() {
        Some("gate cost_per_task_ceiling must be finite when set"@)
    } else {
        None
    }
}

/// Rejects a gate that a result without episodes, or with a NaN for a bound, could
/// pass.
pub fn validate_gate(gate: &Gate) -> (r: Result<(), String>)
    ensures
        match r {
            Ok(()) => gate_fault(*gate) is None,
            Err(why) => gate_fault(*gate) == Some(why@),
        },
{
    if gate.min_n == 0 {
        return Err("gate min_n must be positive".to_owned());
    }
    if !gate.min_lift_ci_lower.is_finite() || gate.min_lift_ci_lower.less_than(
        Binary64 { bits: 0 },
    ) {
        return Err("gate min_lift_ci_lower must be finite and non-negative".to_owned());
    }
    if let Some(ceiling) = gate.cost_per_task_ceiling {
        if !ceiling.is_finite() {
            return Err("gate cost_per_task_ceiling must be finite when set".to_owned());
        }
    }
    Ok(())
}

/// The two settings that are doubles, as far as the environment sets them to
/// something that reads as one.
#[derive(Clone, Copy, Debug)]
pub struct GateNumbers {
    /// `GATE_MIN_LIFT_CI_LOWER`.
    pub min_lift_ci_lower: Option<Binary64>,
    /// `GATE_COST_PER_TASK_CEILING`.
    pub cost_per_task_ceiling: Option<Binary64>,
}

/// The promotion gate that an environment asks for.
pub open spec fn asked_gate(env: Environment, numbers: GateNumbers) -> Gate {
    Gate {
        min_lift_ci_lower: match numbers.min_lift_ci_lower {
            Some(v) => v,
            None => default_gate().min_lift_ci_lower,
        },
        cost_per_task_ceiling: numbers.cost_per_task_ceiling,
        min_n: match env.number("GATE_MIN_N"@, u32::MAX as nat) {
            Some(v) => v as u32,
            None => default_gate().min_n,
        },
    }
}

/// The promotion gate that an environment asks for, sensible or not.
pub fn gate_asked(env: &Environment, numbers: &GateNumbers) -> (r: Gate)
    ensures
        r == asked_gate(*env, *numbers),
{
    let default = Gate::default();
    Gate {
        min_lift_ci_lower: match numbers.min_lift_ci_lower {
            Some(v) => v,
            None => default.min_lift_ci_lower,
        },
        cost_per_task_ceiling: numbers.cost_per_task_ceiling,
        min_n: env_u32(env, "GATE_MIN_N", default.min_n),
    }
}

/// What an operator is to be told about the settings that were dropped or applied.
#[derive(Clone, Copy, Debug, PartialEq)]
pub struct ConfigNotice {
    /// The promotion gate that was asked for and not applied, if there was one.
    pub rejected_gate: Option<Gate>,
    /// `STAKE_FLOOR_WEI` was zero and not applied.
    pub zero_stake_floor: bool,
    /// `X402_BASE_PRICE_WEI` was zero and not applied.
    pub zero_base_price: bool,
    pub fee_split: FeeSplitNotice,
}

/// A positive amount from the environment, or the default.
pub open spec fn positive_amount(env: Environment, key: Seq<char>, default: u128) -> u128 {
    match env.number(key, u128::MAX as nat) {
        Some(v) => if v == 0 {
            default
        } else {
            v as u128
        },
        None => default,
    }
}

impl Default for EconomicConfig {
    fn default() -> (r: Self)
        ensures
            r.gate == default_gate(),
            r.min_stake_wei == DEFAULT_MIN_STAKE_WEI,
            r.fee_split == default_split(),
            r.default_reward_shape == DefaultRewardShape::SnapshotTopK,
            r.job_price_weights@ == default_weights(),
            r.base_price_wei == DEFAULT_BASE_PRICE_WEI,
            r.fault() is None,
    {
        EconomicConfig {
            gate: Gate::default(),
            min_stake_wei: DEFAULT_MIN_STAKE_WEI,
            fee_split: FeeSplit::default(),
            default_reward_shape: DefaultRewardShape::SnapshotTopK,
            job_price_weights: default_job_price_weights(),
            base_price_wei: DEFAULT_BASE_PRICE_WEI,
        }
    }
}

impl EconomicConfig {
    /// Why the configuration may not be deployed, if it may not.
    pub open spec fn fault(self) -> Option<Seq<char>> {
        if gate_fault(self.gate) is Some {
            gate_fault(self.gate)
        } else if self.min_stake_wei == 0 {
            Some("min_stake_wei must be non-zero (anti-spam / leakage bond)"@)
        } else if self.base_price_wei == 0 {
            Some("base_price_wei must be non-zero (x402 service revenue)"@)
        } else if !self.fee_split.whole() {
            Some("fee split shares must sum to exactly 100"@)
        } else {
            None
        }
    }

    /// The price of a job.
    pub open spec fn price(self, job_id: u8) -> int {
        if self.job_price_weights@.dom().contains(job_id) {
            wei_cap(self.base_price_wei * self.job_price_weights@[job_id])
        } else {
            0
        }
    }

    /// The configuration that applies in an environment. A setting that cannot be read
    /// or makes no sense falls back to its default, so what is loaded always
    /// validates.
    pub fn from_env(env: &Environment, numbers: &GateNumbers) -> (r: Self)
        ensures
            r.gate == (if gate_fault(asked_gate(*env, *numbers)) is None {
                asked_gate(*env, *numbers)
            } else {
                default_gate()
            }),
            r.min_stake_wei == positive_amount(*env, "STAKE_FLOOR_WEI"@, DEFAULT_MIN_STAKE_WEI),
            r.fee_split == loaded_split(*env),
            r.default_reward_shape == shape_named(
                env.setting("DEFAULT_REWARD_SHAPE"@),
                DefaultRewardShape::SnapshotTopK,
            ),
            r.job_price_weights@ == default_weights(),
            r.base_price_wei == positive_amount(
                *env,
                "X402_BASE_PRICE_WEI"@,
                DEFAULT_BASE_PRICE_WEI,
            ),
            r.fault() is None,
    {
        let default = EconomicConfig::default();
        let loaded = gate_asked(env, numbers);
        let gate = if validate_gate(&loaded).is_ok() {
            loaded
        } else {
            default.gate
        };
        let stake: u128 = env_u128(env, "STAKE_FLOOR_WEI", default.min_stake_wei);
        let price: u128 = env_u128(env, "X402_BASE_PRICE_WEI", default.base_price_wei);
        EconomicConfig {
            gate,
            min_stake_wei: if stake == 0 {
                default.min_stake_wei
            } else {
                stake
            },
            fee_split: FeeSplit::from_env(env),
            default_reward_shape: DefaultRewardShape::from_env(env, default.default_reward_shape),
            job_price_weights: default_job_price_weights(),
            base_price_wei: if price == 0 {
                default.base_price_wei
            } else {
                price
            },
        }
    }

    /// What to tell an operator whose settings are loaded from an environment.
    pub fn env_notice(env: &Environment, numbers: &GateNumbers) -> (r: ConfigNotice)
        ensures
            r.rejected_gate == (if gate_fault(asked_gate(*env, *numbers)) is None {
                None
            } else {
                Some(asked_gate(*env, *numbers))
            }),
            r.zero_stake_floor == (env.number("STAKE_FLOOR_WEI"@, u128::MAX as nat) == Some(0nat)),
            r.zero_base_price == (env.number("X402_BASE_PRICE_WEI"@, u128::MAX as nat) == Some(
                0nat,
            )),
            r.fee_split == split_notice(*env),
    {
        let gate = gate_asked(env, numbers);
        ConfigNotice {
            rejected_gate: if validate_gate(&gate).is_ok() {
                None
            } else {
                Some(gate)
            },
            zero_stake_floor: env_u128(env, "STAKE_FLOOR_WEI", DEFAULT_MIN_STAKE_WEI) == 0,
            zero_base_price: env_u128(env, "X402_BASE_PRICE_WEI", DEFAULT_BASE_PRICE_WEI) == 0,
            fee_split: FeeSplit::env_notice(env),
        }
    }

    /// Rejects a configuration under which the market could not pay correctly.
    pub fn validate(&self) -> (r: Result<(), String>)
        ensures
            match r {
                Ok(()) => self.fault() is None,
                Err(why) => self.fault() == Some(why@),
            },
    {
        match validate_gate(&self.gate) {
            Ok(()) => {},
            Err(why) => {
                return Err(why);
            },
        }
        if self.min_stake_wei == 0 {
            return Err("min_stake_wei must be non-zero (anti-spam / leakage bond)".to_owned());
        }
        if self.base_price_wei == 0 {
            return Err("base_price_wei must be non-zero (x402 service revenue)".to_owned());
        }
        if !self.fee_split.validate() {
            return Err("fee split shares must sum to exactly 100".to_owned());
        }
        Ok(())
    }

    /// The price of a job in wei; zero for free jobs and for unknown ids.
    pub fn job_price_wei(&self, job_id: u8) -> (r: u128)
        ensures
            r == self.price(job_id),
    {
        match self.job_price_weights.get(&job_id) {
            Some(weight) => times_capped(self.base_price_wei, *weight as u128),
            None => 0,
        }
    }
}

/// A gate that may be deployed never clears a result without episodes, nor one whose
/// lower bound is not a number.
pub proof fn deployable_gate_needs_evidence(
    gate: Gate,
    lift: crate::types::Lift,
    measurement: crate::types::Measurement,
)
    requires
        gate_fault(gate) is None,
        gate.cleared_by(lift, measurement),
    ensures
        lift.n > 0,
        lift.ci_lower.finite(),
        lift.ci_lower.key() >= 0,
{
}

// --- What a setting comes to, in plain terms ---------------------------------

/// A variable is set to the value of the first that has its name, and to nothing where
/// none has.
pub proof fn the_first_of_a_name_is_the_setting(vars: Seq<(String, String)>, key: Seq<char>)
    ensures
        lookup(vars, key) is None <==> forall|i: int|
            0 <= i < vars.len() ==> (#[trigger] vars[i]).0@ != key,
        lookup(vars, key) matches Some(v) ==> exists|i: int|
            {
                &&& 0 <= i < vars.len()
                &&& (#[trigger] vars[i]).0@ == key
                &&& vars[i].1@ == v
                &&& forall|j: int| 0 <= j < i ==> (#[trigger] vars[j]).0@ != key
            },
    decreases vars.len(),
{
    if vars.len() > 0 && vars[0].0@ != key {
        let rest = vars.skip(1);
        the_first_of_a_name_is_the_setting(rest, key);
        if lookup(rest, key) is Some {
            let i = choose|i: int|
                {
                    &&& 0 <= i < rest.len()
                    &&& (#[trigger] rest[i]).0@ == key
                    &&& rest[i].1@ == lookup(rest, key)->0
                    &&& forall|j: int| 0 <= j < i ==> (#[trigger] rest[j]).0@ != key
                };
            assert(vars[i + 1].0@ == key);
            assert forall|j: int| 0 <= j < i + 1 implies (#[trigger] vars[j]).0@ != key by {
                if j > 0 {
                    assert(rest[j - 1].0@ != key);
                }
            }
        } else {
            assert forall|i: int| 0 <= i < vars.len() implies (#[trigger] vars[i]).0@ != key by {
                if i > 0 {
                    assert(rest[i - 1].0@ != key);
                }
            }
        }
    } else if vars.len() > 0 {
        assert(vars[0].0@ == key);
    }
}

/// The split that applies always makes a hundred. Where every share that is set can be
/// read as a number of at most 255 and they make a hundred with the defaults of the
/// others, it is those; in any other case it is fifty-five, thirty and fifteen.
pub proof fn a_split_is_taken_whole_or_not_at_all(env: Environment)
    ensures
        ({
            let (o, r, v) = (
                env.setting("FEE_SPLIT_OPERATOR"@),
                env.setting("FEE_SPLIT_REFEREE"@),
                env.setting("FEE_SPLIT_VALIDATOR"@),
            );
            let read = |text: Option<Seq<char>>, default: nat|
                match text {
                    Some(t) => unsigned_value(trimmed(t), 255),
                    None => Some(default),
                };
            let (a, b, c) = (read(o, 55), read(r, 30), read(v, 15));
            let taken = a is Some && b is Some && c is Some && a->0 + b->0 + c->0 == 100;
            let split = loaded_split(env);
            &&& split.operator_pct + split.referee_pct + split.validator_pct == 100
            &&& taken ==> split.operator_pct == a->0 && split.referee_pct == b->0
                && split.validator_pct == c->0
            &&& !taken ==> split.operator_pct == 55 && split.referee_pct == 30
                && split.validator_pct == 15
            &&& o is None && r is None && v is None <==> split_notice(env) == FeeSplitNotice::Unset
            &&& (o is Some || r is Some || v is Some) && taken <==> split_notice(env)
                == FeeSplitNotice::Applied
            &&& (o is Some || r is Some || v is Some) && !taken ==> split_notice(env) == (
            FeeSplitNotice::Rejected { had_unparsable: a is None || b is None || c is None })
        }),
{
}

/// An amount that must not be zero is what the variable says where that is a positive
/// number, and the default where it is not.
pub proof fn an_amount_is_never_read_as_zero(env: Environment, key: Seq<char>, default: u128)
    ensures
        ({
            let read = match env.setting(key) {
                Some(t) => unsigned_value(trimmed(t), u128::MAX as nat),
                None => None,
            };
            &&& read is Some && read->0 > 0 ==> positive_amount(env, key, default) == read->0
            &&& read is None || read->0 == 0 ==> positive_amount(env, key, default) == default
        }),
{
}

/// A promotion gate may be deployed exactly where it asks for an episode, its floor is a
/// finite number that is not negative, and its ceiling, if it has one, is finite.
pub proof fn a_deployable_gate_asks_for_something(gate: Gate)
    ensures
        gate_fault(gate) is None <==> {
            &&& gate.min_n >= 1
            &&& gate.min_lift_ci_lower.finite()
            &&& gate.min_lift_ci_lower.scaled() >= 0
            &&& gate.cost_per_task_ceiling matches Some(ceiling) ==> ceiling.finite()
        },
        gate.min_n == 0 ==> gate_fault(gate) == Some("gate min_n must be positive"@),
        gate.min_n > 0 && !(gate.min_lift_ci_lower.finite() && gate.min_lift_ci_lower.scaled()
            >= 0) ==> gate_fault(gate) == Some(
            "gate min_lift_ci_lower must be finite and non-negative"@,
        ),
{
    let zero = Binary64 { bits: 0 };
    if gate.min_lift_ci_lower.finite() {
        key_order_is_value_order(zero, gate.min_lift_ci_lower);
        assert(zero.scaled() == 0);
    }
}

/// What is asked for is what is set, and the default where nothing is: twelve episodes
/// and a floor of two hundredths, and no ceiling.
pub proof fn the_asked_gate_is_what_is_set(env: Environment, numbers: GateNumbers)
    ensures
        ({
            let gate = asked_gate(env, numbers);
            let n = match env.setting("GATE_MIN_N"@) {
                Some(t) => unsigned_value(trimmed(t), u32::MAX as nat),
                None => None,
            };
            &&& n is Some ==> gate.min_n == n->0
            &&& n is None ==> gate.min_n == 12
            &&& numbers.min_lift_ci_lower is Some ==> gate.min_lift_ci_lower
                == numbers.min_lift_ci_lower->0
            &&& numbers.min_lift_ci_lower is None ==> gate.min_lift_ci_lower.bits
                == 0x3f94_7ae1_47ae_147b
            &&& gate.cost_per_task_ceiling == numbers.cost_per_task_ceiling
        }),
{
}

/// A configuration may be deployed exactly where its gate may be, the stake floor and the
/// base price are not zero, and the shares make a hundred; the first that is not so is
/// told.
pub proof fn a_deployable_configuration_is_complete(cfg: EconomicConfig)
    ensures
        ({
            let shares = cfg.fee_split.operator_pct + cfg.fee_split.referee_pct
                + cfg.fee_split.validator_pct;
            &&& cfg.fault() is None <==> gate_fault(cfg.gate) is None && cfg.min_stake_wei > 0
                && cfg.base_price_wei > 0 && shares == 100
            &&& gate_fault(cfg.gate) is Some ==> cfg.fault() == gate_fault(cfg.gate)
            &&& gate_fault(cfg.gate) is None && cfg.min_stake_wei == 0 ==> cfg.fault() == Some(
                "min_stake_wei must be non-zero (anti-spam / leakage bond)"@,
            )
            &&& gate_fault(cfg.gate) is None && cfg.min_stake_wei > 0 && cfg.base_price_wei == 0
                ==> cfg.fault() == Some("base_price_wei must be non-zero (x402 service revenue)"@)
            &&& gate_fault(cfg.gate) is None && cfg.min_stake_wei > 0 && cfg.base_price_wei > 0
                && shares != 100 ==> cfg.fault() == Some("fee split shares must sum to exactly 100"@)
        }),
{
}

/// The price of a job is the base price times its weight, and nothing for a job without
/// a weight; what does not fit is cut to what does.
pub proof fn a_job_costs_its_weight(cfg: EconomicConfig, job_id: u8)
    ensures
        ({
            let weights = cfg.job_price_weights@;
            let owed = cfg.base_price_wei * weights[job_id];
            &&& !weights.dom().contains(job_id) ==> cfg.price(job_id) == 0
            &&& weights.dom().contains(job_id) && owed <= u128::MAX ==> cfg.price(job_id) == owed
            &&& weights.dom().contains(job_id) && owed > u128::MAX ==> cfg.price(job_id)
                == u128::MAX
        }),
{
}

/// Creating a competition costs the most, reporting and settling half of that, a
/// challenge a fifth, and joining, committing and revealing the least that is not free;
/// only a tick is free.
pub proof fn jobs_cost_by_the_work_they_ask_for(job_id: u8)
    ensures
        default_weights().dom().contains(job_id) <==> job_id <= 7,
        job_id == 0 ==> default_weights()[job_id] == 100,
        1 <= job_id <= 3 ==> default_weights()[job_id] == 5,
        4 <= job_id <= 5 ==> default_weights()[job_id] == 50,
        job_id == 6 ==> default_weights()[job_id] == 20,
        job_id == 7 ==> default_weights()[job_id] == 0,
{
}

/// A shape is named by its own word and by no other; anything else is the default.
pub proof fn a_shape_is_named_by_its_own_word(
    name: Option<Seq<char>>,
    default: DefaultRewardShape,
)
    ensures
        name == Some("terminal_prize"@) ==> shape_named(name, default)
            == DefaultRewardShape::TerminalPrize,
        name == Some("snapshot_topk"@) ==> shape_named(name, default)
            == DefaultRewardShape::SnapshotTopK,
        name == Some("record_bounty"@) ==> shape_named(name, default)
            == DefaultRewardShape::RecordBounty,
        name != Some("terminal_prize"@) && name != Some("snapshot_topk"@) && name != Some(
            "record_bounty"@,
        ) ==> shape_named(name, default) == default,
{
    reveal_strlit("terminal_prize");
    reveal_strlit("snapshot_topk");
    reveal_strlit("record_bounty");
    assert("terminal_prize"@.len() == 14 && "snapshot_topk"@.len() == 13 && "record_bounty"@.len()
        == 13);
    assert("snapshot_topk"@[0] != "record_bounty"@[0]);
}

// --- What loading gives ------------------------------------------------------

/// A number is read from the first variable of its name, white space at its ends aside;
/// what is not set or cannot be read falls back to the default.
pub proof fn numbers_are_read_or_fall_back(
    env: &Environment,
    key: &str,
    narrow: u32,
    wide: u128,
    r32: u32,
    r128: u128,
)
    requires
        call_ensures(env_u32, (env, key, narrow), r32),
        call_ensures(env_u128, (env, key, wide), r128),
    ensures
        env.setting(key@) is None ==> r32 == narrow && r128 == wide,
        env.setting(key@) matches Some(text) ==> {
            &&& (unsigned_value(trimmed(text), u32::MAX as nat) matches Some(v) ==> r32 == v)
            &&& unsigned_value(trimmed(text), u32::MAX as nat) is None ==> r32 == narrow
            &&& (unsigned_value(trimmed(text), u128::MAX as nat) matches Some(v) ==> r128 == v)
            &&& unsigned_value(trimmed(text), u128::MAX as nat) is None ==> r128 == wide
        },
{
}

/// A loaded configuration can always be deployed: it asks for an episode and for a floor
/// that is a finite number and not negative, its stake and its base price are not zero,
/// and its shares make a hundred. What is set to something sensible is as it is set, and
/// the rest is the default.
pub proof fn what_is_loaded_can_be_deployed(
    env: &Environment,
    numbers: &GateNumbers,
    cfg: EconomicConfig,
    valid: Result<(), String>,
)
    requires
        call_ensures(EconomicConfig::from_env, (env, numbers), cfg),
        call_ensures(EconomicConfig::validate, (&cfg,), valid),
    ensures
        valid is Ok,
        cfg.gate.min_n >= 1,
        cfg.gate.min_lift_ci_lower.finite() && cfg.gate.min_lift_ci_lower.scaled() >= 0,
        cfg.min_stake_wei > 0,
        cfg.base_price_wei > 0,
        cfg.fee_split.operator_pct + cfg.fee_split.referee_pct + cfg.fee_split.validator_pct == 100,
        env.setting("STAKE_FLOOR_WEI"@) is None ==> cfg.min_stake_wei == 1_000_000_000_000_000,
        env.setting("X402_BASE_PRICE_WEI"@) is None ==> cfg.base_price_wei == 1_000_000_000_000,
        env.setting("STAKE_FLOOR_WEI"@) matches Some(text) ==> (unsigned_value(
            trimmed(text),
            u128::MAX as nat,
        ) matches Some(v) ==> v > 0 ==> cfg.min_stake_wei == v),
        env.setting("X402_BASE_PRICE_WEI"@) matches Some(text) ==> (unsigned_value(
            trimmed(text),
            u128::MAX as nat,
        ) matches Some(v) ==> v > 0 ==> cfg.base_price_wei == v),
        ({
            let asked = asked_gate(*env, *numbers);
            &&& gate_fault(asked) is None ==> cfg.gate == asked
            &&& gate_fault(asked) is Some ==> cfg.gate.min_n == 12
                && cfg.gate.min_lift_ci_lower.bits == 0x3f94_7ae1_47ae_147b
                && cfg.gate.cost_per_task_ceiling is None
        }),
{
    a_deployable_configuration_is_complete(cfg);
    a_deployable_gate_asks_for_something(cfg.gate);
}

/// What a job costs is what its weight comes to: the base price times it, as far as that
/// can be held, and nothing without a weight.
pub proof fn a_job_is_charged_by_its_weight(cfg: &EconomicConfig, job_id: u8, price: u128)
    requires
        call_ensures(EconomicConfig::job_price_wei, (cfg, job_id), price),
    ensures
        ({
            let weights = cfg.job_price_weights@;
            let owed = cfg.base_price_wei * weights[job_id];
            &&& !weights.dom().contains(job_id) ==> price == 0
            &&& weights.dom().contains(job_id) && owed <= u128::MAX ==> price == owed
            &&& weights.dom().contains(job_id) && owed > u128::MAX ==> price == u128::MAX
        }),
{
}

/// A gate passes exactly where it asks for an episode, its floor is finite and not
/// negative and its ceiling, if any, is finite; a split exactly where it makes a hundred.
pub proof fn gates_and_splits_pass_where_they_make_sense(
    gate: &Gate,
    split: &FeeSplit,
    gate_ok: Result<(), String>,
    split_ok: bool,
)
    requires
        call_ensures(validate_gate, (gate,), gate_ok),
        call_ensures(FeeSplit::validate, (split,), split_ok),
    ensures
        gate_ok is Ok <==> {
            &&& gate.min_n >= 1
            &&& gate.min_lift_ci_lower.finite()
            &&& gate.min_lift_ci_lower.scaled() >= 0
            &&& gate.cost_per_task_ceiling matches Some(ceiling) ==> ceiling.finite()
        },
        split_ok <==> split.operator_pct + split.referee_pct + split.validator_pct == 100,
{
    a_deployable_gate_asks_for_something(*gate);
}

/// A split is loaded whole or not at all, and the operator is told which.
pub proof fn a_loaded_split_is_whole(
    env: &Environment,
    split: FeeSplit,
    notice: FeeSplitNotice,
)
    requires
        call_ensures(FeeSplit::from_env, (env,), split),
        call_ensures(FeeSplit::env_notice, (env,), notice),
    ensures
        split.operator_pct + split.referee_pct + split.validator_pct == 100,
        !(notice is Applied) ==> split.operator_pct == 55 && split.referee_pct == 30
            && split.validator_pct == 15,
        notice is Unset <==> env.setting("FEE_SPLIT_OPERATOR"@) is None && env.setting(
            "FEE_SPLIT_REFEREE"@,
        ) is None && env.setting("FEE_SPLIT_VALIDATOR"@) is None,
        notice is Applied ==> {
            &&& (env.setting("FEE_SPLIT_OPERATOR"@) matches Some(t) ==> unsigned_value(
                trimmed(t),
                255,
            ) == Some(split.operator_pct as nat))
            &&& (env.setting("FEE_SPLIT_REFEREE"@) matches Some(t) ==> unsigned_value(
                trimmed(t),
                255,
            ) == Some(split.referee_pct as nat))
            &&& (env.setting("FEE_SPLIT_VALIDATOR"@) matches Some(t) ==> unsigned_value(
                trimmed(t),
                255,
            ) == Some(split.validator_pct as nat))
        },
{
    a_split_is_taken_whole_or_not_at_all(*env);
}

} // verus!
