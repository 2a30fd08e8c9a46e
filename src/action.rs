use vstd::prelude::*;

verus! {

/// A probability or a score in `[0, 1]`, held in millionths.
pub const PROB_ONE: u32 = 1_000_000;

/// The verdict on a domain. The declaration order is the bandit's arm order.
#[derive(Debug, Clone, Copy, PartialEq, Eq, Structural)]
pub enum Action {
    Allow,
    Warn,
    Block,
}

/// Severity of an action: ALLOW < WARN < BLOCK. It is also the arm index.
pub open spec fn rank(a: Action) -> nat {
    match a {
        Action::Allow => 0,
        Action::Warn => 1,
        Action::Block => 2,
    }
}

/// The action whose arm index is `i`.
pub open spec fn action_of_rank(i: nat) -> Action {
    if i == 0 {
        Action::Allow
    } else if i == 1 {
        Action::Warn
    } else {
        Action::Block
    }
}

/// The wire name of an action.
pub open spec fn action_name(a: Action) -> Seq<char> {
    match a {
        Action::Allow => "ALLOW"@,
        Action::Warn => "WARN"@,
        Action::Block => "BLOCK"@,
    }
}

/// Threshold rule: BLOCK from `block` up, WARN from `warn` up, ALLOW below.
pub open spec fn action_for(prob: u32, warn: u32, block: u32) -> Action {
    if prob >= block {
        Action::Block
    } else if prob >= warn {
        Action::Warn
    } else {
        Action::Allow
    }
}

impl Action {
    pub fn from_probability(prob: u32, warn_threshold: u32, block_threshold: u32) -> (r: Action)
        ensures
            r == action_for(prob, warn_threshold, block_threshold),
    {
        if prob >= block_threshold {
            Action::Block
        } else if prob >= warn_threshold {
            Action::Warn
        } else {
            Action::Allow
        }
    }

    pub fn as_arm_index(&self) -> (r: usize)
        ensures
            r == rank(*self),
            r < 3,
    {
        match self {
            Action::Allow => 0,
            Action::Warn => 1,
            Action::Block => 2,
        }
    }

    /// Index outside the three arms falls back to ALLOW.
    pub fn from_arm_index(index: usize) -> (r: Action)
        ensures
            index < 3 ==> rank(r) == index && r == action_of_rank(index as nat),
            index >= 3 ==> r == Action::Allow,
    {
        match index {
            0 => Action::Allow,
            1 => Action::Warn,
            2 => Action::Block,
            _ => Action::Allow,
        }
    }

    pub fn as_str(&self) -> (r: &'static str)
        ensures
            r@ == action_name(*self),
    {
        match self {
            Action::Allow => "ALLOW",
            Action::Warn => "WARN",
            Action::Block => "BLOCK",
        }
    }

    /// Severity comparison: `self` is no more severe than `other`.
    pub fn at_most(&self, other: &Action) -> (r: bool)
        ensures
            r == (rank(*self) <= rank(*other)),
    {
        self.as_arm_index() <= other.as_arm_index()
    }
}

/// Upper-case spelling of the three actions, as carried on the wire.
#[allow(non_camel_case_types)]
#[derive(Debug, Clone, Copy, PartialEq, Eq, Structural)]
pub enum DecisionAction {
    ALLOW,
    WARN,
    BLOCK,
}

pub open spec fn decision_action_of(a: Action) -> DecisionAction {
    match a {
        Action::Allow => DecisionAction::ALLOW,
        Action::Warn => DecisionAction::WARN,
        Action::Block => DecisionAction::BLOCK,
    }
}

pub open spec fn action_of_decision(d: DecisionAction) -> Action {
    match d {
        DecisionAction::ALLOW => Action::Allow,
        DecisionAction::WARN => Action::Warn,
        DecisionAction::BLOCK => Action::Block,
    }
}

impl DecisionAction {
    pub fn as_str(&self) -> (r: &'static str)
        ensures
            r@ == action_name(action_of_decision(*self)),
    {
        match self {
            DecisionAction::ALLOW => "ALLOW",
            DecisionAction::WARN => "WARN",
            DecisionAction::BLOCK => "BLOCK",
        }
    }

    pub fn from_action(a: Action) -> (r: DecisionAction)
        ensures
            r == decision_action_of(a),
            action_of_decision(r) == a,
    {
        match a {
            Action::Allow => DecisionAction::ALLOW,
            Action::Warn => DecisionAction::WARN,
            Action::Block => DecisionAction::BLOCK,
        }
    }

    pub fn to_action(&self) -> (r: Action)
        ensures
            r == action_of_decision(*self),
            decision_action_of(r) == *self,
    {
        match self {
            DecisionAction::ALLOW => Action::Allow,
            DecisionAction::WARN => Action::Warn,
            DecisionAction::BLOCK => Action::Block,
        }
    }
}

/// The threshold rule is monotone in the probability:
/// `lo < hi` implies `action(lo)` is no more severe than `action(hi)`.
pub proof fn lemma_threshold_monotone(lo: u32, hi: u32, warn: u32, block: u32)
    requires
        lo < hi,
    ensures
        rank(action_for(lo, warn, block)) <= rank(action_for(hi, warn, block)),
{
}

} // verus!
