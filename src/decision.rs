use vstd::prelude::*;
use crate::action::{action_for, action_name, rank, Action, PROB_ONE};
use crate::features::DomainFeatures;
use crate::intel::IntelMatch;

verus! {

/// Decision thresholds in millionths: at or below `allow` the student's
/// verdict is ALLOW, at or above `block` it is BLOCK, and in between the
/// probability is uncertain and the bandit chooses.
#[derive(Debug, Clone, Copy, PartialEq, Eq, Structural)]
pub struct Thresholds {
    pub allow: u32,
    pub block: u32,
}

impl Thresholds {
    pub open spec fn wf(&self) -> bool {
        self.allow <= self.block <= PROB_ONE
    }

    /// The deployment defaults: 0.3 and 0.8.
    pub fn default_thresholds() -> (r: Thresholds)
        ensures
            r.allow == 300_000,
            r.block == 800_000,
            r.wf(),
    {
        Thresholds { allow: 300_000, block: 800_000 }
    }

    /// Checked construction: `None` unless `allow <= block <= 1`.
    pub fn new(allow: u32, block: u32) -> (r: Option<Thresholds>)
        ensures
            r is Some <==> allow <= block <= PROB_ONE,
            r is Some ==> r->0.allow == allow && r->0.block == block,
    {
        if allow <= block && block <= PROB_ONE {
            Some(Thresholds { allow, block })
        } else {
            None
        }
    }
}

/// Where a probability falls relative to the thresholds.
#[derive(Debug, Clone, Copy, PartialEq, Eq, Structural)]
pub enum Band {
    Allow,
    Uncertain,
    Block,
}

pub open spec fn band_of(p: u32, th: Thresholds) -> Band {
    if p >= th.block {
        Band::Block
    } else if p <= th.allow {
        Band::Allow
    } else {
        Band::Uncertain
    }
}

pub fn band(p: u32, th: &Thresholds) -> (r: Band)
    ensures
        r == band_of(p, *th),
{
    if p >= th.block {
        Band::Block
    } else if p <= th.allow {
        Band::Allow
    } else {
        Band::Uncertain
    }
}

/// The action the policy takes on a student probability. In the uncertain
/// band it is the bandit's arm; with the bandit disabled (`None`) it is WARN.
pub open spec fn policy_action(p: u32, th: Thresholds, arm: Option<Action>) -> Action {
    match band_of(p, th) {
        Band::Block => Action::Block,
        Band::Allow => Action::Allow,
        Band::Uncertain => match arm {
            Some(a) => a,
            None => Action::Warn,
        },
    }
}

/// With the bandit disabled the policy is monotone: a higher probability
/// never yields a less severe action (ALLOW < WARN < BLOCK).
pub proof fn lemma_policy_monotone(lo: u32, hi: u32, th: Thresholds)
    requires
        th.wf(),
        lo < hi,
    ensures
        rank(policy_action(lo, th, None)) <= rank(policy_action(hi, th, None)),
{
}

/// With the bandit disabled the policy is the plain threshold rule with
/// WARN starting just above the allow threshold.
pub proof fn lemma_policy_is_threshold_rule(p: u32, th: Thresholds)
    requires
        th.wf(),
        th.allow < u32::MAX,
    ensures
        policy_action(p, th, None) == action_for(p, (th.allow + 1) as u32, th.block),
{
}

/// Feature values that the reasons are composed from, in millionths
/// (entropy in millionths of a bit).
#[derive(Debug, Clone, Copy, PartialEq, Eq, Structural)]
pub struct RiskSignals {
    pub homoglyph: u32,
    pub typosquat: u32,
    pub dga: u32,
    pub entropy: u32,
    pub dynamic_dns: u32,
    pub parked: u32,
    pub crypto_mining: u32,
}

pub open spec fn tag_if(b: bool, t: Seq<char>) -> Seq<Seq<char>> {
    if b {
        seq![t]
    } else {
        seq![]
    }
}

/// Reasons from the feature values and the student probability, in the
/// fixed order of the mapping.
pub open spec fn feature_reasons(s: RiskSignals, p: u32) -> Seq<Seq<char>> {
    tag_if(s.homoglyph > 500_000, "IDN homoglyph detected"@)
        + tag_if(s.typosquat > 600_000, "Typosquatting suspected"@)
        + tag_if(s.dga > 700_000, "DGA-generated domain"@)
        + tag_if(s.entropy > 4_500_000, "High entropy domain"@)
        + tag_if(s.dynamic_dns > 500_000, "Dynamic DNS provider"@)
        + tag_if(s.parked > 500_000, "Parked domain detected"@)
        + tag_if(s.crypto_mining > 500_000, "Cryptojacking indicators"@)
        + tag_if(p > 800_000, "High ML threat score"@)
}

/// All reasons of a model decision: the feature reasons, the bandit's tag if
/// it was consulted, and `aggregate_risk` if the action is not ALLOW and
/// nothing else fired.
pub open spec fn reasons_spec(s: RiskSignals, p: u32, action: Action, arm: Option<Action>) -> Seq<Seq<char>> {
    let base = feature_reasons(s, p);
    let tagged = match arm {
        Some(a) => base.push("linucb:"@ + action_name(a)),
        None => base,
    };
    if tagged.len() == 0 && action != Action::Allow {
        seq!["aggregate_risk"@]
    } else {
        tagged
    }
}

/// Whenever the action is not ALLOW there is at least one reason.
pub proof fn lemma_reasons_nonempty(s: RiskSignals, p: u32, action: Action, arm: Option<Action>)
    requires
        action != Action::Allow,
    ensures
        reasons_spec(s, p, action, arm).len() >= 1,
{
}

pub(crate) fn push_reason_if(v: &mut Vec<String>, b: bool, t: &str)
    ensures
        final(v).deep_view() == old(v).deep_view() + tag_if(b, t@),
{
    if b {
        let ghost before = *v;
        let x = String::from_str(t);
        v.push(x);
        proof {
            lemma_strings_push(before, *v, x);
        }
        assert(before.deep_view().push(t@) =~= before.deep_view() + tag_if(b, t@));
    } else {
        assert(old(v).deep_view() + tag_if(b, t@) =~= old(v).deep_view());
    }
}

pub proof fn lemma_strings_push(a: Vec<String>, b: Vec<String>, e: String)
    requires
        b@ == a@.push(e),
    ensures
        b.deep_view() == a.deep_view().push(e@),
{
    assert(b.deep_view() =~= a.deep_view().push(e@));
}

fn feature_reasons_exec(s: &RiskSignals, p: u32) -> (r: Vec<String>)
    ensures
        r.deep_view() == feature_reasons(*s, p),
{
    let mut v: Vec<String> = Vec::new();
    push_reason_if(&mut v, s.homoglyph > 500_000, "IDN homoglyph detected");
    push_reason_if(&mut v, s.typosquat > 600_000, "Typosquatting suspected");
    push_reason_if(&mut v, s.dga > 700_000, "DGA-generated domain");
    push_reason_if(&mut v, s.entropy > 4_500_000, "High entropy domain");
    push_reason_if(&mut v, s.dynamic_dns > 500_000, "Dynamic DNS provider");
    push_reason_if(&mut v, s.parked > 500_000, "Parked domain detected");
    push_reason_if(&mut v, s.crypto_mining > 500_000, "Cryptojacking indicators");
    push_reason_if(&mut v, p > 800_000, "High ML threat score");
    assert(v.deep_view() =~= feature_reasons(*s, p));
    v
}

/// Composes the reasons of a model decision.
pub fn compose_reasons(s: &RiskSignals, p: u32, action: Action, arm: Option<Action>) -> (r: Vec<String>)
    ensures
        r.deep_view() == reasons_spec(*s, p, action, arm),
        action != Action::Allow ==> r@.len() >= 1,
{
    let mut v = feature_reasons_exec(s, p);
    match arm {
        Some(a) => {
            let ghost before = v;
            let tag = String::from_str("linucb:").concat(a.as_str());
            v.push(tag);
            proof {
                lemma_strings_push(before, v, tag);
            }
        },
        None => {},
    }
    if v.len() == 0 && action != Action::Allow {
        let ghost before = v;
        let x = String::from_str("aggregate_risk");
        v.push(x);
        proof {
            lemma_strings_push(before, v, x);
            assert(v.deep_view() =~= seq!["aggregate_risk"@]);
        }
    }
    v
}

/// The outcome of scoring one domain (identifiers and timing are added by
/// the caller).
pub struct Verdict {
    pub action: Action,
    /// Final probability, in millionths.
    pub probability: u32,
    pub reasons: Vec<String>,
    pub hard_intel_source: Option<String>,
    pub bandit_arm: Option<Action>,
}

impl RiskSignals {
    /// Signals from the lexical features and the scores computed beside
    /// them (typosquat, DGA, entropy, parked; millionths).
    pub fn from_features(f: &DomainFeatures, typosquat: u32, dga: u32, entropy: u32, parked: u32) -> (r: RiskSignals)
        ensures
            r.homoglyph == f.homoglyph_score,
            r.typosquat == typosquat,
            r.dga == dga,
            r.entropy == entropy,
            r.dynamic_dns == if f.dynamic_dns { PROB_ONE } else { 0 },
            r.parked == parked,
            r.crypto_mining == if f.coinblock_hit { PROB_ONE } else { 0 },
    {
        RiskSignals {
            homoglyph: f.homoglyph_score,
            typosquat,
            dga,
            entropy,
            dynamic_dns: if f.dynamic_dns { PROB_ONE } else { 0 },
            parked,
            crypto_mining: if f.coinblock_hit { PROB_ONE } else { 0 },
        }
    }
}

impl Verdict {
    /// The verdict on a hard-intel hit: BLOCK with certainty, the source as
    /// the single reason.
    pub fn hard_intel(m: &IntelMatch) -> (r: Verdict)
        ensures
            r.action == Action::Block,
            r.probability == PROB_ONE,
            r.reasons.deep_view() == seq![m.source@],
            r.reasons@.len() == 1,
            r.hard_intel_source is Some && r.hard_intel_source->0@ == m.source@,
            r.bandit_arm is None,
    {
        let mut reasons: Vec<String> = Vec::new();
        reasons.push(m.source.clone());
        assert(reasons.deep_view() =~= seq![m.source@]);
        Verdict {
            action: Action::Block,
            probability: PROB_ONE,
            reasons,
            hard_intel_source: Some(m.source.clone()),
            bandit_arm: None,
        }
    }

    /// The verdict from the student probability `p`. `arm` is the bandit's
    /// choice, consulted only in the uncertain band.
    pub fn from_model(p: u32, th: &Thresholds, s: &RiskSignals, arm: Option<Action>) -> (r: Verdict)
        ensures
            r.action == policy_action(p, *th, arm),
            r.probability == p,
            r.bandit_arm == (if band_of(p, *th) == Band::Uncertain { arm } else { None }),
            r.reasons.deep_view() == reasons_spec(*s, p, r.action, r.bandit_arm),
            r.action != Action::Allow ==> r.reasons@.len() >= 1,
            r.hard_intel_source is None,
    {
        let b = band(p, th);
        let (action, used) = match b {
            Band::Block => (Action::Block, None),
            Band::Allow => (Action::Allow, None),
            Band::Uncertain => match arm {
                Some(a) => (a, Some(a)),
                None => (Action::Warn, None),
            },
        };
        let reasons = compose_reasons(s, p, action, used);
        Verdict { action, probability: p, reasons, hard_intel_source: None, bandit_arm: used }
    }

    /// Whether the decision goes to deep analysis: the action is not ALLOW,
    /// or the probability is uncertain.
    pub fn needs_deep_analysis(&self, th: &Thresholds) -> (r: bool)
        ensures
            r == (self.action != Action::Allow || band_of(self.probability, *th) == Band::Uncertain),
    {
        match self.action {
            Action::Allow => match band(self.probability, th) {
                Band::Uncertain => true,
                _ => false,
            },
            _ => true,
        }
    }

    /// A field-by-field copy.
    pub fn copy(&self) -> (r: Verdict)
        ensures
            r.action == self.action,
            r.probability == self.probability,
            r.reasons.deep_view() == self.reasons.deep_view(),
            r.hard_intel_source == self.hard_intel_source,
            r.bandit_arm == self.bandit_arm,
    {
        let mut reasons: Vec<String> = Vec::new();
        let mut i: usize = 0;
        while i < self.reasons.len()
            invariant
                i <= self.reasons.len(),
                reasons.deep_view() == self.reasons.deep_view().take(i as int),
            decreases self.reasons.len() - i,
        {
            let ghost before = reasons;
            let x = self.reasons[i].clone();
            reasons.push(x);
            proof {
                lemma_strings_push(before, reasons, x);
                assert(self.reasons.deep_view().take(i + 1) =~= self.reasons.deep_view().take(
                    i as int,
                ).push(x@));
            }
            i = i + 1;
        }
        assert(self.reasons.deep_view().take(i as int) =~= self.reasons.deep_view());
        let src = match &self.hard_intel_source {
            Some(s) => Some(s.clone()),
            None => None,
        };
        Verdict {
            action: self.action,
            probability: self.probability,
            reasons,
            hard_intel_source: src,
            bandit_arm: self.bandit_arm,
        }
    }
}

} // verus!
