use vstd::prelude::*;
use crate::action::{Action, PROB_ONE};
use crate::bandit::{reward_effect, BanditState, REWARD_ONE};
use crate::cache::{found, TtlCache};
use crate::decision::{band, band_of, policy_action, reasons_spec, Band, RiskSignals, Thresholds, Verdict};
use crate::domain::{normalize_domain, normalized_spec, InvalidInput};
use crate::features::{extract, features_spec, DomainFeatures};
use crate::intel::{lookup_spec, IntelSet, IntelStore};
use crate::telemetry::{sat_inc, Metrics};
use crate::text::lower_ascii;

verus! {

/// Relies on `uuid::Uuid::new_v4` and its hyphenated form: a random
/// identifier, written in 36 characters.
#[verifier::external_body]
fn fresh_decision_id() -> (r: String)
    ensures
        r@.len() == 36,
{
    uuid::Uuid::new_v4().hyphenated().to_string()
}

/// Decision-cache key: the domain, followed by the URL on its own line.
pub open spec fn cache_key(domain: Seq<char>, url: Option<Seq<char>>) -> Seq<char> {
    match url {
        Some(u) => domain + "\n"@ + u,
        None => domain,
    }
}

/// Two verdicts that carry the same content.
pub open spec fn same_verdict(a: Verdict, b: Verdict) -> bool {
    &&& a.action == b.action
    &&& a.probability == b.probability
    &&& a.reasons.deep_view() == b.reasons.deep_view()
    &&& a.hard_intel_source == b.hard_intel_source
    &&& a.bandit_arm == b.bandit_arm
}

/// A scoring answer: a fresh decision id and the verdict.
pub struct Decision {
    pub decision_id: String,
    pub domain: String,
    pub verdict: Verdict,
    pub cache_hit: bool,
}

/// A decision-cache value: the verdict and the domain it was made for.
pub struct CachedDecision {
    pub domain: String,
    pub verdict: Verdict,
}

/// Every cached verdict on a domain that the intel store lists is a
/// certain BLOCK.
pub open spec fn cache_respects_intel(items: Seq<crate::cache::CacheEntry<CachedDecision>>, sets: Seq<IntelSet>) -> bool {
    forall|k: Seq<char>|
        #[trigger] found(items, k) is Some ==> (lookup_spec(sets, lower_ascii(found(items, k)->0.value.domain@)) is Some
            ==> found(items, k)->0.value.verdict.action == Action::Block
            && found(items, k)->0.value.verdict.probability == PROB_ONE)
}

/// Every cached verdict other than ALLOW carries at least one reason.
pub open spec fn cache_has_reasons(items: Seq<crate::cache::CacheEntry<CachedDecision>>) -> bool {
    forall|k: Seq<char>|
        #[trigger] found(items, k) is Some ==> (found(items, k)->0.value.verdict.action != Action::Allow
            ==> found(items, k)->0.value.verdict.reasons@.len() >= 1)
}

proof fn lemma_put_keeps_reasons(
    before: Seq<crate::cache::CacheEntry<CachedDecision>>,
    after: Seq<crate::cache::CacheEntry<CachedDecision>>,
    key: Seq<char>,
)
    requires
        cache_has_reasons(before),
        found(after, key) is Some,
        found(after, key)->0.value.verdict.action != Action::Allow ==> found(after, key)->0.value.verdict.reasons@.len() >= 1,
        forall|k: Seq<char>| k != key ==> found(after, k) is None || found(after, k) == found(before, k),
    ensures
        cache_has_reasons(after),
{
    assert forall|k: Seq<char>| #[trigger] found(after, k) is Some && found(after, k)->0.value.verdict.action != Action::Allow
        implies found(after, k)->0.value.verdict.reasons@.len() >= 1 by {
        if k != key {
            assert(found(before, k) is Some);
        }
    }
}

/// What the student model and the bandit need to finish a decision.
pub struct ModelInput {
    pub domain: String,
    pub key: String,
    pub features: DomainFeatures,
}

/// The first half of scoring: either a final decision (cache or hard
/// intel), or a request for the model.
pub enum Stage {
    Done(Decision),
    Model(ModelInput),
}

/// What a later reward needs from a bandit decision: the arm and its context.
pub struct PendingContext {
    pub arm: Action,
    /// The context, in millionths.
    pub context: Vec<i64>,
}

/// The scoring orchestrator: the intel gate, the feature and decision
/// caches, the pending bandit contexts, the bandit's statistics and the
/// counters. The student model and the bandit's arm selection are computed
/// outside in floating point and handed in.
pub struct ThreatEngine {
    intel: IntelStore,
    thresholds: Thresholds,
    decisions: TtlCache<CachedDecision>,
    features: TtlCache<DomainFeatures>,
    pending: TtlCache<PendingContext>,
    bandit: BanditState,
    telemetry: Metrics,
}

impl ThreatEngine {
    pub closed spec fn intel_spec(&self) -> IntelStore {
        self.intel
    }

    pub closed spec fn thresholds_spec(&self) -> Thresholds {
        self.thresholds
    }

    pub closed spec fn decision_cache(&self) -> TtlCache<CachedDecision> {
        self.decisions
    }

    pub closed spec fn feature_cache(&self) -> TtlCache<DomainFeatures> {
        self.features
    }

    pub closed spec fn pending_spec(&self) -> TtlCache<PendingContext> {
        self.pending
    }

    pub closed spec fn bandit_spec(&self) -> BanditState {
        self.bandit
    }

    pub closed spec fn telemetry_spec(&self) -> Metrics {
        self.telemetry
    }

    /// Every cached feature record is the extraction of its key.
    pub open spec fn features_consistent(&self) -> bool {
        forall|k: Seq<char>|
            #[trigger] found(self.feature_cache().items(), k) is Some ==> found(
                self.feature_cache().items(),
                k,
            )->0.value == features_spec(self.intel_spec(), k)
    }

    pub open spec fn wf(&self) -> bool {
        &&& self.thresholds_spec().wf()
        &&& self.decision_cache().wf()
        &&& self.feature_cache().wf()
        &&& self.pending_spec().wf()
        &&& self.bandit_spec().wf()
        &&& self.features_consistent()
        &&& cache_respects_intel(self.decision_cache().items(), self.intel_spec().sets())
        &&& cache_has_reasons(self.decision_cache().items())
    }

    pub fn new(
        intel: IntelStore,
        thresholds: Thresholds,
        cache_ttl: u64,
        cache_capacity: usize,
        pending_ttl: u64,
        pending_capacity: usize,
        bandit: BanditState,
        now_secs: u64,
    ) -> (r: ThreatEngine)
        requires
            thresholds.wf(),
            cache_capacity > 0,
            pending_capacity > 0,
            bandit.wf(),
        ensures
            r.wf(),
            r.bandit_spec() == bandit,
            r.intel_spec() == intel,
            r.thresholds_spec() == thresholds,
            r.decision_cache().items().len() == 0,
            r.decision_cache().ttl_spec() == cache_ttl,
            r.feature_cache().ttl_spec() == cache_ttl,
            r.pending_spec().ttl_spec() == pending_ttl,
            r.telemetry_spec().total_requests == 0,
            r.telemetry_spec().cache_hits == 0,
            r.telemetry_spec().cache_misses == 0,
            r.telemetry_spec().window_start == now_secs,
    {
        ThreatEngine {
            intel,
            thresholds,
            decisions: TtlCache::new(cache_ttl, cache_capacity),
            features: TtlCache::new(cache_ttl, cache_capacity),
            pending: TtlCache::new(pending_ttl, pending_capacity),
            bandit,
            telemetry: Metrics::new(now_secs),
        }
    }

    /// The bandit's statistics, for arm selection and persistence.
    pub fn bandit(&self) -> (r: &BanditState)
        ensures
            *r == self.bandit_spec(),
    {
        &self.bandit
    }

    pub fn thresholds(&self) -> (r: Thresholds)
        ensures
            r == self.thresholds_spec(),
    {
        self.thresholds
    }

    pub fn telemetry(&self) -> (r: &Metrics)
        ensures
            *r == self.telemetry_spec(),
    {
        &self.telemetry
    }

    pub fn intel(&self) -> (r: &IntelStore)
        ensures
            *r == self.intel_spec(),
    {
        &self.intel
    }

    /// Where a student probability falls for this engine's thresholds;
    /// the bandit is consulted only on `Band::Uncertain`.
    pub fn band(&self, p: u32) -> (r: Band)
        ensures
            r == band_of(p, self.thresholds_spec()),
    {
        band(p, &self.thresholds)
    }

    /// Features of a normalized domain, from the feature cache when fresh.
    /// A cached record is identical to a fresh extraction.
    pub fn features_for(&mut self, domain: &str, now: u64) -> (r: DomainFeatures)
        requires
            old(self).wf(),
        ensures
            final(self).wf(),
            r == features_spec(old(self).intel_spec(), domain@),
            final(self).intel_spec() == old(self).intel_spec(),
            final(self).thresholds_spec() == old(self).thresholds_spec(),
            final(self).decision_cache() == old(self).decision_cache(),
            final(self).pending_spec() == old(self).pending_spec(),
            final(self).telemetry_spec() == old(self).telemetry_spec(),
    {
        let key = domain.to_string();
        match self.features.get(&key, now) {
            Some(f) => *f,
            None => {
                let f = extract(&self.intel, domain);
                self.features.put(key, f, now);
                f
            },
        }
    }

    /// Validates and normalizes `raw`, then answers from the decision cache
    /// or the hard-intel gate, or hands the features over for the model.
    pub fn begin(&mut self, raw: &str, url: Option<&str>, now: u64) -> (r: Result<Stage, InvalidInput>)
        requires
            old(self).wf(),
        ensures
            final(self).wf(),
            final(self).intel_spec() == old(self).intel_spec(),
            final(self).thresholds_spec() == old(self).thresholds_spec(),
            final(self).pending_spec() == old(self).pending_spec(),
            r matches Ok(Stage::Done(dec)) ==> (dec.verdict.action != Action::Allow ==> dec.verdict.reasons@.len() >= 1),
            match normalized_spec(raw@) {
                Err(e) => r == Err::<Stage, InvalidInput>(e) && final(self).telemetry_spec() == old(self).telemetry_spec(),
                Ok(d) => {
                    let key = cache_key(d, match url { Some(u) => Some(u@), None => None });
                    let cached = old(self).decision_cache().lookup(key, now);
                    let hit = cached is Some && cached->0.domain@ == d;
                    &&& lookup_spec(old(self).intel_spec().sets(), lower_ascii(d)) is Some ==> (r matches Ok(Stage::Done(dec))
                        && dec.verdict.action == Action::Block && dec.verdict.probability == PROB_ONE)
                    &&& hit ==> (r matches Ok(Stage::Done(dec)) && dec.cache_hit && dec.domain@ == d
                        && same_verdict(dec.verdict, cached->0.verdict) && dec.decision_id@.len() == 36
                        && final(self).telemetry_spec().cache_hits == sat_inc(old(self).telemetry_spec().cache_hits)
                        && final(self).telemetry_spec().cache_misses == old(self).telemetry_spec().cache_misses)
                    &&& !hit ==> final(self).telemetry_spec().cache_misses == sat_inc(old(self).telemetry_spec().cache_misses)
                        && final(self).telemetry_spec().cache_hits == old(self).telemetry_spec().cache_hits
                        && match lookup_spec(old(self).intel_spec().sets(), lower_ascii(d)) {
                        Some(m) => r matches Ok(Stage::Done(dec)) && !dec.cache_hit && dec.domain@ == d
                            && dec.verdict.reasons.deep_view() == seq![m.0]
                            && dec.verdict.hard_intel_source is Some
                            && dec.verdict.hard_intel_source->0@ == m.0
                            && dec.decision_id@.len() == 36,
                        None => r matches Ok(Stage::Model(mi)) && mi.domain@ == d && mi.key@ == key
                            && mi.features == features_spec(old(self).intel_spec(), d),
                    }
                },
            },
    {
        let d = match normalize_domain(raw) {
            Ok(d) => d,
            Err(e) => {
                return Err(e);
            },
        };
        let key = match url {
            Some(u) => d.clone().concat("\n").concat(u),
            None => d.clone(),
        };
        proof {
            assert(key@ == cache_key(d@, match url { Some(u) => Some(u@), None => None }));
        }
        match self.decisions.get(&key, now) {
            Some(c) => {
                if c.domain == d {
                    proof {
                        assert(found(self.decisions.items(), key@) is Some);
                    }
                    let verdict = c.verdict.copy();
                    assert(verdict.reasons@.len() == verdict.reasons.deep_view().len());
                    self.telemetry.observe_request(true);
                    self.telemetry.record_decision(verdict.action, now);
                    return Ok(Stage::Done(Decision { decision_id: fresh_decision_id(), domain: d, verdict, cache_hit: true }));
                }
            },
            None => {},
        }
        self.telemetry.observe_request(false);
        match self.intel.lookup(d.as_str()) {
            Some(m) => {
                let verdict = Verdict::hard_intel(&m);
                let stored = CachedDecision { domain: d.clone(), verdict: verdict.copy() };
                assert(stored.verdict.reasons@.len() == stored.verdict.reasons.deep_view().len());
                let ghost before = self.decisions.items();
                let ghost kv = key@;
                self.decisions.put(key, stored, now);
                proof {
                    lemma_put_keeps_reasons(before, self.decisions.items(), kv);
                }
                self.telemetry.record_decision(verdict.action, now);
                Ok(Stage::Done(Decision { decision_id: fresh_decision_id(), domain: d, verdict, cache_hit: false }))
            },
            None => {
                let features = self.features_for(d.as_str(), now);
                Ok(Stage::Model(ModelInput { domain: d, key, features }))
            },
        }
    }

    /// Finishes a decision from the student probability `p` (millionths),
    /// the risk signals and, in the uncertain band, the bandit's arm. The
    /// hard-intel gate is consulted again, so a domain listed meanwhile is
    /// still blocked. A bandit decision is not cached; its arm and `context`
    /// are kept for the reward under the new decision id. Any other decision
    /// is cached.
    pub fn finish(
        &mut self,
        input: ModelInput,
        p: u32,
        signals: &RiskSignals,
        arm: Option<Action>,
        context: Vec<i64>,
        now: u64,
    ) -> (dec: Decision)
        requires
            old(self).wf(),
        ensures
            final(self).wf(),
            final(self).intel_spec() == old(self).intel_spec(),
            final(self).thresholds_spec() == old(self).thresholds_spec(),
            !dec.cache_hit,
            dec.domain@ == input.domain@,
            dec.decision_id@.len() == 36,
            match lookup_spec(old(self).intel_spec().sets(), lower_ascii(input.domain@)) {
                Some(m) => {
                    &&& dec.verdict.action == Action::Block
                    &&& dec.verdict.probability == PROB_ONE
                    &&& dec.verdict.reasons.deep_view() == seq![m.0]
                    &&& dec.verdict.hard_intel_source is Some
                    &&& dec.verdict.hard_intel_source->0@ == m.0
                },
                None => {
                    let th = old(self).thresholds_spec();
                    let used = if band_of(p, th) == Band::Uncertain { arm } else { None };
                    &&& dec.verdict.action == policy_action(p, th, arm)
                    &&& dec.verdict.probability == p
                    &&& dec.verdict.bandit_arm == used
                    &&& dec.verdict.hard_intel_source is None
                    &&& dec.verdict.reasons.deep_view() == reasons_spec(*signals, p, dec.verdict.action, used)
                    &&& used is Some ==> found(final(self).pending_spec().items(), dec.decision_id@)
                        == Some(crate::cache::CacheEntry { key: dec.decision_id, value: PendingContext { arm: used->0, context }, inserted_at: now })
                    &&& used is None ==> (found(final(self).decision_cache().items(), input.key@) matches Some(e)
                        && e.value.domain@ == input.domain@ && same_verdict(e.value.verdict, dec.verdict) && e.inserted_at == now)
                },
            },
            dec.verdict.action != Action::Allow ==> dec.verdict.reasons@.len() >= 1,
    {
        let id = fresh_decision_id();
        match self.intel.lookup(input.domain.as_str()) {
            Some(m) => {
                let verdict = Verdict::hard_intel(&m);
                let stored = CachedDecision { domain: input.domain.clone(), verdict: verdict.copy() };
                assert(stored.verdict.reasons@.len() == stored.verdict.reasons.deep_view().len());
                let ghost before = self.decisions.items();
                let ghost kv = input.key@;
                self.decisions.put(input.key, stored, now);
                proof {
                    lemma_put_keeps_reasons(before, self.decisions.items(), kv);
                }
                self.telemetry.record_decision(verdict.action, now);
                return Decision { decision_id: id, domain: input.domain, verdict, cache_hit: false };
            },
            None => {},
        }
        let verdict = Verdict::from_model(p, &self.thresholds, signals, arm);
        match verdict.bandit_arm {
            Some(a) => {
                self.pending.put(id.clone(), PendingContext { arm: a, context }, now);
            },
            None => {
                let stored = CachedDecision { domain: input.domain.clone(), verdict: verdict.copy() };
                assert(stored.verdict.reasons@.len() == stored.verdict.reasons.deep_view().len());
                let ghost before = self.decisions.items();
                let ghost kv = input.key@;
                self.decisions.put(input.key, stored, now);
                proof {
                    lemma_put_keeps_reasons(before, self.decisions.items(), kv);
                }
            },
        }
        self.telemetry.record_decision(verdict.action, now);
        Decision { decision_id: id, domain: input.domain, verdict, cache_hit: false }
    }

    /// Validates a reward (millionths, within [-1, 1]) and applies it to the
    /// bandit arm and context kept for the decision. `Ok(false)`: no context
    /// of the bandit's dimension is known, the reward is for audit only and
    /// the bandit is unchanged.
    pub fn process_feedback(&mut self, decision_id: &String, reward: i32, now: u64) -> (r: Result<bool, InvalidInput>)
        requires
            old(self).wf(),
        ensures
            final(self).wf(),
            final(self).intel_spec() == old(self).intel_spec(),
            final(self).thresholds_spec() == old(self).thresholds_spec(),
            final(self).decision_cache() == old(self).decision_cache(),
            final(self).feature_cache() == old(self).feature_cache(),
            final(self).pending_spec() == old(self).pending_spec(),
            final(self).telemetry_spec() == old(self).telemetry_spec(),
            (reward < -1_000_000 || reward > 1_000_000) ==> r == Err::<bool, InvalidInput>(InvalidInput::RewardOutOfRange)
                && final(self).bandit_spec() == old(self).bandit_spec(),
            (-1_000_000 <= reward <= 1_000_000) ==> ({
                let p = old(self).pending_spec().lookup(decision_id@, now);
                let applies = p is Some && p->0.context@.len() == old(self).bandit_spec().dim;
                &&& r == Ok::<bool, InvalidInput>(applies)
                &&& applies ==> reward_effect(old(self).bandit_spec(), final(self).bandit_spec(), p->0.arm, p->0.context@, reward as i64)
                &&& !applies ==> final(self).bandit_spec() == old(self).bandit_spec()
            }),
    {
        if reward < -1_000_000 || reward > 1_000_000 {
            return Err(InvalidInput::RewardOutOfRange);
        }
        let r = reward as i64;
        assert(-REWARD_ONE <= r <= REWARD_ONE);
        match self.pending.get(decision_id, now) {
            Some(p) => {
                if p.context.len() == self.bandit.dim {
                    self.bandit.update(p.arm, &p.context, r);
                    Ok(true)
                } else {
                    Ok(false)
                }
            },
            None => Ok(false),
        }
    }

    /// Publishes a refreshed block-list for the source at `index` (a failed
    /// fetch, `None`, keeps the snapshot). Cached decisions are dropped so
    /// that no verdict outlives the snapshot it was made on.
    pub fn refresh_intel(&mut self, index: usize, fetched: Option<IntelSet>)
        requires
            old(self).wf(),
            index < old(self).intel_spec().sets().len(),
        ensures
            final(self).wf(),
            fetched is None ==> final(self).intel_spec().sets() == old(self).intel_spec().sets(),
            fetched is Some ==> final(self).intel_spec().sets() == old(self).intel_spec().sets().update(index as int, fetched->0),
            final(self).decision_cache().items().len() == 0,
            final(self).thresholds_spec() == old(self).thresholds_spec(),
    {
        let ghost before = self.intel;
        self.intel.refresh_source(index, fetched);
        let ttl = self.decisions.ttl();
        let cap = self.decisions.capacity();
        self.decisions = TtlCache::new(ttl, cap);
        assert forall|k: Seq<char>| features_spec(self.intel, k) == features_spec(before, k) by {}
    }
}

/// Feature caching is transparent: in a well-formed engine, a cached
/// feature record under a domain is exactly what a fresh extraction of that
/// domain gives, so repeated extractions agree whether or not they hit.
pub proof fn lemma_cached_features_identical(e: ThreatEngine, domain: Seq<char>, now: u64)
    requires
        e.wf(),
        e.feature_cache().lookup(domain, now) is Some,
    ensures
        e.feature_cache().lookup(domain, now)->0 == features_spec(e.intel_spec(), domain),
{
    assert(found(e.feature_cache().items(), domain) is Some);
}

/// The hard-intel gate also holds for cached answers: in a well-formed
/// engine, a fresh cached decision on a listed domain is a BLOCK with
/// probability one.
pub proof fn lemma_cached_listed_domain_blocked(e: ThreatEngine, key: Seq<char>, now: u64)
    requires
        e.wf(),
        e.decision_cache().lookup(key, now) is Some,
        lookup_spec(e.intel_spec().sets(), lower_ascii(e.decision_cache().lookup(key, now)->0.domain@)) is Some,
    ensures
        e.decision_cache().lookup(key, now)->0.verdict.action == Action::Block,
        e.decision_cache().lookup(key, now)->0.verdict.probability == PROB_ONE,
{
    assert(found(e.decision_cache().items(), key) is Some);
}

} // verus!
