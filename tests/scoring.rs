use garuda::action::{Action, DecisionAction, PROB_ONE};
use garuda::bandit::BanditState;
use garuda::cache::TtlCache;
use garuda::config::{FeatureConfig, FeedbackResponse, ThreatDetectors};
use garuda::decision::{compose_reasons, Band, RiskSignals, Thresholds, Verdict};
use garuda::domain::{exact_or_suffix_match, normalize_domain, InvalidInput};
use garuda::engine::{ThreatEngine, Stage};
use garuda::features::{extract, looks_like_homoglyph};
use garuda::intel::{parse_host_list, IntelSet, IntelStore};
use garuda::telemetry::Metrics;

fn chars(s: &str) -> Vec<char> {
    s.chars().collect()
}

fn quiet() -> RiskSignals {
    RiskSignals { homoglyph: 0, typosquat: 0, dga: 0, entropy: 0, dynamic_dns: 0, parked: 0, crypto_mining: 0 }
}

fn engine_with(abuse: &str) -> ThreatEngine {
    let store = IntelStore::new(vec![IntelSet::abuse_ch(abuse), IntelSet::spamhaus("")]);
    ThreatEngine::new(store, Thresholds::default_thresholds(), 300, 1000, 86_400, 1000, BanditState::new(3), 0)
}

fn model_input(s: Result<Stage, InvalidInput>) -> garuda::engine::ModelInput {
    match s {
        Ok(Stage::Model(m)) => m,
        _ => panic!("expected the model stage"),
    }
}

#[test]
fn arm_index_round_trip() {
    for a in [Action::Allow, Action::Warn, Action::Block] {
        assert_eq!(Action::from_arm_index(a.as_arm_index()), a);
    }
    assert_eq!(Action::Allow.as_arm_index(), 0);
    assert_eq!(Action::Block.as_arm_index(), 2);
    assert_eq!(Action::from_arm_index(7), Action::Allow);
}

#[test]
fn action_names() {
    assert_eq!(Action::Warn.as_str(), "WARN");
    assert_eq!(DecisionAction::BLOCK.as_str(), "BLOCK");
    assert_eq!(DecisionAction::from_action(Action::Allow), DecisionAction::ALLOW);
    assert_eq!(DecisionAction::WARN.to_action(), Action::Warn);
}

#[test]
fn threshold_rule_is_monotone_on_samples() {
    let mut last = Action::Allow;
    for p in (0..=PROB_ONE).step_by(50_000) {
        let a = Action::from_probability(p, 500_000, 800_000);
        assert!(last.at_most(&a));
        last = a;
    }
    assert_eq!(Action::from_probability(800_000, 500_000, 800_000), Action::Block);
    assert_eq!(Action::from_probability(499_999, 500_000, 800_000), Action::Allow);
}

#[test]
fn policy_without_bandit_is_monotone() {
    let th = Thresholds::default_thresholds();
    let mut last = Action::Allow;
    for p in (0..=PROB_ONE).step_by(10_000) {
        let v = Verdict::from_model(p, &th, &quiet(), None);
        assert!(last.at_most(&v.action));
        last = v.action;
    }
    assert_eq!(Verdict::from_model(300_000, &th, &quiet(), None).action, Action::Allow);
    assert_eq!(Verdict::from_model(300_001, &th, &quiet(), None).action, Action::Warn);
    assert_eq!(Verdict::from_model(800_000, &th, &quiet(), None).action, Action::Block);
}

#[test]
fn thresholds_checked() {
    assert!(Thresholds::new(300_000, 800_000).is_some());
    assert!(Thresholds::new(900_000, 800_000).is_none());
    assert!(Thresholds::new(0, PROB_ONE + 1).is_none());
}

#[test]
fn empty_domain_is_invalid() {
    assert_eq!(normalize_domain(""), Err(InvalidInput::EmptyDomain));
}

#[test]
fn domain_length_limit() {
    let label = "a".repeat(63);
    let ok = format!("{}.{}.{}.{}", label, label, label, "a".repeat(61));
    assert_eq!(ok.len(), 253);
    assert_eq!(normalize_domain(&ok), Ok(ok.clone()));
    let long = format!("{}a", ok);
    assert_eq!(normalize_domain(&long), Err(InvalidInput::DomainTooLong));
}

#[test]
fn normalization_lowercases_and_punycodes() {
    assert_eq!(normalize_domain("Google.COM"), Ok("google.com".to_string()));
    let d = normalize_domain("g\u{03bf}ogle.com").unwrap();
    assert!(d.starts_with("xn--"));
    assert!(d.is_ascii());
    assert_eq!(normalize_domain("localhost"), Ok("localhost".to_string()));
    assert_eq!(normalize_domain("xn--pple-43d.com"), Ok("xn--pple-43d.com".to_string()));
}

#[test]
fn suffix_matching_follows_labels() {
    let set = vec!["example.com".to_string()];
    assert!(exact_or_suffix_match("example.com", &set));
    assert!(exact_or_suffix_match("bad.example.com", &set));
    assert!(!exact_or_suffix_match("notexample.com", &set));
    assert!(!exact_or_suffix_match("com", &set));
    assert!(!exact_or_suffix_match("example.com.evil", &set));
}

#[test]
fn intel_list_parsing() {
    let hosts = parse_host_list("# header\n\n  Malware.Example  \nfoo.bar\r\n#x.y\nlast");
    assert_eq!(hosts, vec![chars("malware.example"), chars("foo.bar"), chars("last")]);
    assert!(parse_host_list("").is_empty());
}

#[test]
fn intel_lookup_reports_first_source() {
    let store = IntelStore::new(vec![
        IntelSet::abuse_ch("evil.test\n"),
        IntelSet::spamhaus("evil.test\nspam.test\n"),
    ]);
    let m = store.lookup("a.b.evil.test").unwrap();
    assert_eq!(m.source, "abuse.ch");
    assert_eq!(m.confidence, 950_000);
    let m = store.lookup("spam.test").unwrap();
    assert_eq!(m.source, "spamhaus");
    assert_eq!(m.category, "spam");
    assert!(store.lookup("good.test").is_none());
    let stats = store.get_statistics();
    assert_eq!(stats.host_counts, vec![1, 2]);
}

#[test]
fn intel_refresh_failure_keeps_snapshot() {
    let mut store = IntelStore::new(vec![IntelSet::abuse_ch("evil.test")]);
    store.refresh_source(0, None);
    assert!(store.lookup("evil.test").is_some());
    store.refresh_source(0, Some(IntelSet::abuse_ch("other.test")));
    assert!(store.lookup("evil.test").is_none());
    assert!(store.lookup("x.other.test").is_some());
}

#[test]
fn dynamic_dns_suffixes() {
    let store = IntelStore::new(vec![]);
    assert!(store.is_dynamic_dns("myhost.duckdns.org"));
    assert!(store.is_dynamic_dns("a.b.zapto.org"));
    assert!(store.is_dynamic_dns("duckdns.org"));
    assert!(!store.is_dynamic_dns("notduckdns.org"));
    assert!(!store.is_dynamic_dns("example.org"));
}

#[test]
fn lexical_features_exact() {
    let store = IntelStore::new(vec![]);
    let f = extract(&store, "a1-bcdfg2.tk");
    assert_eq!(f.length, 12);
    assert_eq!(f.digits, 2);
    assert_eq!(f.dashes, 1);
    assert_eq!(f.dots, 1);
    assert_eq!(f.letters, 8);
    assert_eq!(f.vowels, 1);
    assert_eq!(f.non_alnum, 2);
    assert_eq!(f.max_consonant_run, 5);
    assert!(f.suspicious_tld);
    assert!(!f.is_idn);
    assert_eq!(f.homoglyph_score, 0);
    assert!(!f.dynamic_dns);
    assert!(!f.coinblock_hit);
    let g = extract(&store, "cdn.coinhive.com");
    assert!(g.coinblock_hit);
    assert!(!g.suspicious_tld);
}

#[test]
fn all_zero_features_for_plain_label() {
    let store = IntelStore::new(vec![]);
    let f = extract(&store, "aaa");
    assert_eq!(f.digits + f.dashes + f.dots + f.non_alnum + f.max_consonant_run, 0);
    assert_eq!(f.dga_score(false), 0);
}

#[test]
fn dga_score_increments() {
    let store = IntelStore::new(vec![]);
    let f = extract(&store, "xkcdqz7741.com");
    // vowel share under a fifth, consonant run of six, digits not over a third
    assert_eq!(f.dga_score(false), 400_000);
    assert_eq!(f.dga_score(true), 700_000);
    let g = extract(&store, "x9b8c7d6q5.tk");
    // digits over a third and no vowels, but no long consonant run
    assert_eq!(g.dga_score(true), 800_000);
    let h = extract(&store, "bcdfgh98765.tk");
    assert_eq!(h.dga_score(false), 700_000);
    assert_eq!(h.dga_score(true), PROB_ONE);
}

#[test]
fn cyrillic_lookalike_is_flagged() {
    let mut e = engine_with("");
    let m = model_input(e.begin("p\u{0430}ypal.com", None, 0));
    assert!(m.domain.starts_with("xn--"));
    assert!(m.features.is_idn);
    assert_eq!(m.features.homoglyph_score, PROB_ONE);
}

#[test]
fn single_label_domain() {
    let store = IntelStore::new(vec![]);
    let f = extract(&store, "localhost");
    assert_eq!(f.dots, 0);
    assert!(!f.suspicious_tld);
    let mut e = engine_with("");
    assert!(matches!(e.begin("localhost", None, 0), Ok(Stage::Model(_))));
}

#[test]
fn homoglyph_detection() {
    assert!(looks_like_homoglyph("xn--pple-43d.com"));
    assert!(looks_like_homoglyph("g\u{03bf}ogle.com"));
    assert!(!looks_like_homoglyph("google.com"));
}

#[test]
fn extraction_is_deterministic() {
    let store = IntelStore::new(vec![]);
    assert_eq!(extract(&store, "abc-123.ddns.net"), extract(&store, "abc-123.ddns.net"));
    let mut e = engine_with("");
    let a = e.features_for("abc-123.ddns.net", 10);
    let b = e.features_for("abc-123.ddns.net", 20);
    assert_eq!(a, b);
    assert!(a.dynamic_dns);
}

#[test]
fn reasons_follow_the_mapping() {
    let s = RiskSignals {
        homoglyph: 1_000_000,
        typosquat: 600_000,
        dga: 700_001,
        entropy: 4_600_000,
        dynamic_dns: 0,
        parked: 0,
        crypto_mining: 900_000,
    };
    let r = compose_reasons(&s, 850_000, Action::Block, None);
    assert_eq!(
        r,
        vec![
            "IDN homoglyph detected",
            "DGA-generated domain",
            "High entropy domain",
            "Cryptojacking indicators",
            "High ML threat score"
        ]
    );
}

#[test]
fn fallback_reason_when_not_allow() {
    assert_eq!(compose_reasons(&quiet(), 500_000, Action::Warn, None), vec!["aggregate_risk"]);
    assert!(compose_reasons(&quiet(), 100_000, Action::Allow, None).is_empty());
    assert_eq!(compose_reasons(&quiet(), 500_000, Action::Warn, Some(Action::Warn)), vec!["linucb:WARN"]);
}

#[test]
fn non_allow_verdicts_have_reasons() {
    let th = Thresholds::default_thresholds();
    for p in (0..=PROB_ONE).step_by(25_000) {
        for arm in [None, Some(Action::Allow), Some(Action::Warn), Some(Action::Block)] {
            let v = Verdict::from_model(p, &th, &quiet(), arm);
            if v.action != Action::Allow {
                assert!(!v.reasons.is_empty());
            }
        }
    }
}

#[test]
fn deep_analysis_rule() {
    let th = Thresholds::default_thresholds();
    assert!(!Verdict::from_model(100_000, &th, &quiet(), None).needs_deep_analysis(&th));
    assert!(Verdict::from_model(500_000, &th, &quiet(), Some(Action::Allow)).needs_deep_analysis(&th));
    assert!(Verdict::from_model(900_000, &th, &quiet(), None).needs_deep_analysis(&th));
}

#[test]
fn ttl_cache_expiry_and_eviction() {
    let mut c: TtlCache<u32> = TtlCache::new(10, 2);
    c.put("a".to_string(), 1, 0);
    assert_eq!(c.get(&"a".to_string(), 9), Some(&1));
    assert_eq!(c.get(&"a".to_string(), 10), None);
    c.put("a".to_string(), 2, 5);
    assert_eq!(c.get(&"a".to_string(), 9), Some(&2));
    assert_eq!(c.len(), 1);
    c.put("b".to_string(), 3, 5);
    c.put("c".to_string(), 4, 6);
    assert_eq!(c.len(), 2);
    assert_eq!(c.get(&"a".to_string(), 7), None);
    assert_eq!(c.get(&"b".to_string(), 7), Some(&3));
    assert_eq!(c.get(&"c".to_string(), 7), Some(&4));
}

#[test]
fn telemetry_daily_window() {
    let mut t = Metrics::new(0);
    t.observe_request(true);
    t.observe_request(false);
    t.record_decision(Action::Block, 10);
    t.record_decision(Action::Allow, 20);
    assert_eq!((t.total_requests, t.cache_hits, t.cache_misses), (2, 1, 1));
    assert_eq!(t.decisions_today(), 2);
    t.record_decision(Action::Warn, 86_400);
    assert_eq!((t.allow_count, t.warn_count, t.block_count), (0, 1, 0));
    assert_eq!(t.window_start, 86_400);
}

#[test]
fn reward_bounds() {
    let mut e = engine_with("");
    let id = "none".to_string();
    for r in [-1_000_000, 0, 1_000_000] {
        assert!(matches!(e.process_feedback(&id, r, 0), Ok(false)));
    }
    assert!(matches!(e.process_feedback(&id, 1_000_001, 0), Err(InvalidInput::RewardOutOfRange)));
    assert!(matches!(e.process_feedback(&id, -1_000_001, 0), Err(InvalidInput::RewardOutOfRange)));
}

#[test]
fn benign_domain_is_allowed() {
    let mut e = engine_with("");
    let m = model_input(e.begin("google.com", None, 0));
    assert_eq!(m.domain, "google.com");
    assert_eq!(e.band(120_000), Band::Allow);
    let d = e.finish(m, 120_000, &quiet(), None, vec![], 0);
    assert_eq!(d.verdict.action, Action::Allow);
    assert!(d.verdict.probability < 300_000);
}

#[test]
fn listed_domain_is_blocked() {
    let mut e = engine_with("# abuse feed\nmalware.example\n");
    match e.begin("malware.example", None, 0) {
        Ok(Stage::Done(d)) => {
            assert_eq!(d.verdict.action, Action::Block);
            assert_eq!(d.verdict.probability, PROB_ONE);
            assert_eq!(d.verdict.reasons, vec!["abuse.ch"]);
            assert_eq!(d.verdict.hard_intel_source.as_deref(), Some("abuse.ch"));
        }
        _ => panic!("expected a hard-intel block"),
    }
    match e.begin("cdn.Malware.example", Some("http://x/"), 0) {
        Ok(Stage::Done(d)) => assert_eq!(d.verdict.action, Action::Block),
        _ => panic!("expected a hard-intel block"),
    }
}

#[test]
fn greek_omicron_gives_homoglyph_reason() {
    let mut e = engine_with("");
    let m = model_input(e.begin("g\u{03bf}ogle.com", None, 0));
    assert!(m.features.homoglyph_score > 500_000);
    let s = RiskSignals { homoglyph: m.features.homoglyph_score, ..quiet() };
    let d = e.finish(m, 200_000, &s, None, vec![], 0);
    assert!(d.verdict.reasons.iter().any(|r| r == "IDN homoglyph detected"));
}

#[test]
fn punycode_input_is_idn() {
    let mut e = engine_with("");
    let m = model_input(e.begin("xn--pple-43d.com", None, 0));
    assert!(m.features.is_idn);
    let s = RiskSignals { homoglyph: m.features.homoglyph_score, ..quiet() };
    let d = e.finish(m, 200_000, &s, None, vec![], 0);
    assert!(d.verdict.reasons.iter().any(|r| r == "IDN homoglyph detected"));
}

#[test]
fn repeated_requests_hit_the_cache() {
    let mut e = engine_with("");
    let mut model_runs = 0;
    let mut ids = std::collections::HashSet::new();
    for _ in 0..1000 {
        match e.begin("example.org", None, 5).unwrap() {
            Stage::Done(d) => {
                assert!(d.cache_hit);
                assert_eq!(d.verdict.action, Action::Allow);
                ids.insert(d.decision_id);
            }
            Stage::Model(m) => {
                model_runs += 1;
                let d = e.finish(m, 100_000, &quiet(), None, vec![], 5);
                ids.insert(d.decision_id);
            }
        }
    }
    assert_eq!(model_runs, 1);
    assert_eq!(e.telemetry().cache_misses, 1);
    assert_eq!(e.telemetry().cache_hits, 999);
    assert_eq!(ids.len(), 1000);
}

#[test]
fn decision_ids_are_fresh_on_cache_hits() {
    let mut e = engine_with("");
    let m = model_input(e.begin("example.net", None, 0));
    let first = e.finish(m, 50_000, &quiet(), None, vec![], 0);
    let second = match e.begin("example.net", None, 1) {
        Ok(Stage::Done(d)) => d,
        _ => panic!("expected a cache hit"),
    };
    assert!(second.cache_hit);
    assert_eq!(second.decision_id.len(), 36);
    assert_ne!(first.decision_id, second.decision_id);
}

#[test]
fn uncertain_decision_keeps_bandit_context() {
    let mut e = engine_with("");
    let m = model_input(e.begin("uncertain.example", None, 0));
    assert_eq!(e.band(550_000), Band::Uncertain);
    let d = e.finish(m, 550_000, &quiet(), Some(Action::Block), vec![7, 8, 9], 0);
    assert_eq!(d.verdict.action, Action::Block);
    assert_eq!(d.verdict.bandit_arm, Some(Action::Block));
    assert_eq!(d.verdict.reasons, vec!["linucb:BLOCK"]);
    assert_eq!(e.process_feedback(&d.decision_id, 1_000_000, 10), Ok(true));
    assert_eq!(e.bandit().arm_counts, vec![0, 0, 1]);
    assert_eq!(e.bandit().arms[2].b, vec![7_000_000, 8_000_000, 9_000_000]);
    // a bandit decision is not cached: the next request runs the model again
    assert!(matches!(e.begin("uncertain.example", None, 1), Ok(Stage::Model(_))));
}

#[test]
fn intel_refresh_drops_cached_decisions() {
    let mut e = engine_with("");
    let m = model_input(e.begin("later.bad", None, 0));
    e.finish(m, 10_000, &quiet(), None, vec![], 0);
    e.refresh_intel(0, Some(IntelSet::abuse_ch("later.bad")));
    match e.begin("later.bad", None, 1) {
        Ok(Stage::Done(d)) => assert_eq!(d.verdict.action, Action::Block),
        _ => panic!("expected a hard-intel block"),
    }
}

#[test]
fn detectors_and_feedback_response() {
    let c = FeatureConfig::default_config();
    assert_eq!(ThreatDetectors::new(&c).config.feature_cache_ttl, 300);
    assert!(FeedbackResponse::for_outcome(false).success);
    assert_eq!(FeedbackResponse::for_outcome(true).message, "reward applied");
}

#[test]
fn url_features_exact() {
    let f = garuda::url_features::extract_url_features("https://PayPal-Login.example.com/a/b/c?x=1&y=2#frag").unwrap();
    assert_eq!(f.url_length, 51);
    let u = garuda::url_features::extract_url_features("https://\u{00e9}t\u{00e9}.example/").unwrap();
    assert_eq!(u.url_length, 22);
    assert_eq!(f.path_depth, 3);
    assert_eq!(f.query_params, 2);
    assert!(f.has_fragment);
    assert_eq!(f.suspicious_keywords, 1);
    assert_eq!(f.brand_keywords, 1);
    let g = garuda::url_features::extract_url_features("http://example.com").unwrap();
    assert_eq!(g.path_depth, 1);
    assert_eq!(g.query_params, 0);
    assert!(!g.has_fragment);
}

#[test]
fn url_without_scheme_has_no_features() {
    assert!(garuda::url_features::extract_url_features("example.com/login").is_none());
}

#[test]
fn featurizer_tags() {
    let store = IntelStore::new(vec![]);
    let f = extract(&store, "xn--pple-43d.com");
    assert_eq!(f.tags(900_000), vec!["idn_homoglyph", "typosquat_brand"]);
    let g = extract(&store, "miner.coinimp.com.duckdns.org");
    assert_eq!(g.tags(0), vec!["dynamic_dns_provider", "cryptojacking_host"]);
    let s = RiskSignals::from_features(&g, 0, 0, 0, 0);
    assert_eq!(s.crypto_mining, PROB_ONE);
    assert_eq!(s.dynamic_dns, PROB_ONE);
}

#[test]
fn feedback_updates_the_chosen_arm() {
    let mut e = engine_with("");
    let m = model_input(e.begin("maybe.example", None, 0));
    let d = e.finish(m, 600_000, &quiet(), Some(Action::Warn), vec![250_000, 0, 1_000_000], 0);
    let arm = d.verdict.bandit_arm.unwrap();
    assert_eq!(arm, Action::Warn);
    let trace = |s: &BanditState, a: Action| -> i128 { (0..3).map(|i| s.arms[a.as_arm_index()].a[i][i]).sum() };
    let before = trace(e.bandit(), arm);
    assert_eq!(e.process_feedback(&d.decision_id, 1_000_000, 5), Ok(true));
    assert_eq!(trace(e.bandit(), arm), before + 250_000i128 * 250_000 + 1_000_000i128 * 1_000_000);
    assert_eq!(trace(e.bandit(), Action::Allow), before);
    assert_eq!(e.bandit().total_count, 1);
    assert_eq!(e.bandit().total_reward, 1_000_000);
}

#[test]
fn feedback_without_context_is_audit_only() {
    let mut e = engine_with("");
    let m = model_input(e.begin("short.example", None, 0));
    let d = e.finish(m, 600_000, &quiet(), Some(Action::Allow), vec![1], 0);
    assert_eq!(e.process_feedback(&d.decision_id, 500_000, 1), Ok(false));
    assert_eq!(e.bandit().total_count, 0);
}

#[test]
fn intel_matching_ignores_case() {
    let store = IntelStore::new(vec![IntelSet::abuse_ch("Evil.Test\n")]);
    assert!(store.lookup("WWW.EVIL.test").is_some());
    assert_eq!(normalize_domain("WWW.Evil.TEST"), Ok("www.evil.test".to_string()));
}

#[test]
fn registrable_label_cuts_suffix() {
    assert_eq!(garuda::domain::registrable_label("google.com", 3), "google");
    assert_eq!(garuda::domain::registrable_label("bbc.co.uk", 5), "bbc");
    assert_eq!(garuda::domain::registrable_label("com", 3), "com");
}
