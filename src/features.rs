use vstd::prelude::*;
use crate::action::PROB_ONE;
use crate::domain::{host_matches, last_label};
use crate::decision::{push_reason_if, tag_if};
use crate::intel::IntelStore;
use crate::text::{chars_of, contains, contains_seq};

verus! {

/// Character classes counted by the featurizer.
#[derive(Debug, Clone, Copy, PartialEq, Eq, Structural)]
pub enum CharClass {
    Digit,
    Dash,
    Dot,
    Letter,
    Vowel,
    Consonant,
    NonAlnum,
    NonAscii,
}

pub open spec fn is_letter(c: char) -> bool {
    ('a' <= c && c <= 'z') || ('A' <= c && c <= 'Z')
}

pub open spec fn is_vowel(c: char) -> bool {
    c == 'a' || c == 'e' || c == 'i' || c == 'o' || c == 'u'
}

pub open spec fn is_digit(c: char) -> bool {
    '0' <= c && c <= '9'
}

pub open spec fn in_class(c: char, k: CharClass) -> bool {
    match k {
        CharClass::Digit => is_digit(c),
        CharClass::Dash => c == '-',
        CharClass::Dot => c == '.',
        CharClass::Letter => is_letter(c),
        CharClass::Vowel => is_vowel(c),
        CharClass::Consonant => is_letter(c) && !is_vowel(c),
        CharClass::NonAlnum => !is_letter(c) && !is_digit(c),
        CharClass::NonAscii => (c as u32) >= 128,
    }
}

pub fn in_class_exec(c: char, k: CharClass) -> (r: bool)
    ensures
        r == in_class(c, k),
{
    let letter = ('a' <= c && c <= 'z') || ('A' <= c && c <= 'Z');
    let vowel = c == 'a' || c == 'e' || c == 'i' || c == 'o' || c == 'u';
    let digit = '0' <= c && c <= '9';
    match k {
        CharClass::Digit => digit,
        CharClass::Dash => c == '-',
        CharClass::Dot => c == '.',
        CharClass::Letter => letter,
        CharClass::Vowel => vowel,
        CharClass::Consonant => letter && !vowel,
        CharClass::NonAlnum => !letter && !digit,
        CharClass::NonAscii => (c as u32) >= 128,
    }
}

/// Number of characters of `s` in class `k`.
pub open spec fn count_in(s: Seq<char>, k: CharClass) -> nat
    decreases s.len(),
{
    if s.len() == 0 {
        0
    } else {
        count_in(s.drop_last(), k) + if in_class(s.last(), k) {
            1nat
        } else {
            0nat
        }
    }
}

/// Length of the run of class-`k` characters that ends `s`.
pub open spec fn trailing_run(s: Seq<char>, k: CharClass) -> nat
    decreases s.len(),
{
    if s.len() == 0 || !in_class(s.last(), k) {
        0
    } else {
        trailing_run(s.drop_last(), k) + 1
    }
}

/// Longest run of consecutive class-`k` characters in `s`.
pub open spec fn max_run(s: Seq<char>, k: CharClass) -> nat
    decreases s.len(),
{
    if s.len() == 0 {
        0
    } else {
        let m = max_run(s.drop_last(), k);
        let t = trailing_run(s, k);
        if m >= t {
            m
        } else {
            t
        }
    }
}

proof fn lemma_count_le(s: Seq<char>, k: CharClass)
    ensures
        count_in(s, k) <= s.len(),
        max_run(s, k) <= s.len(),
        trailing_run(s, k) <= s.len(),
    decreases s.len(),
{
    if s.len() > 0 {
        lemma_count_le(s.drop_last(), k);
    }
}

pub fn count_in_exec(s: &Vec<char>, k: CharClass) -> (r: usize)
    ensures
        r == count_in(s@, k),
{
    let mut n: usize = 0;
    let mut i: usize = 0;
    while i < s.len()
        invariant
            i <= s.len(),
            n == count_in(s@.take(i as int), k),
        decreases s.len() - i,
    {
        proof {
            lemma_count_le(s@.take(i as int), k);
        }
        assert(s@.take(i + 1).drop_last() =~= s@.take(i as int));
        if in_class_exec(s[i], k) {
            n = n + 1;
        }
        i = i + 1;
    }
    assert(s@.take(i as int) =~= s@);
    n
}

pub fn max_run_exec(s: &Vec<char>, k: CharClass) -> (r: usize)
    ensures
        r == max_run(s@, k),
{
    let mut best: usize = 0;
    let mut cur: usize = 0;
    let mut i: usize = 0;
    while i < s.len()
        invariant
            i <= s.len(),
            cur == trailing_run(s@.take(i as int), k),
            best == max_run(s@.take(i as int), k),
        decreases s.len() - i,
    {
        proof {
            lemma_count_le(s@.take(i as int), k);
        }
        assert(s@.take(i + 1).drop_last() =~= s@.take(i as int));
        if in_class_exec(s[i], k) {
            cur = cur + 1;
        } else {
            cur = 0;
        }
        if cur > best {
            best = cur;
        }
        i = i + 1;
    }
    assert(s@.take(i as int) =~= s@);
    best
}

/// Internationalized or punycoded: holds an `xn--` label or a non-ASCII character.
pub open spec fn homoglyph_like(s: Seq<char>) -> bool {
    contains_seq(s, "xn--"@) || count_in(s, CharClass::NonAscii) > 0
}

/// Whether `s` looks like an IDN homoglyph attempt: it holds `xn--` or
/// any non-ASCII character.
pub fn looks_like_homoglyph(s: &str) -> (r: bool)
    ensures
        r == homoglyph_like(s@),
{
    let c = chars_of(s);
    let x = chars_of("xn--");
    if contains(&c, &x) {
        return true;
    }
    count_in_exec(&c, CharClass::NonAscii) > 0
}

/// Top-level domains often used for abuse.
pub open spec fn suspicious_tlds() -> Seq<Seq<char>> {
    seq![
        "tk"@, "ml"@, "ga"@, "cf"@, "pw"@, "bit"@, "click"@, "download"@, "link"@, "racing"@,
        "review"@, "science"@, "work"@, "party"@,
    ]
}

/// Hosts known to serve in-browser coin miners.
pub open spec fn coinblock_hosts() -> Seq<Seq<char>> {
    seq!["coinhive.com"@, "webminepool.com"@, "coinimp.com"@]
}

fn eq_chars(a: &Vec<char>, b: &str) -> (r: bool)
    ensures
        r == (a@ == b@),
{
    let bc = chars_of(b);
    if a.len() != bc.len() {
        return false;
    }
    let r = crate::text::occurs_at_exec(a, &bc, 0);
    assert(a@.subrange(0, a@.len() as int) =~= a@);
    r
}

pub fn is_suspicious_tld(tld: &Vec<char>) -> (r: bool)
    ensures
        r == suspicious_tlds().contains(tld@),
{
    let r = eq_chars(tld, "tk") || eq_chars(tld, "ml") || eq_chars(tld, "ga") || eq_chars(tld, "cf")
        || eq_chars(tld, "pw") || eq_chars(tld, "bit") || eq_chars(tld, "click") || eq_chars(
        tld,
        "download",
    ) || eq_chars(tld, "link") || eq_chars(tld, "racing") || eq_chars(tld, "review") || eq_chars(
        tld,
        "science",
    ) || eq_chars(tld, "work") || eq_chars(tld, "party");
    proof {
        let l = suspicious_tlds();
        if r {
            assert(exists|i: int| 0 <= i < l.len() && l[i] == tld@);
        } else {
            assert forall|i: int| 0 <= i < l.len() implies l[i] != tld@ by {}
        }
    }
    r
}

pub fn is_coinblock_host(d: &Vec<char>) -> (r: bool)
    ensures
        r == exists|i: int| 0 <= i < coinblock_hosts().len() && contains_seq(d@, #[trigger] coinblock_hosts()[i]),
{
    let a = chars_of("coinhive.com");
    let b = chars_of("webminepool.com");
    let c = chars_of("coinimp.com");
    let r = contains(d, &a) || contains(d, &b) || contains(d, &c);
    proof {
        let l = coinblock_hosts();
        if r {
            if contains_seq(d@, a@) {
                assert(contains_seq(d@, l[0]));
            } else if contains_seq(d@, b@) {
                assert(contains_seq(d@, l[1]));
            } else {
                assert(contains_seq(d@, l[2]));
            }
        } else {
            assert forall|i: int| 0 <= i < l.len() implies !contains_seq(d@, #[trigger] l[i]) by {}
        }
    }
    r
}

/// Lexical features of a normalized domain, all from string analysis.
/// Scores are in millionths.
#[derive(Debug, Clone, Copy, PartialEq, Eq, Structural)]
pub struct DomainFeatures {
    pub length: usize,
    pub digits: usize,
    pub dashes: usize,
    pub dots: usize,
    pub letters: usize,
    pub vowels: usize,
    pub non_alnum: usize,
    pub max_consonant_run: usize,
    pub is_idn: bool,
    pub homoglyph_score: u32,
    pub suspicious_tld: bool,
    pub dynamic_dns: bool,
    pub coinblock_hit: bool,
}

/// Heuristic DGA score in millionths: 0.3 for high entropy, 0.2 for a vowel
/// share under one fifth, 0.2 for a consonant run over four, 0.3 for digits
/// over a third of the length; capped at 1.
pub open spec fn dga_score_spec(high_entropy: bool, length: nat, vowels: nat, run: nat, digits: nat) -> nat {
    let s = (if high_entropy { 300_000nat } else { 0nat })
        + (if 5 * vowels < length { 200_000nat } else { 0nat })
        + (if run > 4 { 200_000nat } else { 0nat })
        + (if digits > length / 3 { 300_000nat } else { 0nat });
    if s > PROB_ONE { PROB_ONE as nat } else { s }
}

impl DomainFeatures {
    /// The DGA score of these features; `high_entropy` says whether the
    /// Shannon entropy of the domain exceeds 4 bits.
    pub fn dga_score(&self, high_entropy: bool) -> (r: u32)
        ensures
            r == dga_score_spec(high_entropy, self.length as nat, self.vowels as nat, self.max_consonant_run as nat, self.digits as nat),
            r <= PROB_ONE,
    {
        let mut s: u32 = 0;
        if high_entropy {
            s = s + 300_000;
        }
        if self.vowels < self.length / 5 || (self.vowels == self.length / 5 && self.length % 5 != 0) {
            s = s + 200_000;
        }
        if self.max_consonant_run > 4 {
            s = s + 200_000;
        }
        if self.digits > self.length / 3 {
            s = s + 300_000;
        }
        if s > PROB_ONE {
            s = PROB_ONE;
        }
        s
    }
}

/// Machine tags of the featurizer, in order: homoglyph, typosquat (from a
/// similarity of at least 0.85), dynamic DNS, cryptojacking host.
pub open spec fn feature_tags_spec(f: DomainFeatures, typosquat: u32) -> Seq<Seq<char>> {
    tag_if(f.homoglyph_score > 500_000, "idn_homoglyph"@) + tag_if(typosquat >= 850_000, "typosquat_brand"@)
        + tag_if(f.dynamic_dns, "dynamic_dns_provider"@) + tag_if(f.coinblock_hit, "cryptojacking_host"@)
}

impl DomainFeatures {
    /// The featurizer's machine tags; `typosquat` is the brand similarity in millionths.
    pub fn tags(&self, typosquat: u32) -> (r: Vec<String>)
        ensures
            r.deep_view() == feature_tags_spec(*self, typosquat),
    {
        let mut v: Vec<String> = Vec::new();
        push_reason_if(&mut v, self.homoglyph_score > 500_000, "idn_homoglyph");
        push_reason_if(&mut v, typosquat >= 850_000, "typosquat_brand");
        push_reason_if(&mut v, self.dynamic_dns, "dynamic_dns_provider");
        push_reason_if(&mut v, self.coinblock_hit, "cryptojacking_host");
        assert(v.deep_view() =~= feature_tags_spec(*self, typosquat));
        v
    }
}

pub open spec fn features_spec(store: IntelStore, d: Seq<char>) -> DomainFeatures {
    DomainFeatures {
        length: d.len() as usize,
        digits: count_in(d, CharClass::Digit) as usize,
        dashes: count_in(d, CharClass::Dash) as usize,
        dots: count_in(d, CharClass::Dot) as usize,
        letters: count_in(d, CharClass::Letter) as usize,
        vowels: count_in(d, CharClass::Vowel) as usize,
        non_alnum: count_in(d, CharClass::NonAlnum) as usize,
        max_consonant_run: max_run(d, CharClass::Consonant) as usize,
        is_idn: homoglyph_like(d),
        homoglyph_score: if homoglyph_like(d) { PROB_ONE } else { 0 },
        suspicious_tld: suspicious_tlds().contains(last_label(d)),
        dynamic_dns: exists|i: int| 0 <= i < store.providers().len() && host_matches(d, #[trigger] store.providers()[i]),
        coinblock_hit: exists|i: int| 0 <= i < coinblock_hosts().len() && contains_seq(d, #[trigger] coinblock_hosts()[i]),
    }
}

/// Extracts the lexical features of a normalized domain. Pure and
/// deterministic: the result is a function of the domain and the store.
pub fn extract(store: &IntelStore, domain: &str) -> (r: DomainFeatures)
    ensures
        r == features_spec(*store, domain@),
{
    let d = chars_of(domain);
    let idn = looks_like_homoglyph(domain);
    let tld = crate::domain::last_label_exec(&d);
    DomainFeatures {
        length: d.len(),
        digits: count_in_exec(&d, CharClass::Digit),
        dashes: count_in_exec(&d, CharClass::Dash),
        dots: count_in_exec(&d, CharClass::Dot),
        letters: count_in_exec(&d, CharClass::Letter),
        vowels: count_in_exec(&d, CharClass::Vowel),
        non_alnum: count_in_exec(&d, CharClass::NonAlnum),
        max_consonant_run: max_run_exec(&d, CharClass::Consonant),
        is_idn: idn,
        homoglyph_score: if idn { PROB_ONE } else { 0 },
        suspicious_tld: is_suspicious_tld(&tld),
        dynamic_dns: store.is_dynamic_dns(domain),
        coinblock_hit: is_coinblock_host(&d),
    }
}

} // verus!
