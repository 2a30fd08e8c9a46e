use vstd::prelude::*;
use crate::text::{chars_of, lower_ascii, string_of, to_lower_ascii};

verus! {

/// Longest domain accepted for scoring, in characters.
pub const MAX_DOMAIN_LEN: usize = 253;

/// Why a request was refused before any scoring.
#[derive(Debug, Clone, Copy, PartialEq, Eq, Structural)]
pub enum InvalidInput {
    EmptyDomain,
    DomainTooLong,
    NotPunycodable,
    RewardOutOfRange,
}

/// What `idna::domain_to_ascii` returns for `s`: `None` where it reports errors.
pub uninterp spec fn idna_ascii_of(s: Seq<char>) -> Option<Seq<char>>;

/// Relies on `idna::domain_to_ascii`: UTS #46 mapping (lower-casing included)
/// and punycode encoding of each label; the result depends on the input alone.
#[verifier::external_body]
fn domain_to_ascii(s: &str) -> (r: Option<String>)
    ensures
        match r {
            Some(a) => idna_ascii_of(s@) == Some(a@),
            None => idna_ascii_of(s@) is None,
        },
{
    idna::domain_to_ascii(s).ok()
}

/// The outcome of validating and normalizing a raw domain.
pub open spec fn normalized_spec(raw: Seq<char>) -> Result<Seq<char>, InvalidInput> {
    if raw.len() == 0 {
        Err(InvalidInput::EmptyDomain)
    } else if raw.len() > MAX_DOMAIN_LEN {
        Err(InvalidInput::DomainTooLong)
    } else {
        match idna_ascii_of(raw) {
            Some(a) => Ok(lower_ascii(a)),
            None => Err(InvalidInput::NotPunycodable),
        }
    }
}

/// Validates a raw domain (non-empty, at most 253 characters, punycodable)
/// and returns its punycode form with ASCII letters in lower case.
pub fn normalize_domain(raw: &str) -> (r: Result<String, InvalidInput>)
    ensures
        match (r, normalized_spec(raw@)) {
            (Ok(d), Ok(e)) => d@ == e,
            (Err(x), Err(y)) => x == y,
            _ => false,
        },
{
    let n = raw.unicode_len();
    if n == 0 {
        return Err(InvalidInput::EmptyDomain);
    }
    if n > MAX_DOMAIN_LEN {
        return Err(InvalidInput::DomainTooLong);
    }
    match domain_to_ascii(raw) {
        Some(a) => {
            let lowered = to_lower_ascii(&chars_of(a.as_str()));
            Ok(string_of(&lowered))
        },
        None => Err(InvalidInput::NotPunycodable),
    }
}

/// `entry` names `domain` itself or one of its ancestors: it equals the
/// domain, or the part of the domain after one of its dots.
pub open spec fn host_matches(domain: Seq<char>, entry: Seq<char>) -> bool {
    domain == entry || (entry.len() < domain.len() && domain[domain.len() - entry.len() - 1]
        == '.' && domain.subrange(domain.len() - entry.len(), domain.len() as int) == entry)
}

pub fn host_matches_exec(domain: &Vec<char>, entry: &Vec<char>) -> (r: bool)
    ensures
        r == host_matches(domain@, entry@),
{
    let same = crate::text::ends_with(domain, entry);
    if !same {
        proof {
            if domain@ == entry@ {
                assert(domain@.subrange(0, domain@.len() as int) =~= domain@);
            }
        }
        return false;
    }
    if entry.len() == domain.len() {
        assert(domain@.subrange(0, domain@.len() as int) =~= domain@);
        return true;
    }
    domain[domain.len() - entry.len() - 1] == '.'
}

/// Whether `domain` matches one entry of `set` (itself or an ancestor label sequence).
pub open spec fn matches_any(domain: Seq<char>, set: Seq<Seq<char>>) -> bool {
    exists|i: int| 0 <= i < set.len() && host_matches(domain, #[trigger] set[i])
}

pub fn matches_any_exec(domain: &Vec<char>, set: &Vec<Vec<char>>) -> (r: bool)
    ensures
        r == matches_any(domain@, set.deep_view()),
{
    let ghost dv = set.deep_view();
    let mut i: usize = 0;
    while i < set.len()
        invariant
            i <= set.len(),
            dv == set.deep_view(),
            forall|j: int| 0 <= j < i ==> !host_matches(domain@, #[trigger] dv[j]),
        decreases set.len() - i,
    {
        assert(dv[i as int] == set@[i as int]@);
        if host_matches_exec(domain, &set[i]) {
            return true;
        }
        i = i + 1;
    }
    false
}

/// True when `domain` equals an entry of `set` or one of its ancestor
/// domains does.
pub fn exact_or_suffix_match(domain: &str, set: &Vec<String>) -> (r: bool)
    ensures
        r == matches_any(domain@, set.deep_view()),
{
    let d = chars_of(domain);
    let ghost sv = set.deep_view();
    let mut i: usize = 0;
    while i < set.len()
        invariant
            i <= set.len(),
            d@ == domain@,
            sv == set.deep_view(),
            forall|j: int| 0 <= j < i ==> !host_matches(domain@, #[trigger] sv[j]),
        decreases set.len() - i,
    {
        let e = chars_of(set[i].as_str());
        if host_matches_exec(&d, &e) {
            assert(sv[i as int] == set[i as int]@);
            return true;
        }
        i = i + 1;
    }
    false
}

/// Number of occurrences of `c` in `s`.
pub open spec fn count_char(s: Seq<char>, c: char) -> nat
    decreases s.len(),
{
    if s.len() == 0 {
        0
    } else {
        count_char(s.drop_last(), c) + if s.last() == c { 1nat } else { 0nat }
    }
}

pub fn count_char_exec(s: &Vec<char>, c: char) -> (r: usize)
    ensures
        r == count_char(s@, c),
{
    let mut n: usize = 0;
    let mut i: usize = 0;
    while i < s.len()
        invariant
            i <= s.len(),
            n == count_char(s@.take(i as int), c),
            n <= i,
        decreases s.len() - i,
    {
        assert(s@.take(i + 1).drop_last() =~= s@.take(i as int));
        if s[i] == c {
            n = n + 1;
        }
        i = i + 1;
    }
    assert(s@.take(i as int) =~= s@);
    n
}

/// The last label of a domain: what follows its last dot, or all of it.
pub open spec fn last_label(d: Seq<char>) -> Seq<char>
    decreases d.len(),
{
    if d.len() == 0 {
        d
    } else if d.last() == '.' {
        seq![]
    } else {
        last_label(d.drop_last()).push(d.last())
    }
}

pub fn last_label_exec(d: &Vec<char>) -> (r: Vec<char>)
    ensures
        r@ == last_label(d@),
{
    let mut start: usize = d.len();
    while start > 0 && d[start - 1] != '.'
        invariant
            start <= d.len(),
            forall|k: int| start <= k < d.len() ==> d@[k] != '.',
        decreases start,
    {
        start = start - 1;
    }
    let mut r: Vec<char> = Vec::new();
    let mut i: usize = start;
    while i < d.len()
        invariant
            start <= i <= d.len(),
            r@ == d@.subrange(start as int, i as int),
        decreases d.len() - i,
    {
        r.push(d[i]);
        i = i + 1;
    }
    proof {
        lemma_last_label(d@, start as int);
    }
    r
}

proof fn lemma_last_label(d: Seq<char>, start: int)
    requires
        0 <= start <= d.len(),
        start == 0 || d[start - 1] == '.',
        forall|k: int| start <= k < d.len() ==> d[k] != '.',
    ensures
        last_label(d) == d.subrange(start, d.len() as int),
    decreases d.len(),
{
    if d.len() == 0 {
        assert(d.subrange(start, 0) =~= d);
    } else if d.last() == '.' {
        assert(start == d.len());
        assert(d.subrange(start, d.len() as int) =~= seq![]);
    } else {
        if start == d.len() {
            assert(start >= 1);
            assert(false);
        }
        let p = d.drop_last();
        lemma_last_label(p, start);
        assert(p.subrange(start, p.len() as int).push(d.last()) =~= d.subrange(start, d.len() as int));
    }
}

/// The registrable label: the registrable domain without its public
/// suffix and the dot before it (`google` for `google.com` with suffix
/// `com`); the whole name when nothing precedes the suffix.
pub open spec fn registrable_label_spec(registrable: Seq<char>, suffix_len: nat) -> Seq<char> {
    if registrable.len() > suffix_len + 1 {
        registrable.subrange(0, registrable.len() - suffix_len - 1)
    } else {
        registrable
    }
}

/// Cuts the public suffix (`suffix_len` characters, as the suffix list
/// reports it) and its dot off a registrable domain.
pub fn registrable_label(registrable: &str, suffix_len: usize) -> (r: String)
    ensures
        r@ == registrable_label_spec(registrable@, suffix_len as nat),
{
    let n = registrable.unicode_len();
    if suffix_len < n && n - suffix_len > 1 {
        registrable.substring_char(0, n - suffix_len - 1).to_string()
    } else {
        registrable.to_string()
    }
}

} // verus!
