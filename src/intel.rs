use vstd::prelude::*;
use crate::action::PROB_ONE;
use crate::domain::{host_matches, host_matches_exec, matches_any, matches_any_exec};
use crate::text::{
    chars_of, lower_ascii, to_lower_ascii, trim, trim_bounds,
};

verus! {

/// The host named by one line of an intel list: the trimmed line in lower
/// case, unless it is blank or a `#` comment.
pub open spec fn entry_of_line(line: Seq<char>) -> Option<Seq<char>> {
    let t = trim(line);
    if t.len() == 0 || t[0] == '#' {
        None
    } else {
        Some(lower_ascii(t))
    }
}

pub open spec fn emit(line: Seq<char>) -> Seq<Seq<char>> {
    match entry_of_line(line) {
        Some(e) => seq![e],
        None => seq![],
    }
}

/// Hosts of the text `rest`, the current line having begun with `line`.
pub open spec fn parse_from(rest: Seq<char>, line: Seq<char>) -> Seq<Seq<char>>
    decreases rest.len(),
{
    if rest.len() == 0 {
        emit(line)
    } else if rest[0] == '\n' {
        emit(line) + parse_from(rest.drop_first(), seq![])
    } else {
        parse_from(rest.drop_first(), line.push(rest[0]))
    }
}

/// The hosts listed in a flat intel file, one per line, in file order.
pub open spec fn host_list(text: Seq<char>) -> Seq<Seq<char>> {
    parse_from(text, seq![])
}

pub fn entry_of_line_exec(line: &Vec<char>) -> (r: Option<Vec<char>>)
    ensures
        match (r, entry_of_line(line@)) {
            (Some(a), Some(b)) => a@ == b,
            (None, None) => true,
            _ => false,
        },
{
    let (a, b) = trim_bounds(line);
    if a == b || line[a] == '#' {
        return None;
    }
    let mut t: Vec<char> = Vec::new();
    let mut i: usize = a;
    while i < b
        invariant
            a <= i <= b <= line.len(),
            t@ == line@.subrange(a as int, i as int),
        decreases b - i,
    {
        t.push(line[i]);
        i = i + 1;
    }
    Some(to_lower_ascii(&t))
}

fn push_entry(out: &mut Vec<Vec<char>>, line: &Vec<char>)
    ensures
        final(out).deep_view() == old(out).deep_view() + emit(line@),
{
    match entry_of_line_exec(line) {
        Some(e) => {
            let ghost before = *out;
            out.push(e);
            proof {
                crate::text::lemma_deep_view_push(before, *out, e);
                assert(before.deep_view().push(e@) =~= before.deep_view() + emit(line@));
            }
        },
        None => {
            assert(old(out).deep_view() + emit(line@) =~= old(out).deep_view());
        },
    }
}

/// Parses a flat intel list: one host per line; blank lines and `#`
/// comments are skipped; surrounding white space is removed and ASCII
/// letters are lower-cased.
pub fn parse_host_list(text: &str) -> (r: Vec<Vec<char>>)
    ensures
        r.deep_view() == host_list(text@),
{
    let t = chars_of(text);
    let mut out: Vec<Vec<char>> = Vec::new();
    let mut cur: Vec<char> = Vec::new();
    let mut i: usize = 0;
    assert(t@.subrange(0, t@.len() as int) =~= t@);
    while i < t.len()
        invariant
            i <= t.len(),
            t@ == text@,
            out.deep_view() + parse_from(t@.subrange(i as int, t@.len() as int), cur@) == host_list(
                text@,
            ),
        decreases t.len() - i,
    {
        let ghost rest = t@.subrange(i as int, t@.len() as int);
        assert(rest.drop_first() =~= t@.subrange(i + 1, t@.len() as int));
        let c = t[i];
        if c == '\n' {
            let ghost before = out.deep_view();
            push_entry(&mut out, &cur);
            assert(before + (emit(cur@) + parse_from(rest.drop_first(), seq![])) =~= (before + emit(
                cur@,
            )) + parse_from(rest.drop_first(), seq![]));
            cur = Vec::new();
        } else {
            cur.push(c);
        }
        i = i + 1;
    }
    push_entry(&mut out, &cur);
    out
}

/// One curated block-list: its hosts, and what a match on it means.
pub struct IntelSet {
    pub source: String,
    pub category: String,
    /// Prior confidence of a match, in millionths.
    pub confidence: u32,
    pub hosts: Vec<Vec<char>>,
}

/// What a hit in the intel store reports.
pub struct IntelMatch {
    pub source: String,
    pub category: String,
    pub confidence: u32,
}

impl IntelSet {
    pub open spec fn hosts(&self) -> Seq<Seq<char>> {
        self.hosts.deep_view()
    }

    /// Builds a set from the text of a flat list file.
    pub fn parse(source: &str, category: &str, confidence: u32, text: &str) -> (r: IntelSet)
        requires
            confidence <= PROB_ONE,
        ensures
            r.source@ == source@,
            r.category@ == category@,
            r.confidence == confidence,
            r.hosts() == host_list(text@),
    {
        IntelSet {
            source: source.to_string(),
            category: category.to_string(),
            confidence,
            hosts: parse_host_list(text),
        }
    }

    /// Curated malware feed.
    pub fn abuse_ch(text: &str) -> (r: IntelSet)
        ensures
            r.source@ == "abuse.ch"@,
            r.confidence == 950_000,
            r.hosts() == host_list(text@),
    {
        IntelSet::parse("abuse.ch", "malware", 950_000, text)
    }

    /// Phishing feed.
    pub fn phishtank(text: &str) -> (r: IntelSet)
        ensures
            r.source@ == "phishtank"@,
            r.confidence == 900_000,
            r.hosts() == host_list(text@),
    {
        IntelSet::parse("phishtank", "phishing", 900_000, text)
    }

    /// Spam DROP list.
    pub fn spamhaus(text: &str) -> (r: IntelSet)
        ensures
            r.source@ == "spamhaus"@,
            r.confidence == 920_000,
            r.hosts() == host_list(text@),
    {
        IntelSet::parse("spamhaus", "spam", 920_000, text)
    }

    /// Coin-miner host list.
    pub fn coinblocker(text: &str) -> (r: IntelSet)
        ensures
            r.source@ == "coinblocker"@,
            r.confidence == 850_000,
            r.hosts() == host_list(text@),
    {
        IntelSet::parse("coinblocker", "cryptojacking", 850_000, text)
    }

    pub fn len(&self) -> (r: usize)
        ensures
            r == self.hosts().len(),
    {
        self.hosts.len()
    }

    pub fn matches(&self, domain: &Vec<char>) -> (r: bool)
        ensures
            r == matches_any(domain@, self.hosts()),
    {
        matches_any_exec(domain, &self.hosts)
    }
}

/// Index of the first set that `domain` matches, if any.
pub open spec fn first_hit(sets: Seq<IntelSet>, domain: Seq<char>) -> Option<int>
    decreases sets.len(),
{
    if sets.len() == 0 {
        None
    } else {
        match first_hit(sets.drop_last(), domain) {
            Some(i) => Some(i),
            None => if matches_any(domain, sets.last().hosts()) {
                Some(sets.len() - 1)
            } else {
                None
            },
        }
    }
}

proof fn lemma_first_hit_prefix(sets: Seq<IntelSet>, domain: Seq<char>, n: int)
    requires
        0 <= n < sets.len(),
        forall|j: int| 0 <= j < n ==> !matches_any(domain, #[trigger] sets[j].hosts()),
    ensures
        first_hit(sets.take(n), domain) is None,
        first_hit(sets.take(n + 1), domain) == if matches_any(domain, sets[n].hosts()) {
            Some(n)
        } else {
            None::<int>
        },
    decreases n,
{
    if n > 0 {
        lemma_first_hit_prefix(sets, domain, n - 1);
        assert(sets.take(n).drop_last() =~= sets.take(n - 1));
    }
    assert(sets.take(n + 1).drop_last() =~= sets.take(n));
}

/// The hard-intel snapshot: the block-lists, and the dynamic-DNS providers
/// consulted by the featurizer.
pub struct IntelStore {
    sources: Vec<IntelSet>,
    dynamic_dns: Vec<Vec<char>>,
}

/// Where a domain hits the store: the first set it matches.
pub open spec fn lookup_spec(sets: Seq<IntelSet>, domain: Seq<char>) -> Option<(Seq<char>, Seq<char>, u32)> {
    match first_hit(sets, domain) {
        Some(i) => Some((sets[i].source@, sets[i].category@, sets[i].confidence)),
        None => None,
    }
}

fn push_host(v: &mut Vec<Vec<char>>, s: &str)
    ensures
        final(v).deep_view() == old(v).deep_view().push(s@),
{
    let ghost before = *v;
    let c = chars_of(s);
    v.push(c);
    proof {
        crate::text::lemma_deep_view_push(before, *v, c);
    }
}

/// Known dynamic-DNS provider suffixes.
pub open spec fn dynamic_dns_providers() -> Seq<Seq<char>> {
    seq![
        "dyndns.org"@, "no-ip.com"@, "ddns.net"@, "freedns.afraid.org"@, "changeip.com"@,
        "dnsdynamic.org"@, "duckdns.org"@, "noip.me"@, "3utilities.com"@, "bounceme.net"@,
        "ddns.me"@, "gotdns.ch"@, "hopto.org"@, "myftp.biz"@, "myftp.org"@, "myftpaccess.com"@,
        "servebeer.com"@, "servecounterstrike.com"@, "serveftp.com"@, "servegame.com"@,
        "servehalflife.com"@, "servehttp.com"@, "serveirc.com"@, "serveminecraft.net"@,
        "servemp3.com"@, "servepics.com"@, "servequake.com"@, "sytes.net"@, "viewdns.net"@,
        "webhop.me"@, "zapto.org"@, "no-ip.org"@, "dynu.net"@,
    ]
}

/// Per-source sizes of the current snapshot.
pub struct IntelStatistics {
    pub host_counts: Vec<usize>,
    pub dynamic_dns_providers: usize,
}

impl IntelStore {
    pub closed spec fn sets(&self) -> Seq<IntelSet> {
        self.sources@
    }

    pub closed spec fn providers(&self) -> Seq<Seq<char>> {
        self.dynamic_dns.deep_view()
    }

    pub fn new(sources: Vec<IntelSet>) -> (r: IntelStore)
        ensures
            r.sets() == sources@,
            r.providers() == dynamic_dns_providers(),
    {
        let mut v: Vec<Vec<char>> = Vec::new();
        push_host(&mut v, "dyndns.org");
        push_host(&mut v, "no-ip.com");
        push_host(&mut v, "ddns.net");
        push_host(&mut v, "freedns.afraid.org");
        push_host(&mut v, "changeip.com");
        push_host(&mut v, "dnsdynamic.org");
        push_host(&mut v, "duckdns.org");
        push_host(&mut v, "noip.me");
        push_host(&mut v, "3utilities.com");
        push_host(&mut v, "bounceme.net");
        push_host(&mut v, "ddns.me");
        push_host(&mut v, "gotdns.ch");
        push_host(&mut v, "hopto.org");
        push_host(&mut v, "myftp.biz");
        push_host(&mut v, "myftp.org");
        push_host(&mut v, "myftpaccess.com");
        push_host(&mut v, "servebeer.com");
        push_host(&mut v, "servecounterstrike.com");
        push_host(&mut v, "serveftp.com");
        push_host(&mut v, "servegame.com");
        push_host(&mut v, "servehalflife.com");
        push_host(&mut v, "servehttp.com");
        push_host(&mut v, "serveirc.com");
        push_host(&mut v, "serveminecraft.net");
        push_host(&mut v, "servemp3.com");
        push_host(&mut v, "servepics.com");
        push_host(&mut v, "servequake.com");
        push_host(&mut v, "sytes.net");
        push_host(&mut v, "viewdns.net");
        push_host(&mut v, "webhop.me");
        push_host(&mut v, "zapto.org");
        push_host(&mut v, "no-ip.org");
        push_host(&mut v, "dynu.net");
        assert(v.deep_view() =~= dynamic_dns_providers());
        IntelStore { sources, dynamic_dns: v }
    }

    /// Looks `domain` up in every set, in order, and reports the first set
    /// that it matches. Matching ignores ASCII case: the domain is
    /// lower-cased, as the lists are when parsed.
    pub fn lookup(&self, domain: &str) -> (r: Option<IntelMatch>)
        ensures
            match (r, lookup_spec(self.sets(), lower_ascii(domain@))) {
                (Some(m), Some(e)) => m.source@ == e.0 && m.category@ == e.1 && m.confidence == e.2,
                (None, None) => true,
                _ => false,
            },
    {
        let d = to_lower_ascii(&chars_of(domain));
        let ghost ld = lower_ascii(domain@);
        let mut i: usize = 0;
        while i < self.sources.len()
            invariant
                i <= self.sources.len(),
                d@ == ld,
                ld == lower_ascii(domain@),
                forall|j: int| 0 <= j < i ==> !matches_any(ld, #[trigger] self.sources@[j].hosts()),
            decreases self.sources.len() - i,
        {
            proof {
                lemma_first_hit_prefix(self.sources@, ld, i as int);
            }
            let s = &self.sources[i];
            if s.matches(&d) {
                proof {
                    assert(forall|k: int| #![auto] i + 1 <= k <= self.sources@.len() ==> first_hit(self.sources@.take(k), ld) == Some(i as int)) by {
                        assert forall|k: int| #![auto] i + 1 <= k <= self.sources@.len() implies first_hit(self.sources@.take(k), ld) == Some(i as int) by {
                            lemma_first_hit_extend(self.sources@, ld, i as int, k);
                        }
                    }
                    assert(self.sources@.take(self.sources@.len() as int) =~= self.sources@);
                    lemma_first_hit_extend(self.sources@, ld, i as int, self.sources@.len() as int);
                    assert(first_hit(self.sources@, ld) == Some(i as int));
                }
                return Some(IntelMatch {
                    source: s.source.clone(),
                    category: s.category.clone(),
                    confidence: s.confidence,
                });
            }
            i = i + 1;
        }
        proof {
            lemma_no_hit(self.sources@, ld);
        }
        None
    }

    /// Whether `domain` is a known dynamic-DNS provider or lies under one
    /// (the same label rule as the block-lists).
    pub fn is_dynamic_dns(&self, domain: &str) -> (r: bool)
        ensures
            r == exists|i: int| 0 <= i < self.providers().len() && host_matches(domain@, #[trigger] self.providers()[i]),
    {
        let d = chars_of(domain);
        let ghost pv = self.dynamic_dns.deep_view();
        let mut i: usize = 0;
        while i < self.dynamic_dns.len()
            invariant
                i <= self.dynamic_dns.len(),
                d@ == domain@,
                pv == self.dynamic_dns.deep_view(),
                forall|j: int| 0 <= j < i ==> !host_matches(domain@, #[trigger] pv[j]),
            decreases self.dynamic_dns.len() - i,
        {
            assert(pv[i as int] == self.dynamic_dns@[i as int]@);
            if host_matches_exec(&d, &self.dynamic_dns[i]) {
                assert(host_matches(domain@, self.providers()[i as int]));
                return true;
            }
            i = i + 1;
        }
        false
    }

    /// Publishes a freshly fetched set for the source at `index`; a failed
    /// fetch (`None`) leaves the snapshot as it was.
    pub fn refresh_source(&mut self, index: usize, fetched: Option<IntelSet>)
        requires
            index < old(self).sets().len(),
        ensures
            final(self).providers() == old(self).providers(),
            fetched is None ==> final(self).sets() == old(self).sets(),
            fetched is Some ==> final(self).sets() == old(self).sets().update(index as int, fetched->0),
    {
        match fetched {
            Some(s) => {
                self.sources.set(index, s);
            },
            None => {},
        }
    }

    pub fn get_statistics(&self) -> (r: IntelStatistics)
        ensures
            r.host_counts@.len() == self.sets().len(),
            forall|i: int| 0 <= i < self.sets().len() ==> r.host_counts@[i] == self.sets()[i].hosts().len(),
            r.dynamic_dns_providers == self.providers().len(),
    {
        let mut counts: Vec<usize> = Vec::new();
        let mut i: usize = 0;
        while i < self.sources.len()
            invariant
                i <= self.sources.len(),
                counts@.len() == i,
                forall|j: int| 0 <= j < i ==> counts@[j] == self.sources@[j].hosts().len(),
            decreases self.sources.len() - i,
        {
            counts.push(self.sources[i].len());
            i = i + 1;
        }
        IntelStatistics { host_counts: counts, dynamic_dns_providers: self.dynamic_dns.len() }
    }
}

proof fn lemma_first_hit_extend(sets: Seq<IntelSet>, domain: Seq<char>, i: int, k: int)
    requires
        0 <= i < sets.len(),
        i + 1 <= k <= sets.len(),
        forall|j: int| 0 <= j < i ==> !matches_any(domain, #[trigger] sets[j].hosts()),
        matches_any(domain, sets[i].hosts()),
    ensures
        first_hit(sets.take(k), domain) == Some(i),
    decreases k,
{
    if k == i + 1 {
        lemma_first_hit_prefix(sets, domain, i);
    } else {
        lemma_first_hit_extend(sets, domain, i, k - 1);
        assert(sets.take(k).drop_last() =~= sets.take(k - 1));
    }
}

proof fn lemma_no_hit(sets: Seq<IntelSet>, domain: Seq<char>)
    requires
        forall|j: int| 0 <= j < sets.len() ==> !matches_any(domain, #[trigger] sets[j].hosts()),
    ensures
        first_hit(sets, domain) is None,
    decreases sets.len(),
{
    if sets.len() > 0 {
        let p = sets.drop_last();
        assert forall|j: int| 0 <= j < p.len() implies !matches_any(domain, #[trigger] p[j].hosts()) by {
            assert(p[j] == sets[j]);
        }
        lemma_no_hit(p, domain);
    }
}

} // verus!
