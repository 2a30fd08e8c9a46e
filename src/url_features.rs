use vstd::prelude::*;
use crate::domain::{count_char, count_char_exec};
use vstd::string::StringSliceAdditionalSpecFns;
use crate::text::{chars_of, contains, contains_seq, lower_ascii, to_lower_ascii};

verus! {

/// The parts of a parsed URL that the featurizer reads.
pub struct UrlComponents {
    pub path: String,
    pub query_pairs: usize,
    pub has_fragment: bool,
}

/// What `url::Url::parse` makes of `s`: `None` where it fails, else the
/// path, the number of query pairs and whether a fragment is present.
pub uninterp spec fn url_components_of(s: Seq<char>) -> Option<(Seq<char>, nat, bool)>;

/// Relies on `url::Url::parse` (WHATWG URL parsing of an absolute URL) and
/// on its accessors `path`, `query_pairs` and `fragment`; the outcome
/// depends on the input alone.
#[verifier::external_body]
fn url_components(s: &str) -> (r: Option<UrlComponents>)
    ensures
        match (r, url_components_of(s@)) {
            (Some(c), Some(e)) => c.path@ == e.0 && c.query_pairs == e.1 && c.has_fragment == e.2,
            (None, None) => true,
            _ => false,
        },
{
    match url::Url::parse(s) {
        Ok(u) => Some(
            UrlComponents {
                path: u.path().to_string(),
                query_pairs: u.query_pairs().count(),
                has_fragment: u.fragment().is_some(),
            },
        ),
        Err(_) => None,
    }
}

/// Keywords of credential-phishing lures.
pub open spec fn suspicious_keywords() -> Seq<Seq<char>> {
    seq![
        "login"@, "signin"@, "account"@, "verify"@, "secure"@, "update"@, "confirm"@,
        "suspended"@, "blocked"@, "urgent"@, "immediate"@, "click"@, "download"@, "free"@,
        "winner"@, "prize"@, "offer"@,
    ]
}

/// Brand and payment names that phishing pages impersonate.
pub open spec fn brand_keywords() -> Seq<Seq<char>> {
    seq![
        "paypal"@, "amazon"@, "apple"@, "microsoft"@, "google"@, "facebook"@, "twitter"@,
        "instagram"@, "linkedin"@, "ebay"@, "banking"@, "bank"@, "visa"@, "mastercard"@,
        "creditcard"@, "wallet"@, "bitcoin"@,
    ]
}

/// How many of `kws` occur in `s`.
pub open spec fn count_present(s: Seq<char>, kws: Seq<Seq<char>>) -> nat
    decreases kws.len(),
{
    if kws.len() == 0 {
        0
    } else {
        count_present(s, kws.drop_last()) + if contains_seq(s, kws.last()) {
            1nat
        } else {
            0nat
        }
    }
}

fn push_word(v: &mut Vec<Vec<char>>, s: &str)
    ensures
        final(v).deep_view() == old(v).deep_view().push(s@),
{
    let ghost before = *v;
    let c = chars_of(s);
    v.push(c);
    proof {
        crate::text::lemma_deep_view_push(before, *v, c);
    }
}

fn suspicious_keyword_list() -> (r: Vec<Vec<char>>)
    ensures
        r.deep_view() == suspicious_keywords(),
{
    let mut v: Vec<Vec<char>> = Vec::new();
    push_word(&mut v, "login");
    push_word(&mut v, "signin");
    push_word(&mut v, "account");
    push_word(&mut v, "verify");
    push_word(&mut v, "secure");
    push_word(&mut v, "update");
    push_word(&mut v, "confirm");
    push_word(&mut v, "suspended");
    push_word(&mut v, "blocked");
    push_word(&mut v, "urgent");
    push_word(&mut v, "immediate");
    push_word(&mut v, "click");
    push_word(&mut v, "download");
    push_word(&mut v, "free");
    push_word(&mut v, "winner");
    push_word(&mut v, "prize");
    push_word(&mut v, "offer");
    assert(v.deep_view() =~= suspicious_keywords());
    v
}

fn brand_keyword_list() -> (r: Vec<Vec<char>>)
    ensures
        r.deep_view() == brand_keywords(),
{
    let mut v: Vec<Vec<char>> = Vec::new();
    push_word(&mut v, "paypal");
    push_word(&mut v, "amazon");
    push_word(&mut v, "apple");
    push_word(&mut v, "microsoft");
    push_word(&mut v, "google");
    push_word(&mut v, "facebook");
    push_word(&mut v, "twitter");
    push_word(&mut v, "instagram");
    push_word(&mut v, "linkedin");
    push_word(&mut v, "ebay");
    push_word(&mut v, "banking");
    push_word(&mut v, "bank");
    push_word(&mut v, "visa");
    push_word(&mut v, "mastercard");
    push_word(&mut v, "creditcard");
    push_word(&mut v, "wallet");
    push_word(&mut v, "bitcoin");
    assert(v.deep_view() =~= brand_keywords());
    v
}

/// Counts the keywords of `kws` that occur in `s`.
pub fn count_keywords(s: &Vec<char>, kws: &Vec<Vec<char>>) -> (r: usize)
    ensures
        r == count_present(s@, kws.deep_view()),
{
    let ghost kv = kws.deep_view();
    let mut n: usize = 0;
    let mut i: usize = 0;
    while i < kws.len()
        invariant
            i <= kws.len(),
            kv == kws.deep_view(),
            n == count_present(s@, kv.take(i as int)),
            n <= i,
        decreases kws.len() - i,
    {
        assert(kv.take(i + 1).drop_last() =~= kv.take(i as int));
        assert(kv[i as int] == kws@[i as int]@);
        if contains(s, &kws[i]) {
            n = n + 1;
        }
        i = i + 1;
    }
    assert(kv.take(i as int) =~= kv);
    n
}

/// Lexical features of a URL.
#[derive(Debug, Clone, Copy, PartialEq, Eq, Structural)]
pub struct UrlFeatures {
    /// Length in bytes.
    pub url_length: usize,
    pub path_depth: usize,
    pub query_params: usize,
    pub has_fragment: bool,
    pub suspicious_keywords: usize,
    pub brand_keywords: usize,
}

/// The features of `url`: `None` when it does not parse as an absolute URL
/// (a URL without a scheme, for one). Keywords are matched on the URL with
/// its ASCII letters lower-cased.
pub fn extract_url_features(url: &str) -> (r: Option<UrlFeatures>)
    ensures
        match (r, url_components_of(url@)) {
            (Some(f), Some(c)) => {
                &&& f.url_length == url.spec_bytes().len() as usize
                &&& f.path_depth == count_char(c.0, '/')
                &&& f.query_params == c.1
                &&& f.has_fragment == c.2
                &&& f.suspicious_keywords == count_present(lower_ascii(url@), suspicious_keywords())
                &&& f.brand_keywords == count_present(lower_ascii(url@), brand_keywords())
            },
            (None, None) => true,
            _ => false,
        },
{
    let parts = match url_components(url) {
        Some(p) => p,
        None => {
            return None;
        },
    };
    let chars = chars_of(url);
    let lower = to_lower_ascii(&chars);
    let path = chars_of(parts.path.as_str());
    Some(
        UrlFeatures {
            url_length: url.len(),
            path_depth: count_char_exec(&path, '/'),
            query_params: parts.query_pairs,
            has_fragment: parts.has_fragment,
            suspicious_keywords: count_keywords(&lower, &suspicious_keyword_list()),
            brand_keywords: count_keywords(&lower, &brand_keyword_list()),
        },
    )
}

} // verus!
