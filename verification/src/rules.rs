use vstd::prelude::*;
use vstd::string::StringSliceAdditionalSpecFns;
use vstd::string::is_ascii_spec_bytes;
use crate::http::{
    extract_url_clean, is_http_request, lossy_bytes, sanitize, spec_extract_url,
    spec_is_http_request,
};
use crate::stats::ProxyStats;
use crate::text::{
    contains_bytes, contains_pat, join_crlf, join_lines, replace_all, replace_all_bytes,
    spec_lines, split_lines,
};

verus! {

broadcast use is_ascii_spec_bytes;

/// The transformation a rule applies to a matching payload.
pub enum TransformKind {
    /// Replace every occurrence of `example.com` with `localhost`.
    RedirectExampleCom,
    /// Insert two gateway headers after an exact `Host: test.com` line.
    EnhanceTestCom,
    /// Insert an authorization and a version header after the request line.
    ApiAuth,
    /// Insert three security headers after the request line.
    AdminSecurity,
}

/// One entry of the ordered rule table: a pattern to look for in the
/// derived URL or the decoded payload, and the transform to apply when it
/// is found.
pub struct ModificationRule {
    pub name: String,
    pub pattern: Vec<u8>,
    pub description: String,
    pub transform: TransformKind,
}

// ---------------------------------------------------------------------------
// Transforms
// ---------------------------------------------------------------------------

/// Decoded payload text with every `example.com` replaced by `localhost`.
pub open spec fn spec_redirect_example(clean: Seq<u8>) -> Seq<u8> {
    replace_all(clean, ("example.com").spec_bytes(), ("localhost").spec_bytes())
}

/// Decoded payload text with two gateway headers inserted after each
/// exact `Host: test.com` line; unchanged when no such line occurs.
pub open spec fn spec_enhance_test(clean: Seq<u8>) -> Seq<u8> {
    if contains_pat(clean, ("Host: test.com").spec_bytes()) {
        replace_all(
            clean,
            ("Host: test.com").spec_bytes(),
            ("Host: test.com\r\nX-Gateway-Modified: true\r\nX-Rust-Proxy: enabled").spec_bytes(),
        )
    } else {
        clean
    }
}

/// The lines of `clean` with `extras` inserted immediately after the
/// first line, rejoined with carriage return/line feed pairs; unchanged
/// when the text has at most one line.
pub open spec fn insert_after_request_line(clean: Seq<u8>, extras: Seq<Seq<u8>>) -> Seq<u8> {
    let ls = spec_lines(clean);
    if ls.len() > 1 {
        join_crlf(seq![ls[0]] + extras + ls.skip(1))
    } else {
        clean
    }
}

/// Decoded payload text with an authorization header and a version header
/// inserted after the request line, when the text mentions the user API
/// path and has more than one line.
pub open spec fn spec_api_auth(clean: Seq<u8>) -> Seq<u8> {
    if contains_pat(clean, ("/api/v1/user").spec_bytes()) {
        insert_after_request_line(
            clean,
            seq![
                ("Authorization: Bearer rust-gateway-token").spec_bytes(),
                ("X-API-Version: v1").spec_bytes(),
            ],
        )
    } else {
        clean
    }
}

/// Decoded payload text with three security headers inserted after the
/// request line, when the text mentions `admin` and has more than one
/// line.
pub open spec fn spec_admin_security(clean: Seq<u8>) -> Seq<u8> {
    if contains_pat(clean, ("admin").spec_bytes()) {
        insert_after_request_line(
            clean,
            seq![
                ("X-Admin-Access: restricted").spec_bytes(),
                ("X-Security-Check: enabled").spec_bytes(),
                ("X-Rust-Security: active").spec_bytes(),
            ],
        )
    } else {
        clean
    }
}

/// The result of one transform on decoded payload text.
pub open spec fn spec_transform(t: TransformKind, clean: Seq<u8>) -> Seq<u8> {
    match t {
        TransformKind::RedirectExampleCom => spec_redirect_example(clean),
        TransformKind::EnhanceTestCom => spec_enhance_test(clean),
        TransformKind::ApiAuth => spec_api_auth(clean),
        TransformKind::AdminSecurity => spec_admin_security(clean),
    }
}

/// Insert `extras` as lines immediately after the first line of `clean`.
fn insert_lines_exec(clean: &[u8], extras: &Vec<Vec<u8>>) -> (r: Vec<u8>)
    ensures
        r@ == insert_after_request_line(clean@, extras.deep_view()),
{
    let mut ls = split_lines(clean);
    let ghost lsd = ls.deep_view();
    let n = ls.len();
    if n <= 1 {
        return vstd::slice::slice_to_vec(clean);
    }
    let mut nl: Vec<Vec<u8>> = Vec::new();
    let first = ls.remove(0);
    nl.push(first);
    let mut k: usize = 0;
    proof {
        assert(nl.deep_view() =~~= seq![lsd[0]] + extras.deep_view().take(0));
    }
    while k < extras.len()
        invariant
            k <= extras@.len(),
            nl.deep_view() == seq![lsd[0]] + extras.deep_view().take(k as int),
        decreases extras@.len() - k,
    {
        let ghost pre = nl.deep_view();
        nl.push(vstd::slice::slice_to_vec(extras[k].as_slice()));
        proof {
            assert(extras@[k as int]@ =~= extras.deep_view()[k as int]);
            assert(nl.deep_view() =~~= pre.push(extras.deep_view()[k as int]));
            assert(pre.push(extras.deep_view()[k as int]) =~= seq![lsd[0]]
                + extras.deep_view().take(k + 1));
        }
        k = k + 1;
    }
    proof {
        assert(extras.deep_view().take(extras@.len() as int) =~= extras.deep_view());
    }
    let mut j: usize = 0;
    let m = ls.len();
    proof {
        assert(ls.deep_view() =~= lsd.skip(1));
        assert(nl.deep_view() + lsd.skip(1).take(0) =~= nl.deep_view());
    }
    let ghost mid = nl.deep_view();
    while j < m
        invariant
            j <= m == ls@.len(),
            ls.deep_view() == lsd.skip(1),
            nl.deep_view() == mid + lsd.skip(1).take(j as int),
        decreases m - j,
    {
        let ghost pre = nl.deep_view();
        nl.push(vstd::slice::slice_to_vec(ls[j].as_slice()));
        proof {
            assert(ls@[j as int]@ =~= ls.deep_view()[j as int]);
            assert(nl.deep_view() =~~= pre.push(lsd.skip(1)[j as int]));
            assert(pre.push(lsd.skip(1)[j as int]) =~= mid + lsd.skip(1).take(j + 1));
        }
        j = j + 1;
    }
    proof {
        assert(lsd.skip(1).take(m as int) =~= lsd.skip(1));
        assert(nl.deep_view() =~= seq![lsd[0]] + extras.deep_view() + lsd.skip(1));
    }
    join_lines(&nl)
}

/// Apply one transform to decoded payload text.
pub fn transform_bytes(t: &TransformKind, clean: &[u8]) -> (r: Vec<u8>)
    ensures
        r@ == spec_transform(*t, clean@),
{
    match t {
        TransformKind::RedirectExampleCom => {
            proof {
                reveal_strlit("example.com");
                assert(vstd::string::is_ascii("example.com"));
            }
            replace_all_bytes(clean, ("example.com").as_bytes(), ("localhost").as_bytes())
        },
        TransformKind::EnhanceTestCom => {
            let p = ("Host: test.com").as_bytes();
            proof {
                reveal_strlit("Host: test.com");
                assert(vstd::string::is_ascii("Host: test.com"));
            }
            if contains_bytes(clean, p) {
                replace_all_bytes(
                    clean,
                    p,
                    ("Host: test.com\r\nX-Gateway-Modified: true\r\nX-Rust-Proxy: enabled").as_bytes(),
                )
            } else {
                vstd::slice::slice_to_vec(clean)
            }
        },
        TransformKind::ApiAuth => {
            if contains_bytes(clean, ("/api/v1/user").as_bytes()) {
                let mut extras: Vec<Vec<u8>> = Vec::new();
                extras.push(
                    vstd::slice::slice_to_vec(("Authorization: Bearer rust-gateway-token").as_bytes()),
                );
                extras.push(vstd::slice::slice_to_vec(("X-API-Version: v1").as_bytes()));
                let r = insert_lines_exec(clean, &extras);
                proof {
                    assert(extras.deep_view() =~~= seq![
                        ("Authorization: Bearer rust-gateway-token").spec_bytes(),
                        ("X-API-Version: v1").spec_bytes(),
                    ]);
                }
                r
            } else {
                vstd::slice::slice_to_vec(clean)
            }
        },
        TransformKind::AdminSecurity => {
            if contains_bytes(clean, ("admin").as_bytes()) {
                let mut extras: Vec<Vec<u8>> = Vec::new();
                extras.push(vstd::slice::slice_to_vec(("X-Admin-Access: restricted").as_bytes()));
                extras.push(vstd::slice::slice_to_vec(("X-Security-Check: enabled").as_bytes()));
                extras.push(vstd::slice::slice_to_vec(("X-Rust-Security: active").as_bytes()));
                let r = insert_lines_exec(clean, &extras);
                proof {
                    assert(extras.deep_view() =~~= seq![
                        ("X-Admin-Access: restricted").spec_bytes(),
                        ("X-Security-Check: enabled").spec_bytes(),
                        ("X-Rust-Security: active").spec_bytes(),
                    ]);
                }
                r
            } else {
                vstd::slice::slice_to_vec(clean)
            }
        },
    }
}

// ---------------------------------------------------------------------------
// The rule table and first-match dispatch
// ---------------------------------------------------------------------------

/// A rule matches when its pattern occurs in the derived URL or anywhere
/// in the decoded payload text.
pub open spec fn spec_rule_matches(r: ModificationRule, url: Seq<u8>, clean: Seq<u8>) -> bool {
    contains_pat(url, r.pattern@) || contains_pat(clean, r.pattern@)
}

/// Index of the first rule at or after `k` that matches; -1 when none
/// does. Rules are tried strictly in table order.
pub open spec fn spec_first_match(
    rules: Seq<ModificationRule>,
    url: Seq<u8>,
    clean: Seq<u8>,
    k: int,
) -> int
    decreases rules.len() - k,
{
    if k < 0 || k >= rules.len() {
        -1
    } else if spec_rule_matches(rules[k], url, clean) {
        k
    } else {
        spec_first_match(rules, url, clean, k + 1)
    }
}

proof fn lemma_first_match_is(rules: Seq<ModificationRule>, url: Seq<u8>, clean: Seq<u8>, m: int)
    requires
        0 <= m <= rules.len(),
        forall|j: int| 0 <= j < m ==> !spec_rule_matches(rules[j], url, clean),
        m == rules.len() || spec_rule_matches(rules[m], url, clean),
    ensures
        m < rules.len() ==> spec_first_match(rules, url, clean, 0) == m,
        m == rules.len() ==> spec_first_match(rules, url, clean, 0) == -1,
{
    lemma_first_match_is_from(rules, url, clean, 0, m);
}

proof fn lemma_first_match_is_from(
    rules: Seq<ModificationRule>,
    url: Seq<u8>,
    clean: Seq<u8>,
    start: int,
    m: int,
)
    requires
        0 <= start <= m <= rules.len(),
        forall|j: int| start <= j < m ==> !spec_rule_matches(rules[j], url, clean),
        m == rules.len() || spec_rule_matches(rules[m], url, clean),
    ensures
        m < rules.len() ==> spec_first_match(rules, url, clean, start) == m,
        m == rules.len() ==> spec_first_match(rules, url, clean, start) == -1,
    decreases m - start,
{
    if start < m {
        lemma_first_match_is_from(rules, url, clean, start + 1, m);
    }
}

/// The string the rules are matched against: the derived URL when one can
/// be extracted, otherwise the whole decoded payload text.
pub open spec fn spec_derived_url(clean: Seq<u8>) -> Seq<u8> {
    match spec_extract_url(clean) {
        Option::Some(u) => u,
        Option::None => clean,
    }
}

/// What applying the rule table to a payload yields: the payload bytes to
/// send on and whether a rule fired. A payload that is no HTTP request,
/// or that no rule matches, passes through unchanged; otherwise the first
/// matching rule's transform is applied to the decoded text and no
/// further rule runs.
pub open spec fn spec_apply(rules: Seq<ModificationRule>, raw: Seq<u8>, clean: Seq<u8>) -> (
    Seq<u8>,
    bool,
) {
    if !spec_is_http_request(raw) {
        (raw, false)
    } else {
        let m = spec_first_match(rules, spec_derived_url(clean), clean, 0);
        if m < 0 {
            (raw, false)
        } else {
            (spec_transform(rules[m].transform, clean), true)
        }
    }
}

/// Run the ordered rule table over one payload: derive a URL from the
/// permissively decoded text, find the first rule whose pattern occurs in
/// the URL or in the decoded text, and apply its transform. Bumps
/// `modified_packets` exactly when a rule fires.
pub fn apply_rules(rules: &Vec<ModificationRule>, data: &[u8], stats: &mut ProxyStats) -> (r: (
    Vec<u8>,
    bool,
))
    requires
        old(stats)@.modified_packets < u64::MAX,
    ensures
        r.0@ == spec_apply(rules@, data@, lossy_bytes(data@)).0,
        r.1 == spec_apply(rules@, data@, lossy_bytes(data@)).1,
        final(stats)@.modified_packets == old(stats)@.modified_packets + (if r.1 {
            1nat
        } else {
            0nat
        }),
        final(stats)@.total_packets == old(stats)@.total_packets,
        final(stats)@.http_packets == old(stats)@.http_packets,
        final(stats)@.total_bytes == old(stats)@.total_bytes,
{
    if !is_http_request(data) {
        return (vstd::slice::slice_to_vec(data), false);
    }
    let clean = sanitize(data);
    let ghost cl = clean@;
    let derived: Vec<u8> = match extract_url_clean(clean.as_slice()) {
        Some(u) => u,
        None => vstd::slice::slice_to_vec(clean.as_slice()),
    };
    proof {
        assert(derived@ == spec_derived_url(cl));
    }
    let n = rules.len();
    let mut idx: usize = 0;
    while idx < n
        invariant
            idx <= n == rules@.len(),
            derived@ == spec_derived_url(cl),
            clean@ == cl,
            cl == lossy_bytes(data@),
            spec_is_http_request(data@),
            *stats == *old(stats),
            old(stats)@.modified_packets < u64::MAX,
            forall|j: int| 0 <= j < idx ==> !spec_rule_matches(rules@[j], derived@, cl),
        decreases n - idx,
    {
        let hit_url = contains_bytes(derived.as_slice(), rules[idx].pattern.as_slice());
        let hit_payload = if hit_url {
            true
        } else {
            contains_bytes(clean.as_slice(), rules[idx].pattern.as_slice())
        };
        if hit_url || hit_payload {
            proof {
                lemma_first_match_is(rules@, derived@, cl, idx as int);
            }
            let out = transform_bytes(&rules[idx].transform, clean.as_slice());
            stats.modified_packets = stats.modified_packets + 1;
            return (out, true);
        }
        idx = idx + 1;
    }
    proof {
        lemma_first_match_is(rules@, derived@, cl, n as int);
    }
    (vstd::slice::slice_to_vec(data), false)
}

/// A rule table is the default one: four rules, in this order: redirect
/// `example.com`, enhance `test.com`, authorize the user API, guard
/// `admin` requests.
pub open spec fn spec_default_table(rules: Seq<ModificationRule>) -> bool {
    &&& rules.len() == 4
    &&& rules[0].pattern@ == ("example.com").spec_bytes()
    &&& rules[0].transform is RedirectExampleCom
    &&& rules[0].name@ == ("example_com_redirect")@
    &&& rules[1].pattern@ == ("test.com").spec_bytes()
    &&& rules[1].transform is EnhanceTestCom
    &&& rules[1].name@ == ("test_com_enhance")@
    &&& rules[2].pattern@ == ("/api/v1/user").spec_bytes()
    &&& rules[2].transform is ApiAuth
    &&& rules[2].name@ == ("api_auth")@
    &&& rules[3].pattern@ == ("admin").spec_bytes()
    &&& rules[3].transform is AdminSecurity
    &&& rules[3].name@ == ("admin_security")@
}

/// The default rule table, in its fixed order: redirect `example.com`,
/// enhance `test.com`, authorize the user API, guard `admin` requests.
pub fn default_rules() -> (r: Vec<ModificationRule>)
    ensures
        spec_default_table(r@),
{
    let mut rules: Vec<ModificationRule> = Vec::new();
    rules.push(
        ModificationRule {
            name: ("example_com_redirect").to_owned(),
            pattern: vstd::slice::slice_to_vec(("example.com").as_bytes()),
            description: ("redirects example.com to localhost").to_owned(),
            transform: TransformKind::RedirectExampleCom,
        },
    );
    rules.push(
        ModificationRule {
            name: ("test_com_enhance").to_owned(),
            pattern: vstd::slice::slice_to_vec(("test.com").as_bytes()),
            description: ("adds custom headers to test.com requests").to_owned(),
            transform: TransformKind::EnhanceTestCom,
        },
    );
    rules.push(
        ModificationRule {
            name: ("api_auth").to_owned(),
            pattern: vstd::slice::slice_to_vec(("/api/v1/user").as_bytes()),
            description: ("adds an authentication header to API requests").to_owned(),
            transform: TransformKind::ApiAuth,
        },
    );
    rules.push(
        ModificationRule {
            name: ("admin_security").to_owned(),
            pattern: vstd::slice::slice_to_vec(("admin").as_bytes()),
            description: ("adds security headers to admin requests").to_owned(),
            transform: TransformKind::AdminSecurity,
        },
    );
    rules
}

} // verus!
