use vstd::prelude::*;
use vstd::string::StringSliceAdditionalSpecFns;
use crate::text::{
    after_colon, after_colon_bytes, find_byte, spec_lines, split_lines, split_ws, split_ws_bytes,
    starts_with, starts_with_bytes, starts_with_ci, starts_with_ci_bytes, trim, trim_bytes,
};

verus! {

// ---------------------------------------------------------------------------
// Permissive text decoding
// ---------------------------------------------------------------------------

/// The bytes of a payload after permissive decoding as text: every valid
/// UTF-8 sequence is kept, every invalid sequence is replaced, nothing is
/// rejected.
pub uninterp spec fn lossy_bytes(b: Seq<u8>) -> Seq<u8>;

/// Relies on `String::from_utf8_lossy`: the decoding is a pure function of
/// the input bytes alone (invalid sequences become U+FFFD), and valid
/// UTF-8 input, in particular input that is entirely ASCII, passes
/// through unchanged.
#[verifier::external_body]
pub(crate) fn sanitize(data: &[u8]) -> (r: Vec<u8>)
    ensures
        r@ == lossy_bytes(data@),
        vstd::utf8::valid_utf8(data@) ==> r@ == data@,
        (forall|i: int| 0 <= i < data@.len() ==> data@[i] < 128) ==> r@ == data@,
{
    String::from_utf8_lossy(data).into_owned().into_bytes()
}

// ---------------------------------------------------------------------------
// HTTP request detection
// ---------------------------------------------------------------------------

/// The request-method prefixes, each with its trailing space.
pub open spec fn spec_method(i: int) -> Seq<u8> {
    if i == 0 {
        ("GET ").spec_bytes()
    } else if i == 1 {
        ("POST ").spec_bytes()
    } else if i == 2 {
        ("PUT ").spec_bytes()
    } else if i == 3 {
        ("DELETE ").spec_bytes()
    } else if i == 4 {
        ("HEAD ").spec_bytes()
    } else if i == 5 {
        ("OPTIONS ").spec_bytes()
    } else {
        ("PATCH ").spec_bytes()
    }
}

/// A payload is an HTTP request when it is at least ten bytes long and
/// begins with one of the method names followed by a space. The method
/// prefixes are ASCII, so testing them on the raw bytes and on the
/// permissively decoded text agree.
pub open spec fn spec_is_http_request(s: Seq<u8>) -> bool {
    s.len() >= 10 && exists|i: int| 0 <= i < 7 && starts_with(s, spec_method(i))
}

/// Classify a payload as an HTTP request.
pub fn is_http_request(data: &[u8]) -> (r: bool)
    ensures
        r == spec_is_http_request(data@),
{
    if data.len() < 10 {
        return false;
    }
    let r0 = starts_with_bytes(data, ("GET ").as_bytes());
    let r1 = starts_with_bytes(data, ("POST ").as_bytes());
    let r2 = starts_with_bytes(data, ("PUT ").as_bytes());
    let r3 = starts_with_bytes(data, ("DELETE ").as_bytes());
    let r4 = starts_with_bytes(data, ("HEAD ").as_bytes());
    let r5 = starts_with_bytes(data, ("OPTIONS ").as_bytes());
    let r6 = starts_with_bytes(data, ("PATCH ").as_bytes());
    let r = r0 || r1 || r2 || r3 || r4 || r5 || r6;
    proof {
        if r0 {
            assert(starts_with(data@, spec_method(0)));
        } else if r1 {
            assert(starts_with(data@, spec_method(1)));
        } else if r2 {
            assert(starts_with(data@, spec_method(2)));
        } else if r3 {
            assert(starts_with(data@, spec_method(3)));
        } else if r4 {
            assert(starts_with(data@, spec_method(4)));
        } else if r5 {
            assert(starts_with(data@, spec_method(5)));
        } else if r6 {
            assert(starts_with(data@, spec_method(6)));
        } else {
            assert forall|i: int| 0 <= i < 7 implies !starts_with(data@, spec_method(i)) by {
                if i == 0 {
                } else if i == 1 {
                } else if i == 2 {
                } else if i == 3 {
                } else if i == 4 {
                } else if i == 5 {
                } else {
                    assert(spec_method(i) == ("PATCH ").spec_bytes());
                }
            }
        }
    }
    r
}

// ---------------------------------------------------------------------------
// URL extraction
// ---------------------------------------------------------------------------

/// The `Host:` header prefix, in lower case. Detection folds case over
/// ASCII alone, which is exact here: no character outside ASCII
/// lower-cases to any letter of this prefix.
pub open spec fn host_prefix() -> Seq<u8> {
    ("host:").spec_bytes()
}

/// The scheme prefix a derived URL is composed with.
pub open spec fn http_scheme() -> Seq<u8> {
    ("http://").spec_bytes()
}

/// Index of the first line at or after `k` that begins, without regard to
/// ASCII case, with `Host:`; -1 when no line does.
pub open spec fn find_host_line(ls: Seq<Seq<u8>>, k: int) -> int
    decreases ls.len() - k,
{
    if k < 0 || k >= ls.len() {
        -1
    } else if starts_with_ci(ls[k], host_prefix()) {
        k
    } else {
        find_host_line(ls, k + 1)
    }
}

proof fn lemma_find_host_line_is(ls: Seq<Seq<u8>>, start: int, m: int)
    requires
        0 <= start <= m <= ls.len(),
        forall|j: int| start <= j < m ==> !starts_with_ci(ls[j], host_prefix()),
        m == ls.len() || starts_with_ci(ls[m], host_prefix()),
    ensures
        m < ls.len() ==> find_host_line(ls, start) == m,
        m == ls.len() ==> find_host_line(ls, start) == -1,
    decreases m - start,
{
    if start < m {
        lemma_find_host_line_is(ls, start + 1, m);
    }
}

/// The URL a payload's decoded text derives: the second whitespace token
/// of the first line (the request path), prefixed with `http://` and the
/// trimmed `Host:` header value when such a header line is present.
/// Absent when the text has no lines or its first line has fewer than two
/// whitespace tokens.
pub open spec fn spec_extract_url(clean: Seq<u8>) -> Option<Seq<u8>> {
    let ls = spec_lines(clean);
    if ls.len() == 0 {
        Option::None
    } else {
        let parts = split_ws(ls[0]);
        if parts.len() < 2 {
            Option::None
        } else {
            let h = find_host_line(ls, 1);
            if h < 0 {
                Option::Some(parts[1])
            } else {
                match after_colon(ls[h]) {
                    Option::Some(v) => Option::Some(http_scheme() + trim(v) + parts[1]),
                    Option::None => Option::Some(parts[1]),
                }
            }
        }
    }
}

/// Derive a URL from permissively decoded payload text.
pub fn extract_url_clean(clean: &[u8]) -> (r: Option<Vec<u8>>)
    ensures
        match r {
            Some(v) => spec_extract_url(clean@) == Some(v@),
            None => spec_extract_url(clean@) is None,
        },
{
    let ls = split_lines(clean);
    let ghost lsd = ls.deep_view();
    let n = ls.len();
    if n == 0 {
        return None;
    }
    let mut parts = split_ws_bytes(ls[0].as_slice());
    proof {
        assert(lsd[0] =~= ls@[0]@);
    }
    if parts.len() < 2 {
        return None;
    }
    let path = parts.remove(1);
    proof {
        assert(path@ == split_ws(lsd[0])[1]);
    }
    let mut k: usize = 1;
    let mut hidx: usize = n;
    while k < n && hidx == n
        invariant
            1 <= k <= n == lsd.len(),
            n == ls@.len(),
            lsd == ls.deep_view(),
            hidx == n || (1 <= hidx < k && starts_with_ci(lsd[hidx as int], host_prefix()) && forall|
                j: int,
            | 1 <= j < hidx ==> !starts_with_ci(lsd[j], host_prefix())),
            hidx == n ==> forall|j: int| 1 <= j < k ==> !starts_with_ci(lsd[j], host_prefix()),
        decreases n - k,
    {
        proof {
            assert(lsd[k as int] =~= ls@[k as int]@);
        }
        if starts_with_ci_bytes(ls[k].as_slice(), ("host:").as_bytes()) {
            hidx = k;
        }
        k = k + 1;
    }
    if hidx == n {
        proof {
            lemma_find_host_line_is(lsd, 1, n as int);
        }
        return Some(path);
    }
    proof {
        lemma_find_host_line_is(lsd, 1, hidx as int);
        assert(lsd[hidx as int] =~= ls@[hidx as int]@);
    }
    match after_colon_bytes(ls[hidx].as_slice()) {
        Some(v) => {
            let t = trim_bytes(v.as_slice());
            let mut out: Vec<u8> = Vec::new();
            out.extend_from_slice(("http://").as_bytes());
            out.extend_from_slice(t.as_slice());
            out.extend_from_slice(path.as_slice());
            proof {
                assert(out@ =~= http_scheme() + trim(v@) + path@);
            }
            Some(out)
        },
        None => Some(path),
    }
}

/// Derive a URL from a raw payload: decode it permissively, then read the
/// request line and `Host:` header out of the decoded text.
pub fn extract_url(data: &[u8]) -> (r: Option<Vec<u8>>)
    ensures
        match r {
            Some(v) => spec_extract_url(lossy_bytes(data@)) == Some(v@),
            None => spec_extract_url(lossy_bytes(data@)) is None,
        },
{
    let clean = sanitize(data);
    extract_url_clean(clean.as_slice())
}

} // verus!
