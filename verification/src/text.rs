use vstd::prelude::*;

verus! {

// ---------------------------------------------------------------------------
// Substring matching
// ---------------------------------------------------------------------------

/// `s` begins with the bytes of `p`.
pub open spec fn starts_with(s: Seq<u8>, p: Seq<u8>) -> bool {
    p.len() <= s.len() && s.take(p.len() as int) == p
}

/// The bytes of `p` occur in `s` at position `i`.
pub open spec fn match_at(s: Seq<u8>, p: Seq<u8>, i: int) -> bool {
    0 <= i && i + p.len() <= s.len() && s.subrange(i, i + p.len()) == p
}

/// The bytes of `p` occur somewhere in `s`.
pub open spec fn contains_pat(s: Seq<u8>, p: Seq<u8>) -> bool {
    exists|i: int| match_at(s, p, i)
}

pub fn starts_with_bytes(s: &[u8], p: &[u8]) -> (r: bool)
    ensures
        r == starts_with(s@, p@),
{
    if p.len() > s.len() {
        return false;
    }
    let mut k: usize = 0;
    while k < p.len()
        invariant
            p@.len() <= s@.len(),
            k <= p@.len(),
            forall|j: int| 0 <= j < k ==> s@[j] == p@[j],
        decreases p@.len() - k,
    {
        if s[k] != p[k] {
            assert(s@.take(p@.len() as int)[k as int] != p@[k as int]);
            return false;
        }
        k = k + 1;
    }
    proof {
        assert(s@.take(p@.len() as int) =~= p@);
    }
    true
}

/// Does `p` occur in `s` at position `i`?
pub fn match_at_bytes(s: &[u8], p: &[u8], i: usize) -> (r: bool)
    requires
        i + p@.len() <= s@.len(),
    ensures
        r == match_at(s@, p@, i as int),
{
    let n = s.len();
    let mut k: usize = 0;
    while k < p.len()
        invariant
            i + p@.len() <= n == s@.len(),
            k <= p@.len(),
            forall|j: int| 0 <= j < k ==> s@[i + j] == p@[j],
        decreases p@.len() - k,
    {
        if s[i + k] != p[k] {
            assert(s@.subrange(i as int, i + p@.len())[k as int] != p@[k as int]);
            return false;
        }
        k = k + 1;
    }
    proof {
        assert(s@.subrange(i as int, i + p@.len()) =~= p@);
    }
    true
}

/// Leftmost occurrence of `p` in `s`, if any.
pub fn find_pat(s: &[u8], p: &[u8]) -> (r: Option<usize>)
    ensures
        match r {
            Some(i) => match_at(s@, p@, i as int) && forall|j: int|
                0 <= j < i ==> !match_at(s@, p@, j),
            None => !contains_pat(s@, p@),
        },
{
    if p.len() > s.len() {
        return None;
    }
    if p.len() == 0 {
        proof {
            assert(s@.subrange(0, 0) =~= p@);
        }
        return Some(0);
    }
    let mut i: usize = 0;
    while i <= s.len() - p.len()
        invariant
            0 < p@.len() <= s@.len(),
            i <= s@.len() - p@.len() + 1,
            forall|j: int| 0 <= j < i ==> !match_at(s@, p@, j),
        decreases s@.len() - i,
    {
        if match_at_bytes(s, p, i) {
            return Some(i);
        }
        i = i + 1;
    }
    None
}

/// Does `p` occur anywhere in `s`?
pub fn contains_bytes(s: &[u8], p: &[u8]) -> (r: bool)
    ensures
        r == contains_pat(s@, p@),
{
    match find_pat(s, p) {
        Some(_) => true,
        None => false,
    }
}

// ---------------------------------------------------------------------------
// Replacement
// ---------------------------------------------------------------------------

/// `s` with every occurrence of `p` replaced by `rep`, scanning left to
/// right without overlap, exactly as `str::replace` does.
pub open spec fn replace_all(s: Seq<u8>, p: Seq<u8>, rep: Seq<u8>) -> Seq<u8>
    recommends
        p.len() > 0,
    decreases s.len(),
{
    if p.len() == 0 || s.len() < p.len() {
        s
    } else if s.take(p.len() as int) == p {
        rep + replace_all(s.skip(p.len() as int), p, rep)
    } else {
        seq![s[0]] + replace_all(s.skip(1), p, rep)
    }
}

pub fn replace_all_bytes(s: &[u8], p: &[u8], rep: &[u8]) -> (r: Vec<u8>)
    requires
        p@.len() > 0,
    ensures
        r@ == replace_all(s@, p@, rep@),
{
    let mut out: Vec<u8> = Vec::new();
    let mut i: usize = 0;
    proof {
        assert(s@.skip(0) =~= s@);
        assert(out@ + replace_all(s@, p@, rep@) =~= replace_all(s@, p@, rep@));
    }
    while s.len() - i >= p.len()
        invariant
            p@.len() > 0,
            i <= s@.len(),
            out@ + replace_all(s@.skip(i as int), p@, rep@) == replace_all(s@, p@, rep@),
        decreases s@.len() - i,
    {
        let ghost pre = out@;
        let ghost tail = s@.skip(i as int);
        if match_at_bytes(s, p, i) {
            out.extend_from_slice(rep);
            proof {
                assert(tail.take(p@.len() as int) =~= s@.subrange(i as int, i + p@.len()));
                assert(tail.skip(p@.len() as int) =~= s@.skip(i + p@.len()));
                assert(replace_all(tail, p@, rep@) == rep@ + replace_all(
                    s@.skip(i + p@.len()),
                    p@,
                    rep@,
                ));
                assert(out@ + replace_all(s@.skip(i + p@.len()), p@, rep@) =~= pre + replace_all(
                    tail,
                    p@,
                    rep@,
                ));
            }
            i = i + p.len();
        } else {
            out.push(s[i]);
            proof {
                assert(tail.take(p@.len() as int) =~= s@.subrange(i as int, i + p@.len()));
                assert(tail.skip(1) =~= s@.skip(i + 1));
                assert(tail[0] == s@[i as int]);
                assert(replace_all(tail, p@, rep@) == seq![s@[i as int]] + replace_all(
                    s@.skip(i + 1),
                    p@,
                    rep@,
                ));
                assert(out@ + replace_all(s@.skip(i + 1), p@, rep@) =~= pre + replace_all(
                    tail,
                    p@,
                    rep@,
                ));
            }
            i = i + 1;
        }
    }
    let tail_slice = vstd::slice::slice_subrange(s, i, s.len());
    out.extend_from_slice(tail_slice);
    proof {
        assert(replace_all(s@.skip(i as int), p@, rep@) == s@.skip(i as int));
        assert(s@.skip(i as int) =~= s@.subrange(i as int, s@.len() as int));
        assert(out@ =~= replace_all(s@, p@, rep@));
    }
    out
}

// ---------------------------------------------------------------------------
// Lines
// ---------------------------------------------------------------------------

/// Index of the first occurrence of `b` in `s`, or -1 when absent.
pub open spec fn find_byte(s: Seq<u8>, b: u8) -> int
    decreases s.len(),
{
    if s.len() == 0 {
        -1
    } else if s[0] == b {
        0
    } else if find_byte(s.skip(1), b) < 0 {
        -1
    } else {
        1 + find_byte(s.skip(1), b)
    }
}

/// Characterization of `find_byte`: a position before which `b` is absent
/// and at which `b` stands (or the sequence ends) is the position it names.
pub proof fn lemma_find_byte_is(s: Seq<u8>, b: u8, m: int)
    requires
        0 <= m <= s.len(),
        forall|j: int| 0 <= j < m ==> s[j] != b,
        m == s.len() || s[m] == b,
    ensures
        m < s.len() ==> find_byte(s, b) == m,
        m == s.len() ==> find_byte(s, b) == -1,
    decreases m,
{
    if s.len() > 0 {
        if m == 0 {
        } else {
            assert(forall|j: int| 0 <= j < m - 1 ==> s.skip(1)[j] == s[j + 1]);
            lemma_find_byte_is(s.skip(1), b, m - 1);
        }
    }
}

/// A line piece with one trailing carriage return removed, as `str::lines`
/// strips it before a line feed.
pub open spec fn strip_cr(s: Seq<u8>) -> Seq<u8> {
    if s.len() > 0 && s[s.len() - 1] == 13 {
        s.drop_last()
    } else {
        s
    }
}

/// The lines of `s`, split at each line feed, with a carriage return
/// immediately before a line feed stripped; a final line ending produces no
/// empty final line. These are the `str::lines` conventions.
pub open spec fn spec_lines(s: Seq<u8>) -> Seq<Seq<u8>>
    decreases s.len(),
{
    if s.len() == 0 {
        Seq::empty()
    } else {
        let i = find_byte(s, 10);
        if i < 0 || i >= s.len() {
            seq![s]
        } else {
            seq![strip_cr(s.take(i))] + spec_lines(s.skip(i + 1))
        }
    }
}

/// The given sequences joined with a carriage return/line feed pair between
/// each adjacent two.
pub open spec fn join_crlf(ls: Seq<Seq<u8>>) -> Seq<u8>
    decreases ls.len(),
{
    if ls.len() == 0 {
        Seq::empty()
    } else if ls.len() == 1 {
        ls[0]
    } else {
        ls[0] + seq![13u8, 10u8] + join_crlf(ls.skip(1))
    }
}

proof fn lemma_join_crlf_push(ls: Seq<Seq<u8>>, x: Seq<u8>)
    requires
        ls.len() >= 1,
    ensures
        join_crlf(ls.push(x)) == join_crlf(ls) + seq![13u8, 10u8] + x,
    decreases ls.len(),
{
    if ls.len() == 1 {
        assert(ls.push(x).skip(1) =~= seq![x]);
        assert(join_crlf(seq![x]) == x);
        assert(ls.push(x)[0] == ls[0]);
        assert(join_crlf(ls.push(x)) == ls[0] + seq![13u8, 10u8] + x);
    } else {
        lemma_join_crlf_push(ls.skip(1), x);
        assert(ls.push(x).skip(1) =~= ls.skip(1).push(x));
        assert(join_crlf(ls.push(x)) == ls[0] + seq![13u8, 10u8] + join_crlf(ls.skip(1).push(x)));
        assert(join_crlf(ls) + seq![13u8, 10u8] + x =~= ls[0] + seq![13u8, 10u8] + (join_crlf(
            ls.skip(1),
        ) + seq![13u8, 10u8] + x));
    }
}

/// Split `s` into its lines, following the `str::lines` conventions.
pub fn split_lines(s: &[u8]) -> (r: Vec<Vec<u8>>)
    ensures
        r.deep_view() == spec_lines(s@),
{
    let n = s.len();
    let mut out: Vec<Vec<u8>> = Vec::new();
    let mut i: usize = 0;
    proof {
        assert(s@.skip(0) =~= s@);
        assert(out.deep_view() =~~= Seq::<Seq<u8>>::empty());
        assert(out.deep_view() + spec_lines(s@) =~= spec_lines(s@));
    }
    while i < n
        invariant
            i <= n == s@.len(),
            out.deep_view() + spec_lines(s@.skip(i as int)) == spec_lines(s@),
        decreases n - i,
    {
        let ghost pre = out.deep_view();
        let ghost tail = s@.skip(i as int);
        let mut j: usize = i;
        while j < n && s[j] != 10
            invariant
                i <= j <= n == s@.len(),
                forall|k: int| i <= k < j ==> s@[k] != 10,
            decreases n - j,
        {
            j = j + 1;
        }
        proof {
            assert(forall|k: int| 0 <= k < j - i ==> tail[k] == s@[i + k] && s@[i + k] != 10);
            if j < n {
                assert(tail[j - i] == s@[j as int]);
            }
            lemma_find_byte_is(tail, 10, j - i);
        }
        if j >= n {
            let piece = vstd::slice::slice_subrange(s, i, n);
            out.push(vstd::slice::slice_to_vec(piece));
            proof {
                assert(spec_lines(tail) =~= seq![tail]);
                assert(piece@ =~= tail);
                assert(out.deep_view() =~~= pre.push(tail));
                assert(pre.push(tail) + spec_lines(s@.skip(n as int)) =~= pre + seq![tail]);
                assert(s@.skip(n as int) =~= Seq::<u8>::empty());
            }
            i = n;
        } else {
            let end = if j > i && s[j - 1] == 13 {
                j - 1
            } else {
                j
            };
            let piece = vstd::slice::slice_subrange(s, i, end);
            out.push(vstd::slice::slice_to_vec(piece));
            proof {
                assert(tail.take(j - i) =~= s@.subrange(i as int, j as int));
                assert(piece@ =~= strip_cr(tail.take(j - i)));
                assert(spec_lines(tail) == seq![strip_cr(tail.take(j - i))] + spec_lines(
                    tail.skip(j - i + 1),
                ));
                assert(tail.skip(j - i + 1) =~= s@.skip(j + 1));
                assert(out.deep_view() =~~= pre.push(piece@));
                assert(pre.push(piece@) + spec_lines(s@.skip(j + 1)) =~= pre + spec_lines(tail));
            }
            i = j + 1;
        }
    }
    proof {
        assert(s@.skip(i as int) =~= Seq::<u8>::empty());
        assert(out.deep_view() =~~= spec_lines(s@));
    }
    out
}

/// Join lines with a carriage return/line feed pair.
pub fn join_lines(ls: &Vec<Vec<u8>>) -> (r: Vec<u8>)
    ensures
        r@ == join_crlf(ls.deep_view()),
{
    let n = ls.len();
    let mut out: Vec<u8> = Vec::new();
    if n == 0 {
        return out;
    }
    out.extend_from_slice(ls[0].as_slice());
    let mut k: usize = 1;
    proof {
        assert(ls.deep_view().take(1) =~= seq![ls.deep_view()[0]]);
        assert(out@ =~= join_crlf(ls.deep_view().take(1)));
    }
    while k < n
        invariant
            1 <= k <= n == ls@.len(),
            n == ls.deep_view().len(),
            out@ == join_crlf(ls.deep_view().take(k as int)),
        decreases n - k,
    {
        let ghost pre = ls.deep_view().take(k as int);
        out.push(13);
        out.push(10);
        out.extend_from_slice(ls[k].as_slice());
        proof {
            lemma_join_crlf_push(pre, ls.deep_view()[k as int]);
            assert(ls.deep_view().take(k + 1) =~= pre.push(ls.deep_view()[k as int]));
            assert(ls@[k as int]@ =~= ls.deep_view()[k as int]);
            assert(out@ =~= join_crlf(pre) + seq![13u8, 10u8] + ls.deep_view()[k as int]);
        }
        k = k + 1;
    }
    proof {
        assert(ls.deep_view().take(n as int) =~= ls.deep_view());
    }
    out
}

// ---------------------------------------------------------------------------
// Whitespace, case and field helpers
// ---------------------------------------------------------------------------

/// The single-byte (ASCII) whitespace characters.
pub open spec fn is_ws(b: u8) -> bool {
    b == 9 || b == 10 || b == 11 || b == 12 || b == 13 || b == 32
}

/// Byte length of the UTF-8 encoding of a whitespace character beginning
/// at position `i` of `s`, or 0 when none begins there. The characters
/// are those with the Unicode `White_Space` property, which
/// `char::is_whitespace`, `str::split_whitespace` and `str::trim` go by.
/// Each encoding starts with a lead byte that can never occur inside
/// another character, so scanning byte positions over valid UTF-8 (the
/// shape of permissively decoded text) finds exactly the whitespace
/// characters.
pub open spec fn ws_len_at(s: Seq<u8>, i: int) -> int {
    if i < 0 || i >= s.len() {
        0
    } else if is_ws(s[i]) {
        1
    } else if s[i] == 0xC2 && i + 1 < s.len() && (s[i + 1] == 0x85 || s[i + 1] == 0xA0) {
        2  // next line and no-break space
    } else if i + 2 < s.len() && s[i] == 0xE1 && s[i + 1] == 0x9A && s[i + 2] == 0x80 {
        3  // ogham space mark
    } else if i + 2 < s.len() && s[i] == 0xE2 && s[i + 1] == 0x80 && (0x80 <= s[i + 2] <= 0x8A
        || s[i + 2] == 0xA8 || s[i + 2] == 0xA9 || s[i + 2] == 0xAF) {
        3  // en quad through hair space, line and paragraph separators, narrow no-break space
    } else if i + 2 < s.len() && s[i] == 0xE2 && s[i + 1] == 0x81 && s[i + 2] == 0x9F {
        3  // medium mathematical space
    } else if i + 2 < s.len() && s[i] == 0xE3 && s[i + 1] == 0x80 && s[i + 2] == 0x80 {
        3  // ideographic space
    } else {
        0
    }
}

proof fn lemma_ws_len_shift(s: Seq<u8>, a: int, j: int)
    requires
        0 <= a <= s.len(),
        0 <= j,
    ensures
        ws_len_at(s.skip(a), j) == ws_len_at(s, a + j),
{
    if j < s.len() - a {
        assert(s.skip(a)[j] == s[a + j]);
        if a + j + 1 < s.len() {
            assert(s.skip(a)[j + 1] == s[a + j + 1]);
        }
        if a + j + 2 < s.len() {
            assert(s.skip(a)[j + 2] == s[a + j + 2]);
        }
    }
}

/// Byte length of the whitespace character starting at `i`, or 0.
pub fn ws_len_at_bytes(s: &[u8], i: usize) -> (l: usize)
    ensures
        l as int == ws_len_at(s@, i as int),
{
    let n = s.len();
    if i >= n {
        return 0;
    }
    let b = s[i];
    if b == 9 || b == 10 || b == 11 || b == 12 || b == 13 || b == 32 {
        return 1;
    }
    if b == 0xC2 && n - i > 1 {
        let b1 = s[i + 1];
        if b1 == 0x85 || b1 == 0xA0 {
            return 2;
        }
    }
    if n - i > 2 {
        let b1 = s[i + 1];
        let b2 = s[i + 2];
        if b == 0xE1 && b1 == 0x9A && b2 == 0x80 {
            return 3;
        }
        if b == 0xE2 && b1 == 0x80 && (0x80 <= b2 && b2 <= 0x8A || b2 == 0xA8 || b2 == 0xA9
            || b2 == 0xAF) {
            return 3;
        }
        if b == 0xE2 && b1 == 0x81 && b2 == 0x9F {
            return 3;
        }
        if b == 0xE3 && b1 == 0x80 && b2 == 0x80 {
            return 3;
        }
    }
    0
}

/// ASCII lower-casing of one byte.
pub open spec fn lower(b: u8) -> u8 {
    if 65 <= b <= 90 {
        (b + 32) as u8
    } else {
        b
    }
}

pub open spec fn lower_seq(s: Seq<u8>) -> Seq<u8> {
    Seq::new(s.len(), |i: int| lower(s[i]))
}

/// `s` begins with `p` when compared without regard to ASCII case;
/// `p` is given in lower case.
pub open spec fn starts_with_ci(s: Seq<u8>, p: Seq<u8>) -> bool {
    starts_with(lower_seq(s), p)
}

pub fn starts_with_ci_bytes(s: &[u8], p: &[u8]) -> (r: bool)
    ensures
        r == starts_with_ci(s@, p@),
{
    let n = s.len();
    if p.len() > n {
        return false;
    }
    let mut k: usize = 0;
    while k < p.len()
        invariant
            p@.len() <= n == s@.len(),
            k <= p@.len(),
            forall|j: int| 0 <= j < k ==> lower(s@[j]) == p@[j],
        decreases p@.len() - k,
    {
        let b = s[k];
        let lb: u8 = if b >= 65 && b <= 90 {
            b + 32
        } else {
            b
        };
        if lb != p[k] {
            assert(lower_seq(s@).take(p@.len() as int)[k as int] != p@[k as int]);
            return false;
        }
        k = k + 1;
    }
    proof {
        assert(lower_seq(s@).take(p@.len() as int) =~= p@);
    }
    true
}

/// `s` without the whitespace characters at its front.
pub open spec fn trim_start(s: Seq<u8>) -> Seq<u8>
    decreases s.len(),
{
    let l = ws_len_at(s, 0);
    if 0 < l <= s.len() {
        trim_start(s.skip(l))
    } else {
        s
    }
}

/// Byte length of the whitespace character at the very end of `s`, or 0
/// when `s` does not end with one. No whitespace encoding is a suffix of
/// another or of a longer character, so the three length tests are
/// mutually exclusive on valid UTF-8.
pub open spec fn trail_ws_len(s: Seq<u8>) -> int {
    let n = s.len() as int;
    if n >= 1 && ws_len_at(s, n - 1) == 1 {
        1
    } else if n >= 2 && ws_len_at(s, n - 2) == 2 {
        2
    } else if n >= 3 && ws_len_at(s, n - 3) == 3 {
        3
    } else {
        0
    }
}

/// `s` without the whitespace characters at its end.
pub open spec fn trim_end(s: Seq<u8>) -> Seq<u8>
    decreases s.len(),
{
    let l = trail_ws_len(s);
    if 0 < l <= s.len() {
        trim_end(s.take(s.len() - l))
    } else {
        s
    }
}

/// `s` without leading or trailing whitespace characters, as `str::trim`
/// yields on the decoded text.
pub open spec fn trim(s: Seq<u8>) -> Seq<u8> {
    trim_end(trim_start(s))
}

/// Byte length of the whitespace character ending `s[a..b]`, or 0.
fn trail_ws_len_bytes(s: &[u8], a: usize, b: usize) -> (l: usize)
    requires
        a <= b <= s@.len(),
    ensures
        l as int == trail_ws_len(s@.subrange(a as int, b as int)),
{
    let ghost t = s@.subrange(a as int, b as int);
    let m = b - a;
    if m >= 1 {
        let x = s[b - 1];
        proof {
            assert(t[m - 1] == s@[b - 1]);
        }
        if x == 9 || x == 10 || x == 11 || x == 12 || x == 13 || x == 32 {
            return 1;
        }
        if m >= 2 {
            let y = s[b - 2];
            proof {
                assert(t[m - 2] == s@[b - 2]);
            }
            if y == 0xC2 && (x == 0x85 || x == 0xA0) {
                return 2;
            }
            if m >= 3 {
                let z = s[b - 3];
                proof {
                    assert(t[m - 3] == s@[b - 3]);
                }
                if (z == 0xE1 && y == 0x9A && x == 0x80) || (z == 0xE2 && y == 0x80 && (0x80 <= x
                    && x <= 0x8A || x == 0xA8 || x == 0xA9 || x == 0xAF)) || (z == 0xE2 && y
                    == 0x81 && x == 0x9F) || (z == 0xE3 && y == 0x80 && x == 0x80) {
                    return 3;
                }
            }
        }
    }
    0
}

/// Copy of `s` without leading or trailing whitespace characters.
pub fn trim_bytes(s: &[u8]) -> (r: Vec<u8>)
    ensures
        r@ == trim(s@),
{
    let n = s.len();
    let mut a: usize = 0;
    let mut l = ws_len_at_bytes(s, 0);
    proof {
        assert(s@.skip(0) =~= s@);
    }
    while l > 0
        invariant
            a <= n == s@.len(),
            l as int == ws_len_at(s@, a as int),
            trim_start(s@) == trim_start(s@.skip(a as int)),
        decreases n - a,
    {
        proof {
            lemma_ws_len_shift(s@, a as int, 0);
            assert(a + l <= n);
            assert(s@.skip(a as int).skip(l as int) =~= s@.skip(a + l));
        }
        a = a + l;
        l = ws_len_at_bytes(s, a);
    }
    proof {
        lemma_ws_len_shift(s@, a as int, 0);
        assert(trim_start(s@) == s@.skip(a as int));
        assert(s@.skip(a as int) =~= s@.subrange(a as int, n as int));
    }
    let mut bnd: usize = n;
    let mut tl = trail_ws_len_bytes(s, a, n);
    while tl > 0
        invariant
            a <= bnd <= n == s@.len(),
            tl as int == trail_ws_len(s@.subrange(a as int, bnd as int)),
            trim_end(s@.subrange(a as int, n as int)) == trim_end(
                s@.subrange(a as int, bnd as int),
            ),
        decreases bnd,
    {
        proof {
            let t = s@.subrange(a as int, bnd as int);
            assert(tl <= t.len());
            assert(t.take(t.len() - tl) =~= s@.subrange(a as int, bnd - tl));
        }
        bnd = bnd - tl;
        tl = trail_ws_len_bytes(s, a, bnd);
    }
    let r = vstd::slice::slice_to_vec(vstd::slice::slice_subrange(s, a, bnd));
    proof {
        assert(trim_end(s@.subrange(a as int, bnd as int)) == s@.subrange(a as int, bnd as int));
    }
    r
}

/// The text between the first colon of `s` and the following colon or the
/// end of `s`: the second field of a colon-separated line, as
/// `str::split(':')` yields it. Absent when `s` holds no colon.
pub open spec fn after_colon(s: Seq<u8>) -> Option<Seq<u8>> {
    let i = find_byte(s, 58);
    if i < 0 {
        Option::None
    } else {
        let rest = s.skip(i + 1);
        let j = find_byte(rest, 58);
        if j < 0 {
            Option::Some(rest)
        } else {
            Option::Some(rest.take(j))
        }
    }
}

pub fn after_colon_bytes(s: &[u8]) -> (r: Option<Vec<u8>>)
    ensures
        match r {
            Some(v) => after_colon(s@) == Some(v@),
            None => after_colon(s@) == Option::<Seq<u8>>::None,
        },
{
    let n = s.len();
    let mut i: usize = 0;
    while i < n && s[i] != 58
        invariant
            i <= n == s@.len(),
            forall|k: int| 0 <= k < i ==> s@[k] != 58,
        decreases n - i,
    {
        i = i + 1;
    }
    proof {
        lemma_find_byte_is(s@, 58, i as int);
    }
    if i >= n {
        return None;
    }
    let ghost rest = s@.skip(i + 1);
    let mut j: usize = i + 1;
    while j < n && s[j] != 58
        invariant
            i < j <= n == s@.len(),
            forall|k: int| i + 1 <= k < j ==> s@[k] != 58,
        decreases n - j,
    {
        j = j + 1;
    }
    proof {
        assert(forall|k: int| 0 <= k < rest.len() ==> rest[k] == s@[k + i + 1]);
        lemma_find_byte_is(rest, 58, j - i - 1);
        assert(rest.take(j - i - 1) =~= s@.subrange(i + 1, j as int));
        assert(rest =~= s@.subrange(i + 1, n as int));
    }
    Some(vstd::slice::slice_to_vec(vstd::slice::slice_subrange(s, i + 1, j)))
}

// ---------------------------------------------------------------------------
// Whitespace-separated tokens
// ---------------------------------------------------------------------------

/// The longest prefix of `s` in which no whitespace character begins.
pub open spec fn take_until_ws(s: Seq<u8>) -> Seq<u8>
    decreases s.len(),
{
    if s.len() == 0 || ws_len_at(s, 0) > 0 {
        Seq::empty()
    } else {
        seq![s[0]] + take_until_ws(s.skip(1))
    }
}

proof fn lemma_take_until_ws_is(s: Seq<u8>, m: int)
    requires
        0 <= m <= s.len(),
        forall|k: int| 0 <= k < m ==> ws_len_at(s, k) == 0,
        m == s.len() || ws_len_at(s, m) > 0,
    ensures
        take_until_ws(s) == s.take(m),
    decreases m,
{
    if m == 0 {
        assert(s.take(0) =~= Seq::<u8>::empty());
    } else {
        assert forall|k: int| 0 <= k < m - 1 implies ws_len_at(s.skip(1), k) == 0 by {
            lemma_ws_len_shift(s, 1, k);
        }
        if m < s.len() {
            lemma_ws_len_shift(s, 1, m - 1);
        }
        lemma_take_until_ws_is(s.skip(1), m - 1);
        assert(seq![s[0]] + s.skip(1).take(m - 1) =~= s.take(m));
    }
}

/// The maximal runs of `s` in which no whitespace character begins, in
/// order: the tokens `str::split_whitespace` yields on the decoded text.
pub open spec fn split_ws(s: Seq<u8>) -> Seq<Seq<u8>>
    decreases s.len(),
{
    if s.len() == 0 {
        Seq::empty()
    } else {
        let l = ws_len_at(s, 0);
        if 0 < l <= s.len() {
            split_ws(s.skip(l))
        } else {
            let t = take_until_ws(s);
            if 1 <= t.len() <= s.len() {
                seq![t] + split_ws(s.skip(t.len() as int))
            } else {
                seq![t]
            }
        }
    }
}

/// Split `s` into its whitespace-separated tokens.
pub fn split_ws_bytes(s: &[u8]) -> (r: Vec<Vec<u8>>)
    ensures
        r.deep_view() == split_ws(s@),
{
    let n = s.len();
    let mut out: Vec<Vec<u8>> = Vec::new();
    let mut i: usize = 0;
    proof {
        assert(s@.skip(0) =~= s@);
        assert(out.deep_view() =~~= Seq::<Seq<u8>>::empty());
        assert(out.deep_view() + split_ws(s@) =~= split_ws(s@));
    }
    while i < n
        invariant
            i <= n == s@.len(),
            out.deep_view() + split_ws(s@.skip(i as int)) == split_ws(s@),
        decreases n - i,
    {
        let ghost tail = s@.skip(i as int);
        let l = ws_len_at_bytes(s, i);
        if l > 0 {
            proof {
                lemma_ws_len_shift(s@, i as int, 0);
                assert(i + l <= n);
                assert(tail.skip(l as int) =~= s@.skip(i + l));
            }
            i = i + l;
        } else {
            let ghost pre = out.deep_view();
            let mut j: usize = i;
            let mut jl: usize = 0;
            while j < n && jl == 0
                invariant
                    i <= j <= n == s@.len(),
                    jl as int == ws_len_at(s@, j as int),
                    forall|k: int| i <= k < j ==> ws_len_at(s@, k) == 0,
                decreases n - j,
            {
                j = j + 1;
                jl = ws_len_at_bytes(s, j);
            }
            let piece = vstd::slice::slice_to_vec(vstd::slice::slice_subrange(s, i, j));
            out.push(piece);
            proof {
                assert forall|k: int| 0 <= k < j - i implies ws_len_at(tail, k) == 0 by {
                    lemma_ws_len_shift(s@, i as int, k);
                }
                lemma_ws_len_shift(s@, i as int, j - i);
                lemma_take_until_ws_is(tail, j - i);
                assert(take_until_ws(tail) =~= s@.subrange(i as int, j as int));
                assert(ws_len_at(tail, 0) == 0);
                assert(j - i >= 1);
                assert(split_ws(tail) == seq![take_until_ws(tail)] + split_ws(
                    tail.skip(j - i),
                ));
                assert(tail.skip(j - i) =~= s@.skip(j as int));
                assert(out.deep_view() =~~= pre.push(s@.subrange(i as int, j as int)));
                assert(pre.push(s@.subrange(i as int, j as int)) + split_ws(s@.skip(j as int))
                    =~= pre + split_ws(tail));
            }
            i = j;
        }
    }
    proof {
        assert(s@.skip(i as int) =~= Seq::<u8>::empty());
        assert(out.deep_view() =~~= split_ws(s@));
    }
    out
}

} // verus!
