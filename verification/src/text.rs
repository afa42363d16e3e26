//! Byte-string utilities shared by the interpreter: pattern search, split,
//! replace, trimming, decimal parsing and formatting.

use vstd::prelude::*;

verus! {

/// ASCII whitespace, as trimmed from conditional branch texts.
pub open spec fn is_space(b: u8) -> bool {
    b == 32 || (9 <= b && b <= 13)
}

/// ASCII letter; lines of a numeric prompt must contain none.
pub open spec fn is_alpha(b: u8) -> bool {
    (65 <= b && b <= 90) || (97 <= b && b <= 122)
}

pub open spec fn is_digit(b: u8) -> bool {
    48 <= b && b <= 57
}

/// Index of the first occurrence of `pat` in `text` at or after `from`;
/// `None` for an empty pattern.
pub open spec fn find_first(text: Seq<u8>, pat: Seq<u8>, from: int) -> Option<int>
    decreases text.len() - from,
{
    if pat.len() == 0 || from < 0 || from + pat.len() > text.len() {
        None
    } else if text.subrange(from, from + pat.len() as int) == pat {
        Some(from)
    } else {
        find_first(text, pat, from + 1)
    }
}

/// A found occurrence lies within `text` and matches `pat` there.
pub proof fn lemma_find_first_bounds(text: Seq<u8>, pat: Seq<u8>, from: int)
    ensures
        match find_first(text, pat, from) {
            Some(i) => from <= i && 0 <= i && i + pat.len() <= text.len() && text.subrange(
                i,
                i + pat.len() as int,
            ) == pat && pat.len() > 0,
            None => true,
        },
    decreases text.len() - from,
{
    if pat.len() == 0 || from < 0 || from + pat.len() > text.len() {
    } else if text.subrange(from, from + pat.len() as int) == pat {
    } else {
        lemma_find_first_bounds(text, pat, from + 1);
    }
}

/// The parts of `text` separated by non-overlapping occurrences of `pat`,
/// found left to right; mirrors `str::split` on a non-empty pattern.
pub open spec fn split_on(text: Seq<u8>, pat: Seq<u8>) -> Seq<Seq<u8>>
    decreases text.len(),
    via split_on_dec
{
    if pat.len() == 0 {
        Seq::empty()
    } else {
        match find_first(text, pat, 0) {
            None => seq![text],
            Some(i) => seq![text.subrange(0, i)] + split_on(
                text.subrange(i + pat.len() as int, text.len() as int),
                pat,
            ),
        }
    }
}

#[via_fn]
proof fn split_on_dec(text: Seq<u8>, pat: Seq<u8>) {
    lemma_find_first_bounds(text, pat, 0);
}

/// `text` with every occurrence of `pat` replaced by `repl`, left to right,
/// replacements not rescanned; mirrors `str::replace`.
pub open spec fn replace_all(text: Seq<u8>, pat: Seq<u8>, repl: Seq<u8>) -> Seq<u8>
    decreases text.len(),
    via replace_all_dec
{
    if pat.len() == 0 {
        text
    } else {
        match find_first(text, pat, 0) {
            None => text,
            Some(i) => text.subrange(0, i) + repl + replace_all(
                text.subrange(i + pat.len() as int, text.len() as int),
                pat,
                repl,
            ),
        }
    }
}

#[via_fn]
proof fn replace_all_dec(text: Seq<u8>, pat: Seq<u8>, repl: Seq<u8>) {
    lemma_find_first_bounds(text, pat, 0);
}

/// Copy of `v[a..b]`.
pub fn subvec(v: &Vec<u8>, a: usize, b: usize) -> (r: Vec<u8>)
    requires
        a <= b <= v.len(),
    ensures
        r@ == v@.subrange(a as int, b as int),
{
    let mut r: Vec<u8> = Vec::new();
    let mut i: usize = a;
    while i < b
        invariant
            a <= i <= b <= v.len(),
            r@ == v@.subrange(a as int, i as int),
        decreases b - i,
    {
        r.push(v[i]);
        i = i + 1;
        proof {
            assert(r@ =~= v@.subrange(a as int, i as int));
        }
    }
    r
}

pub fn bytes_eq(a: &Vec<u8>, b: &Vec<u8>) -> (r: bool)
    ensures
        r == (a@ == b@),
{
    if a.len() != b.len() {
        proof {
            assert(a@ != b@);
        }
        return false;
    }
    let mut i: usize = 0;
    while i < a.len()
        invariant
            i <= a.len(),
            a.len() == b.len(),
            forall|k: int| 0 <= k < i ==> a@[k] == b@[k],
        decreases a.len() - i,
    {
        if a[i] != b[i] {
            return false;
        }
        i = i + 1;
    }
    proof {
        assert(a@ =~= b@);
    }
    true
}

/// Whether `pat` occurs in `text` exactly at index `i`.
fn match_at(text: &Vec<u8>, pat: &Vec<u8>, i: usize) -> (r: bool)
    requires
        i + pat.len() <= text.len(),
    ensures
        r == (text@.subrange(i as int, i + pat@.len()) == pat@),
{
    let mut j: usize = 0;
    while j < pat.len()
        invariant
            j <= pat.len(),
            i + pat.len() <= text.len(),
            forall|k: int| 0 <= k < j ==> text@[i + k] == pat@[k],
        decreases pat.len() - j,
    {
        if text[i + j] != pat[j] {
            proof {
                assert(text@.subrange(i as int, i + pat@.len())[j as int] != pat@[j as int]);
            }
            return false;
        }
        j = j + 1;
    }
    proof {
        assert(text@.subrange(i as int, i + pat@.len()) =~= pat@);
    }
    true
}

/// First occurrence of `pat` in `text` at or after `from`.
pub fn find_pat(text: &Vec<u8>, pat: &Vec<u8>, from: usize) -> (r: Option<usize>)
    requires
        pat.len() > 0,
    ensures
        match r {
            Some(i) => find_first(text@, pat@, from as int) == Some(i as int) && from <= i && i
                + pat.len() <= text.len(),
            None => find_first(text@, pat@, from as int) is None,
        },
{
    let n = text.len();
    let m = pat.len();
    if n < m || from > n - m {
        return None;
    }
    let mut i: usize = from;
    while i <= n - m
        invariant
            m == pat.len() > 0,
            n == text.len() >= m,
            from <= i <= n - m + 1,
            find_first(text@, pat@, from as int) == find_first(text@, pat@, i as int),
        decreases n - i,
    {
        if match_at(text, pat, i) {
            return Some(i);
        }
        i = i + 1;
    }
    None
}

/// Split `text` on each occurrence of `pat`.
pub fn split_bytes(text: &Vec<u8>, pat: &Vec<u8>) -> (r: Vec<Vec<u8>>)
    requires
        pat.len() > 0,
    ensures
        r@.map_values(|v: Vec<u8>| v@) == split_on(text@, pat@),
        r.len() >= 1,
    decreases text@.len(),
{
    match find_pat(text, pat, 0) {
        None => {
            let mut r: Vec<Vec<u8>> = Vec::new();
            r.push(subvec(text, 0, text.len()));
            proof {
                assert(text@.subrange(0, text@.len() as int) =~= text@);
                assert(r@.map_values(|v: Vec<u8>| v@) =~= split_on(text@, pat@));
            }
            r
        },
        Some(i) => {
            let head = subvec(text, 0, i);
            let tail = subvec(text, i + pat.len(), text.len());
            let mut rest = split_bytes(&tail, pat);
            let ghost rest_view = rest@.map_values(|v: Vec<u8>| v@);
            let mut r: Vec<Vec<u8>> = Vec::new();
            r.push(head);
            r.append(&mut rest);
            proof {
                assert(r@.map_values(|v: Vec<u8>| v@) =~= seq![text@.subrange(0, i as int)]
                    + rest_view);
            }
            r
        },
    }
}

/// Replace every occurrence of `pat` in `text` by `repl`.
pub fn replace_bytes(text: &Vec<u8>, pat: &Vec<u8>, repl: &Vec<u8>) -> (r: Vec<u8>)
    requires
        pat.len() > 0,
    ensures
        r@ == replace_all(text@, pat@, repl@),
    decreases text@.len(),
{
    match find_pat(text, pat, 0) {
        None => {
            let r = subvec(text, 0, text.len());
            proof {
                assert(text@.subrange(0, text@.len() as int) =~= text@);
            }
            r
        },
        Some(i) => {
            let mut r = subvec(text, 0, i);
            let mut mid = subvec(repl, 0, repl.len());
            let tail = subvec(text, i + pat.len(), text.len());
            let mut rest = replace_bytes(&tail, pat, repl);
            proof {
                assert(repl@.subrange(0, repl@.len() as int) =~= repl@);
            }
            r.append(&mut mid);
            r.append(&mut rest);
            proof {
                assert(r@ =~= replace_all(text@, pat@, repl@));
            }
            r
        },
    }
}

pub open spec fn trim_start_spec(s: Seq<u8>) -> Seq<u8>
    decreases s.len(),
{
    if s.len() > 0 && is_space(s[0]) {
        trim_start_spec(s.drop_first())
    } else {
        s
    }
}

pub open spec fn trim_end_spec(s: Seq<u8>) -> Seq<u8>
    decreases s.len(),
{
    if s.len() > 0 && is_space(s.last()) {
        trim_end_spec(s.drop_last())
    } else {
        s
    }
}

/// `s` without leading and trailing ASCII whitespace.
pub open spec fn trim_spec(s: Seq<u8>) -> Seq<u8> {
    trim_end_spec(trim_start_spec(s))
}

fn space_byte(b: u8) -> (r: bool)
    ensures
        r == is_space(b),
{
    b == 32 || (9 <= b && b <= 13)
}

pub fn trim(v: &Vec<u8>) -> (r: Vec<u8>)
    ensures
        r@ == trim_spec(v@),
{
    proof {
        assert(v@.subrange(0, v@.len() as int) =~= v@);
    }
    let mut lo: usize = 0;
    while lo < v.len() && space_byte(v[lo])
        invariant
            lo <= v.len(),
            trim_start_spec(v@) == trim_start_spec(v@.subrange(lo as int, v@.len() as int)),
        decreases v.len() - lo,
    {
        proof {
            assert(v@.subrange(lo as int, v@.len() as int).drop_first() =~= v@.subrange(
                lo + 1,
                v@.len() as int,
            ));
        }
        lo = lo + 1;
    }
    let mut hi: usize = v.len();
    while hi > lo && space_byte(v[hi - 1])
        invariant
            lo <= hi <= v.len(),
            trim_start_spec(v@) == trim_start_spec(v@.subrange(lo as int, v@.len() as int)),
            !(lo < v.len() && is_space(v@[lo as int])),
            trim_end_spec(v@.subrange(lo as int, v@.len() as int)) == trim_end_spec(
                v@.subrange(lo as int, hi as int),
            ),
        decreases hi,
    {
        proof {
            assert(v@.subrange(lo as int, hi as int).drop_last() =~= v@.subrange(
                lo as int,
                hi - 1,
            ));
        }
        hi = hi - 1;
    }
    let r = subvec(v, lo, hi);
    proof {
        let sub = v@.subrange(lo as int, v@.len() as int);
        assert(trim_start_spec(sub) == sub);
        let sub2 = v@.subrange(lo as int, hi as int);
        assert(trim_end_spec(sub2) == sub2);
    }
    r
}

/// One trailing line feed removed, then one trailing carriage return: the
/// forms a console line ends with.
pub open spec fn strip_nl_spec(s: Seq<u8>) -> Seq<u8> {
    let t = if s.len() > 0 && s.last() == 10 {
        s.drop_last()
    } else {
        s
    };
    if t.len() > 0 && t.last() == 13 {
        t.drop_last()
    } else {
        t
    }
}

pub fn strip_newline(v: &Vec<u8>) -> (r: Vec<u8>)
    ensures
        r@ == strip_nl_spec(v@),
{
    let mut hi: usize = v.len();
    if hi > 0 && v[hi - 1] == 10 {
        hi = hi - 1;
    }
    if hi > 0 && v[hi - 1] == 13 {
        hi = hi - 1;
    }
    let r = subvec(v, 0, hi);
    proof {
        assert(r@ =~= strip_nl_spec(v@));
    }
    r
}

/// Whether `s` holds any ASCII letter.
pub open spec fn has_alpha(s: Seq<u8>) -> bool {
    exists|i: int| 0 <= i < s.len() && is_alpha(s[i])
}

pub fn contains_alpha(v: &Vec<u8>) -> (r: bool)
    ensures
        r == has_alpha(v@),
{
    let mut i: usize = 0;
    while i < v.len()
        invariant
            i <= v.len(),
            forall|k: int| 0 <= k < i ==> !is_alpha(v@[k]),
        decreases v.len() - i,
    {
        let b = v[i];
        if (65 <= b && b <= 90) || (97 <= b && b <= 122) {
            return true;
        }
        i = i + 1;
    }
    false
}

/// Numeric value of a run of decimal digits.
pub open spec fn digits_val(s: Seq<u8>) -> nat
    decreases s.len(),
{
    if s.len() == 0 {
        0
    } else {
        digits_val(s.drop_last()) * 10 + (s.last() - 48) as nat
    }
}

pub open spec fn all_digits(s: Seq<u8>) -> bool {
    forall|i: int| 0 <= i < s.len() ==> is_digit(s[i])
}

/// The value `s` denotes as an unsigned decimal integer: an optional leading
/// `+`, then at least one digit, the value fitting in `usize`; mirrors
/// `usize::from_str`.
pub open spec fn parse_usize_spec(s: Seq<u8>) -> Option<int> {
    let body = if s.len() > 0 && s[0] == 43 {
        s.drop_first()
    } else {
        s
    };
    if body.len() > 0 && all_digits(body) && digits_val(body) <= usize::MAX {
        Some(digits_val(body) as int)
    } else {
        None
    }
}

pub fn parse_usize(v: &Vec<u8>) -> (r: Option<usize>)
    ensures
        match r {
            Some(n) => parse_usize_spec(v@) == Some(n as int),
            None => parse_usize_spec(v@) is None,
        },
{
    let start: usize = if v.len() > 0 && v[0] == 43 {
        1
    } else {
        0
    };
    let ghost body = if v@.len() > 0 && v@[0] == 43 {
        v@.drop_first()
    } else {
        v@
    };
    proof {
        assert(body =~= v@.subrange(start as int, v@.len() as int));
    }
    if v.len() == start {
        return None;
    }
    let mut i: usize = start;
    let mut acc: usize = 0;
    let mut over: bool = false;
    while i < v.len()
        invariant
            start <= i <= v.len(),
            start <= 1,
            (start == 1) == (v@.len() > 0 && v@[0] == 43),
            body == v@.subrange(start as int, v@.len() as int),
            body == (if v@.len() > 0 && v@[0] == 43 {
                v@.drop_first()
            } else {
                v@
            }),
            all_digits(v@.subrange(start as int, i as int)),
            over <==> digits_val(v@.subrange(start as int, i as int)) > usize::MAX,
            !over ==> acc == digits_val(v@.subrange(start as int, i as int)),
        decreases v.len() - i,
    {
        let b = v[i];
        if !(48 <= b && b <= 57) {
            proof {
                assert(body.len() == v@.len() - start);
                assert(body[i - start] == v@[i as int]);
                assert(!is_digit(body[i - start]));
                assert(!all_digits(body));
            }
            return None;
        }
        let d: usize = (b - 48) as usize;
        let ghost pre = v@.subrange(start as int, i as int);
        let ghost post = v@.subrange(start as int, i + 1);
        proof {
            assert(post.drop_last() =~= pre);
            assert(post.last() == b);
        }
        if over {
            proof {
                assert(digits_val(post) == digits_val(pre) * 10 + d);
                assert(digits_val(pre) * 10 >= digits_val(pre)) by (nonlinear_arith)
                    requires digits_val(pre) >= 0;
                assert(digits_val(pre) * 10 + d > usize::MAX) by (nonlinear_arith)
                    requires digits_val(pre) > usize::MAX && d >= 0;
            }
        } else {
            if acc > (usize::MAX - d) / 10 {
                proof {
                    let m = usize::MAX as int;
                    assert(acc * 10 + d > m) by (nonlinear_arith)
                        requires
                            acc > (m - d) / 10,
                            0 <= d <= 9,
                            m >= 10,
                            acc >= 0;
                    assert(digits_val(post) > usize::MAX);
                }
                over = true;
            } else {
                proof {
                    let m = usize::MAX as int;
                    assert(acc * 10 + d <= m) by (nonlinear_arith)
                        requires
                            acc <= (m - d) / 10,
                            0 <= d <= 9,
                            m >= 10,
                            acc >= 0;
                }
                acc = acc * 10 + d;
            }
        }
        i = i + 1;
    }
    proof {
        assert(v@.subrange(start as int, v@.len() as int) =~= body);
    }
    if over {
        None
    } else {
        Some(acc)
    }
}

/// Decimal digits of `n`, most significant first.
pub open spec fn dec_spec(n: nat) -> Seq<u8>
    decreases n,
{
    if n < 10 {
        seq![(48 + n) as u8]
    } else {
        dec_spec(n / 10).push((48 + n % 10) as u8)
    }
}

/// `n` written in decimal.
pub fn dec_of(n: usize) -> (r: Vec<u8>)
    ensures
        r@ == dec_spec(n as nat),
    decreases n,
{
    if n < 10 {
        let mut r: Vec<u8> = Vec::new();
        r.push(48 + (n as u8));
        proof {
            assert(r@ =~= dec_spec(n as nat));
        }
        r
    } else {
        let mut r = dec_of(n / 10);
        r.push(48 + ((n % 10) as u8));
        r
    }
}

} // verus!
