//! Variable substitution: scanning a line for `@name` tokens and replacing
//! each distinct token, in discovery order, by the variable's current value.

use vstd::prelude::*;
use crate::text::{replace_all, replace_bytes, subvec, bytes_eq};
use crate::store::{lookup, vars_view, lookup_var};

verus! {

/// Bytes that may appear in a variable name: anything but space, NUL and the
/// delimiters `+ - < > = ( ) . ! # : ; ^ / \ @`.
pub open spec fn is_name_byte(b: u8) -> bool {
    !(b == 32 || b == 0 || b == 43 || b == 45 || b == 60 || b == 62 || b == 61 || b == 40 || b
        == 41 || b == 46 || b == 33 || b == 35 || b == 58 || b == 59 || b == 94 || b == 47 || b
        == 92 || b == 64)
}

/// Length of the maximal run of name bytes starting at `i`.
pub open spec fn run_len(s: Seq<u8>, i: int) -> int
    decreases s.len() - i,
{
    if i < 0 || i >= s.len() {
        0
    } else if is_name_byte(s[i]) {
        1 + run_len(s, i + 1)
    } else {
        0
    }
}

/// A run is non-negative and stays within `s`.
pub proof fn lemma_run_len_bounds(s: Seq<u8>, i: int)
    ensures
        run_len(s, i) >= 0,
        0 <= i <= s.len() ==> i + run_len(s, i) <= s.len(),
    decreases s.len() - i,
{
    if i < 0 || i >= s.len() {
    } else if is_name_byte(s[i]) {
        lemma_run_len_bounds(s, i + 1);
    } else {
    }
}

/// The `@name` tokens of `s` at or after `i`, in the order found: at each
/// `@`, the maximal non-empty run of name bytes after it.
pub open spec fn scan_from(s: Seq<u8>, i: int) -> Seq<Seq<u8>>
    decreases s.len() - i,
    via scan_from_dec
{
    if i < 0 || i >= s.len() {
        Seq::empty()
    } else if s[i] == 64 {
        let n = run_len(s, i + 1);
        if n > 0 {
            seq![s.subrange(i + 1, i + 1 + n)] + scan_from(s, i + 1 + n)
        } else {
            scan_from(s, i + 1)
        }
    } else {
        scan_from(s, i + 1)
    }
}

#[via_fn]
proof fn scan_from_dec(s: Seq<u8>, i: int) {
    if 0 <= i < s.len() {
        lemma_run_len_bounds(s, i + 1);
    }
}

/// The first occurrence of each token, in order.
pub open spec fn dedup(ts: Seq<Seq<u8>>) -> Seq<Seq<u8>>
    decreases ts.len(),
{
    if ts.len() == 0 {
        Seq::empty()
    } else {
        let rest = dedup(ts.drop_last());
        if rest.contains(ts.last()) {
            rest
        } else {
            rest.push(ts.last())
        }
    }
}

/// Replace each name of `names` from index `k` on, in order, by its value in
/// `vars`, everywhere in `text`; the first undeclared name is the error.
pub open spec fn subst_loop(
    vars: Seq<(Seq<u8>, Seq<u8>)>,
    names: Seq<Seq<u8>>,
    text: Seq<u8>,
    k: int,
) -> Result<Seq<u8>, Seq<u8>>
    decreases names.len() - k,
{
    if k < 0 || k >= names.len() {
        Ok(text)
    } else {
        match lookup(vars, names[k]) {
            None => Err(names[k]),
            Some(v) => subst_loop(vars, names, replace_all(text, seq![64u8] + names[k], v), k + 1),
        }
    }
}

/// `text` with every distinct `@name` token replaced by the variable's value,
/// in discovery order; `Err` names the first undeclared variable.
pub open spec fn substituted(vars: Seq<(Seq<u8>, Seq<u8>)>, text: Seq<u8>) -> Result<
    Seq<u8>,
    Seq<u8>,
> {
    subst_loop(vars, dedup(scan_from(text, 0)), text, 0)
}

fn name_byte(b: u8) -> (r: bool)
    ensures
        r == is_name_byte(b),
{
    !(b == 32 || b == 0 || b == 43 || b == 45 || b == 60 || b == 62 || b == 61 || b == 40 || b
        == 41 || b == 46 || b == 33 || b == 35 || b == 58 || b == 59 || b == 94 || b == 47 || b
        == 92 || b == 64)
}

/// End of the run of name bytes starting at `i`.
fn run_end(v: &Vec<u8>, i: usize) -> (r: usize)
    requires
        i <= v.len(),
    ensures
        r == i + run_len(v@, i as int),
        i <= r <= v.len(),
{
    proof {
        lemma_run_len_bounds(v@, i as int);
    }
    let mut j: usize = i;
    while j < v.len() && name_byte(v[j])
        invariant
            i <= j <= v.len(),
            run_len(v@, i as int) == (j - i) + run_len(v@, j as int),
        decreases v.len() - j,
    {
        proof {
            assert(run_len(v@, j as int) == 1 + run_len(v@, j + 1));
            lemma_run_len_bounds(v@, j + 1);
        }
        j = j + 1;
    }
    proof {
        assert(run_len(v@, j as int) == 0);
    }
    j
}

/// All `@name` tokens of `v`, in discovery order.
pub fn scan_tokens(v: &Vec<u8>) -> (r: Vec<Vec<u8>>)
    ensures
        r@.map_values(|t: Vec<u8>| t@) == scan_from(v@, 0),
{
    let mut r: Vec<Vec<u8>> = Vec::new();
    let mut i: usize = 0;
    while i < v.len()
        invariant
            i <= v.len(),
            scan_from(v@, 0) == r@.map_values(|t: Vec<u8>| t@) + scan_from(v@, i as int),
        decreases v.len() - i,
    {
        let ghost pre_map = r@.map_values(|t: Vec<u8>| t@);
        if v[i] == 64 {
            let e = run_end(v, i + 1);
            if e > i + 1 {
                let tok = subvec(v, i + 1, e);
                proof {
                    assert(scan_from(v@, i as int) == seq![tok@] + scan_from(v@, e as int));
                }
                r.push(tok);
                proof {
                    assert(r@.map_values(|t: Vec<u8>| t@) =~= pre_map.push(tok@));
                    assert(pre_map + (seq![tok@] + scan_from(v@, e as int)) =~= pre_map.push(tok@)
                        + scan_from(v@, e as int));
                }
                i = e;
            } else {
                proof {
                    assert(scan_from(v@, i as int) == scan_from(v@, i + 1));
                }
                i = i + 1;
            }
        } else {
            proof {
                assert(scan_from(v@, i as int) == scan_from(v@, i + 1));
            }
            i = i + 1;
        }
    }
    proof {
        assert(scan_from(v@, i as int) =~= Seq::<Seq<u8>>::empty());
        assert(r@.map_values(|t: Vec<u8>| t@) + Seq::<Seq<u8>>::empty() =~= r@.map_values(
            |t: Vec<u8>| t@,
        ));
    }
    r
}

fn contains_tok(ts: &Vec<Vec<u8>>, t: &Vec<u8>) -> (r: bool)
    ensures
        r == ts@.map_values(|x: Vec<u8>| x@).contains(t@),
{
    let ghost m = ts@.map_values(|x: Vec<u8>| x@);
    let mut i: usize = 0;
    while i < ts.len()
        invariant
            i <= ts.len(),
            m == ts@.map_values(|x: Vec<u8>| x@),
            forall|k: int| 0 <= k < i ==> m[k] != t@,
        decreases ts.len() - i,
    {
        if bytes_eq(&ts[i], t) {
            proof {
                assert(m[i as int] == t@);
            }
            return true;
        }
        i = i + 1;
    }
    false
}

/// The tokens of `ts` with later repetitions dropped.
pub fn dedup_tokens(ts: &Vec<Vec<u8>>) -> (r: Vec<Vec<u8>>)
    ensures
        r@.map_values(|x: Vec<u8>| x@) == dedup(ts@.map_values(|x: Vec<u8>| x@)),
{
    let ghost m = ts@.map_values(|x: Vec<u8>| x@);
    let mut r: Vec<Vec<u8>> = Vec::new();
    let mut i: usize = 0;
    proof {
        assert(m.subrange(0, 0) =~= Seq::<Seq<u8>>::empty());
    }
    while i < ts.len()
        invariant
            i <= ts.len(),
            m == ts@.map_values(|x: Vec<u8>| x@),
            r@.map_values(|x: Vec<u8>| x@) == dedup(m.subrange(0, i as int)),
        decreases ts.len() - i,
    {
        let ghost pre = m.subrange(0, i as int);
        let ghost post = m.subrange(0, i + 1);
        proof {
            assert(post.drop_last() =~= pre);
            assert(post.last() == m[i as int]);
        }
        if !contains_tok(&r, &ts[i]) {
            let tok = subvec(&ts[i], 0, ts[i].len());
            proof {
                assert(tok@ =~= m[i as int]);
            }
            let ghost pre_map = r@.map_values(|x: Vec<u8>| x@);
            r.push(tok);
            proof {
                assert(r@.map_values(|x: Vec<u8>| x@) =~= pre_map.push(m[i as int]));
            }
        }
        i = i + 1;
    }
    proof {
        assert(m.subrange(0, ts@.len() as int) =~= m);
    }
    r
}

/// `text` with every distinct `@name` token replaced by its variable's
/// current value; `Err` is the first token whose variable is undeclared.
pub fn substitute(vars: &Vec<(Vec<u8>, Vec<u8>)>, text: &Vec<u8>) -> (r: Result<Vec<u8>, Vec<u8>>)
    ensures
        match r {
            Ok(t) => substituted(vars_view(vars@), text@) == Ok::<Seq<u8>, Seq<u8>>(t@),
            Err(n) => substituted(vars_view(vars@), text@) == Err::<Seq<u8>, Seq<u8>>(n@),
        },
{
    let toks = scan_tokens(text);
    let names = dedup_tokens(&toks);
    let ghost names_m = names@.map_values(|x: Vec<u8>| x@);
    let mut cur = subvec(text, 0, text.len());
    proof {
        assert(cur@ =~= text@);
    }
    let mut k: usize = 0;
    while k < names.len()
        invariant
            k <= names.len(),
            names_m == names@.map_values(|x: Vec<u8>| x@),
            substituted(vars_view(vars@), text@) == subst_loop(
                vars_view(vars@),
                names_m,
                cur@,
                k as int,
            ),
        decreases names.len() - k,
    {
        proof {
            assert(names_m[k as int] == names@[k as int]@);
        }
        match lookup_var(vars, &names[k]) {
            None => {
                let bad = subvec(&names[k], 0, names[k].len());
                proof {
                    assert(bad@ =~= names_m[k as int]);
                }
                return Err(bad);
            },
            Some(val) => {
                let mut pat: Vec<u8> = Vec::new();
                pat.push(64);
                let mut nm = subvec(&names[k], 0, names[k].len());
                pat.append(&mut nm);
                proof {
                    assert(pat@ =~= seq![64u8] + names_m[k as int]);
                }
                cur = replace_bytes(&cur, &pat, &val);
                k = k + 1;
            },
        }
    }
    Ok(cur)
}

} // verus!
