//! Label and variable stores: association lists keyed by byte-string names,
//! where the latest entry for a name wins, as a repeated insertion into a map
//! would.

use vstd::prelude::*;
use crate::text::subvec;

verus! {

/// Value bound to `key` in `entries`, the latest entry winning.
pub open spec fn lookup<V>(entries: Seq<(Seq<u8>, V)>, key: Seq<u8>) -> Option<V>
    decreases entries.len(),
{
    if entries.len() == 0 {
        None
    } else if entries.last().0 == key {
        Some(entries.last().1)
    } else {
        lookup(entries.drop_last(), key)
    }
}

/// View of a variable store: name and value pairs.
pub open spec fn vars_view(v: Seq<(Vec<u8>, Vec<u8>)>) -> Seq<(Seq<u8>, Seq<u8>)> {
    v.map_values(|p: (Vec<u8>, Vec<u8>)| (p.0@, p.1@))
}

/// View of a label table: name and line-index pairs.
pub open spec fn labels_view(v: Seq<(Vec<u8>, usize)>) -> Seq<(Seq<u8>, usize)> {
    v.map_values(|p: (Vec<u8>, usize)| (p.0@, p.1))
}

/// Current value of the variable named `name`.
pub fn lookup_var(vars: &Vec<(Vec<u8>, Vec<u8>)>, name: &Vec<u8>) -> (r: Option<Vec<u8>>)
    ensures
        match r {
            Some(v) => lookup(vars_view(vars@), name@) == Some(v@),
            None => lookup(vars_view(vars@), name@) is None,
        },
{
    proof {
        assert(vars_view(vars@).subrange(0, vars@.len() as int) =~= vars_view(vars@));
    }
    let mut i: usize = vars.len();
    while i > 0
        invariant
            i <= vars.len(),
            lookup(vars_view(vars@), name@) == lookup(
                vars_view(vars@).subrange(0, i as int),
                name@,
            ),
        decreases i,
    {
        let ghost pre = vars_view(vars@).subrange(0, i as int);
        proof {
            assert(pre.drop_last() =~= vars_view(vars@).subrange(0, i - 1));
            assert(pre.last() == (vars@[i - 1].0@, vars@[i - 1].1@));
        }
        if crate::text::bytes_eq(&vars[i - 1].0, name) {
            let v = subvec(&vars[i - 1].1, 0, vars[i - 1].1.len());
            proof {
                assert(v@ =~= vars@[i - 1].1@);
            }
            return Some(v);
        }
        i = i - 1;
    }
    proof {
        assert(vars_view(vars@).subrange(0, 0) =~= Seq::<(Seq<u8>, Seq<u8>)>::empty());
    }
    None
}

/// Whether the variable named `name` is declared.
pub fn var_declared(vars: &Vec<(Vec<u8>, Vec<u8>)>, name: &Vec<u8>) -> (r: bool)
    ensures
        r == (lookup(vars_view(vars@), name@) is Some),
{
    lookup_var(vars, name).is_some()
}

/// Bind `name` to `value`; a later entry shadows any earlier one.
pub fn set_var(vars: &mut Vec<(Vec<u8>, Vec<u8>)>, name: Vec<u8>, value: Vec<u8>)
    ensures
        vars_view(final(vars)@) == vars_view(old(vars)@).push((name@, value@)),
{
    let ghost n = name@;
    let ghost val = value@;
    vars.push((name, value));
    proof {
        assert(vars_view(vars@) =~= vars_view(old(vars)@).push((n, val)));
    }
}

/// Line index of the label named `name`.
pub fn lookup_label(labels: &Vec<(Vec<u8>, usize)>, name: &Vec<u8>) -> (r: Option<usize>)
    ensures
        match r {
            Some(ix) => lookup(labels_view(labels@), name@) == Some(ix),
            None => lookup(labels_view(labels@), name@) is None,
        },
{
    proof {
        assert(labels_view(labels@).subrange(0, labels@.len() as int) =~= labels_view(labels@));
    }
    let mut i: usize = labels.len();
    while i > 0
        invariant
            i <= labels.len(),
            lookup(labels_view(labels@), name@) == lookup(
                labels_view(labels@).subrange(0, i as int),
                name@,
            ),
        decreases i,
    {
        let ghost pre = labels_view(labels@).subrange(0, i as int);
        proof {
            assert(pre.drop_last() =~= labels_view(labels@).subrange(0, i - 1));
            assert(pre.last() == (labels@[i - 1].0@, labels@[i - 1].1));
        }
        if crate::text::bytes_eq(&labels[i - 1].0, name) {
            return Some(labels[i - 1].1);
        }
        i = i - 1;
    }
    proof {
        assert(labels_view(labels@).subrange(0, 0) =~= Seq::<(Seq<u8>, usize)>::empty());
    }
    None
}

} // verus!
