//! The outside expression evaluator, and the scan for the first comparison
//! operator of a condition.
//!
//! Numeric evaluation is done by the `tinyexpr` crate. What an expression
//! evaluates to takes pages to state, but depends on the expression text
//! alone, so the two trusted wrappers name their results (`eval_of`,
//! `cmp_of`) rather than restate the evaluator.

use vstd::prelude::*;

verus! {

/// Outcome of evaluating two operand texts numerically and comparing the
/// values: an ordering, `Unordered` for an incomparable pair, or
/// `NonNumeric` when either text does not evaluate.
#[derive(PartialEq, Eq, Structural, Clone, Copy, Debug)]
pub enum NumOrder {
    Less,
    Equal,
    Greater,
    Unordered,
    NonNumeric,
}

/// What `tinyexpr::interp` makes of an expression text: the value's decimal
/// rendering, or `None` when the text does not evaluate.
pub uninterp spec fn eval_of(s: Seq<u8>) -> Option<Seq<u8>>;

/// How the values of two expression texts compare numerically.
pub uninterp spec fn cmp_of(l: Seq<u8>, r: Seq<u8>) -> NumOrder;

pub open spec fn opt_bytes(o: Option<Vec<u8>>) -> Option<Seq<u8>> {
    match o {
        Some(v) => Some(v@),
        None => None,
    }
}

/// Relies on `tinyexpr::interp`: evaluation of an expression string is a
/// function of the text alone; the value is rendered with `f64`'s `Display`,
/// and an expression that does not parse or evaluate is reported as an error.
#[verifier::external_body]
pub fn eval_text(s: &Vec<u8>) -> (r: Option<Vec<u8>>)
    ensures
        opt_bytes(r) == eval_of(s@),
{
    match std::str::from_utf8(s.as_slice()) {
        Ok(t) => match tinyexpr::interp(t) {
            Ok(v) => Some(v.to_string().into_bytes()),
            Err(_) => None,
        },
        Err(_) => None,
    }
}

/// Relies on `tinyexpr::interp` on each operand and `f64::partial_cmp` on
/// the two values: the outcome is a function of the two texts alone.
/// `NonNumeric` reports that at least one operand did not evaluate.
#[verifier::external_body]
pub fn compare_numeric(l: &Vec<u8>, r: &Vec<u8>) -> (c: NumOrder)
    ensures
        c == cmp_of(l@, r@),
{
    let a = match std::str::from_utf8(l.as_slice()) { Ok(t) => tinyexpr::interp(t).ok(), Err(_) => None };
    let b = match std::str::from_utf8(r.as_slice()) { Ok(t) => tinyexpr::interp(t).ok(), Err(_) => None };
    match (a, b) {
        (Some(x), Some(y)) => match x.partial_cmp(&y) {
            Some(core::cmp::Ordering::Less) => NumOrder::Less,
            Some(core::cmp::Ordering::Equal) => NumOrder::Equal,
            Some(core::cmp::Ordering::Greater) => NumOrder::Greater,
            None => NumOrder::Unordered,
        },
        _ => NumOrder::NonNumeric,
    }
}

/// A comparison operator, in match-priority order.
#[derive(PartialEq, Eq, Structural, Clone, Copy, Debug)]
pub enum Op {
    Ne,
    Eq,
    Le,
    Ge,
    Lt,
    Gt,
}

pub open spec fn op_pat(o: Op) -> Seq<u8> {
    match o {
        Op::Ne => seq![33u8, 61u8],
        Op::Eq => seq![61u8, 61u8],
        Op::Le => seq![60u8, 61u8],
        Op::Ge => seq![62u8, 61u8],
        Op::Lt => seq![60u8],
        Op::Gt => seq![62u8],
    }
}

/// The operator found at position `i` of `s`: alternatives tried in the
/// match-priority order `!=`, `==`, `<=`, `>=`, `<`, `>`.
pub open spec fn op_at(s: Seq<u8>, i: int) -> Option<Op> {
    if i + 2 <= s.len() && s.subrange(i, i + 2) == op_pat(Op::Ne) {
        Some(Op::Ne)
    } else if i + 2 <= s.len() && s.subrange(i, i + 2) == op_pat(Op::Eq) {
        Some(Op::Eq)
    } else if i + 2 <= s.len() && s.subrange(i, i + 2) == op_pat(Op::Le) {
        Some(Op::Le)
    } else if i + 2 <= s.len() && s.subrange(i, i + 2) == op_pat(Op::Ge) {
        Some(Op::Ge)
    } else if s.subrange(i, i + 1) == op_pat(Op::Lt) {
        Some(Op::Lt)
    } else if s.subrange(i, i + 1) == op_pat(Op::Gt) {
        Some(Op::Gt)
    } else {
        None
    }
}

/// The first comparison operator of `s` at or after `i`.
pub open spec fn find_op(s: Seq<u8>, i: int) -> Option<(int, Op)>
    decreases s.len() - i,
{
    if i < 0 || i >= s.len() {
        None
    } else {
        match op_at(s, i) {
            Some(o) => Some((i, o)),
            None => find_op(s, i + 1),
        }
    }
}

proof fn lemma_seq1_eq(a: u8, b: u8)
    ensures
        (seq![a] == seq![b]) <==> a == b,
{
    if a == b {
        assert(seq![a] =~= seq![b]);
    }
    if seq![a] == seq![b] {
        assert(seq![a][0] == seq![b][0]);
    }
}

proof fn lemma_seq2_eq(a1: u8, a2: u8, b1: u8, b2: u8)
    ensures
        (seq![a1, a2] == seq![b1, b2]) <==> (a1 == b1 && a2 == b2),
{
    if a1 == b1 && a2 == b2 {
        assert(seq![a1, a2] =~= seq![b1, b2]);
    }
    if seq![a1, a2] == seq![b1, b2] {
        assert(seq![a1, a2][0] == seq![b1, b2][0]);
        assert(seq![a1, a2][1] == seq![b1, b2][1]);
    }
}

fn op_at_exec(s: &Vec<u8>, i: usize) -> (r: Option<Op>)
    requires
        i < s.len(),
    ensures
        r == op_at(s@, i as int),
{
    proof {
        assert(s@.subrange(i as int, i + 1) =~= seq![s@[i as int]]);
        lemma_seq1_eq(s@[i as int], 60);
        lemma_seq1_eq(s@[i as int], 62);
        if i + 2 <= s@.len() {
            assert(s@.subrange(i as int, i + 2) =~= seq![s@[i as int], s@[i + 1]]);
            lemma_seq2_eq(s@[i as int], s@[i + 1], 33, 61);
            lemma_seq2_eq(s@[i as int], s@[i + 1], 61, 61);
            lemma_seq2_eq(s@[i as int], s@[i + 1], 60, 61);
            lemma_seq2_eq(s@[i as int], s@[i + 1], 62, 61);
        }
    }
    let two = i + 1 < s.len();
    if two && s[i] == 33 && s[i + 1] == 61 {
        Some(Op::Ne)
    } else if two && s[i] == 61 && s[i + 1] == 61 {
        Some(Op::Eq)
    } else if two && s[i] == 60 && s[i + 1] == 61 {
        Some(Op::Le)
    } else if two && s[i] == 62 && s[i + 1] == 61 {
        Some(Op::Ge)
    } else if s[i] == 60 {
        Some(Op::Lt)
    } else if s[i] == 62 {
        Some(Op::Gt)
    } else {
        None
    }
}

/// Position and kind of the first comparison operator of `s`.
pub fn find_operator(s: &Vec<u8>) -> (r: Option<(usize, Op)>)
    ensures
        match r {
            Some(p) => find_op(s@, 0) == Some((p.0 as int, p.1)) && p.0 < s.len(),
            None => find_op(s@, 0) is None,
        },
{
    let mut i: usize = 0;
    while i < s.len()
        invariant
            i <= s.len(),
            find_op(s@, 0) == find_op(s@, i as int),
        decreases s.len() - i,
    {
        match op_at_exec(s, i) {
            Some(o) => {
                return Some((i, o));
            },
            None => {
                i = i + 1;
            },
        }
    }
    None
}

} // verus!
