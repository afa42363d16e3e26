//! General laws of the interpreter, proved once and for all: determinism of
//! the dispatch step, exactness of jumps, and substitution leaving
//! token-free text unchanged.

use vstd::prelude::*;
use crate::text::{split_on, trim_spec};
use crate::store::{lookup, vars_view, labels_view};
use crate::subst::{substituted, subst_loop, dedup, scan_from};
use crate::engine::{Engine, State, ModeV, FatalKind, mode_view, lines_view, step_spec,
    provide_spec, cond_eval, branch_spec, cond_spec, jump_to, advance, at_line_spec, menu_spec,
    input_spec, labels_of};

verus! {

/// Whether `l` is a declaration of the label `name`.
pub open spec fn declares(l: Seq<u8>, name: Seq<u8>) -> bool {
    l.len() > 0 && l[0] == 58 && l.drop_first() == name
}

/// Engines presenting the same views are the same to every spec function
/// of the step.
pub open spec fn same_views(a: Engine, b: Engine) -> bool {
    &&& lines_view(a.lines@) == lines_view(b.lines@)
    &&& labels_view(a.labels@) == labels_view(b.labels@)
    &&& vars_view(a.vars@) == vars_view(b.vars@)
    &&& a.pc == b.pc
    &&& mode_view(a.mode) == mode_view(b.mode)
}

proof fn lemma_branch_deterministic(a: Engine, b: Engine, exp: Seq<u8>)
    requires
        same_views(a, b),
    ensures
        branch_spec(a, exp) == branch_spec(b, exp),
{
    assert(jump_to(a, exp.drop_first()) == jump_to(b, exp.drop_first()));
}

/// The Program Counter sequence is deterministic: two engines presenting
/// the same script, label table, variable store, program counter and mode
/// take the very same step, with the same outputs, new state and errors;
/// no hidden state influences it.
pub proof fn lemma_step_deterministic(a: Engine, b: Engine)
    requires
        same_views(a, b),
    ensures
        step_spec(a) == step_spec(b),
{
    let line = lines_view(a.lines@)[a.pc as int];
    assert(advance(a, Seq::empty()) == advance(b, Seq::empty()));
    assert(jump_to(a, line.drop_first()) == jump_to(b, line.drop_first()));
    let parts = split_on(line, seq![58u8]);
    if parts.len() == 2 || parts.len() == 3 {
        lemma_branch_deterministic(a, b, trim_spec(parts[1]));
        if parts.len() == 3 {
            lemma_branch_deterministic(a, b, trim_spec(parts[2]));
        }
    }
    assert(cond_spec(a, line) == cond_spec(b, line));
    assert(at_line_spec(a, line) == at_line_spec(b, line));
    assert(menu_spec(a) == menu_spec(b));
    assert(input_spec(a, line) == input_spec(b, line));
}

/// The same input line drives two engines presenting the same views alike:
/// waiting at a prompt hides no state either.
pub proof fn lemma_provide_deterministic(a: Engine, b: Engine, input: Seq<u8>)
    requires
        same_views(a, b),
        !(mode_view(a.mode) is Ready),
    ensures
        provide_spec(a, input) == provide_spec(b, input),
{
}

/// A goto line `#name` to a declared label resumes execution exactly at
/// the line index the label table holds for that label.
pub proof fn lemma_goto_exact(e: Engine, ix: usize)
    requires
        e.pc < e.lines@.len(),
        lines_view(e.lines@)[e.pc as int].len() > 0,
        lines_view(e.lines@)[e.pc as int][0] == 35,
        lookup(
            labels_view(e.labels@),
            lines_view(e.lines@)[e.pc as int].drop_first(),
        ) == Some(ix),
    ensures
        step_spec(e) is Ok,
        step_spec(e)->Ok_0.pc == ix,
{
}

/// A conditional whose chosen branch is a goto `#name` to a declared label
/// resumes execution exactly at that label's line index.
pub proof fn lemma_cond_goto_exact(e: Engine, ix: usize)
    requires
        e.pc < e.lines@.len(),
        lines_view(e.lines@)[e.pc as int].len() > 0,
        lines_view(e.lines@)[e.pc as int][0] == 33,
        split_on(lines_view(e.lines@)[e.pc as int], seq![58u8]).len() == 2 || split_on(
            lines_view(e.lines@)[e.pc as int],
            seq![58u8],
        ).len() == 3,
        cond_eval(
            vars_view(e.vars@),
            split_on(lines_view(e.lines@)[e.pc as int], seq![58u8])[0].drop_first(),
        ) == Ok::<bool, FatalKind>(true),
        trim_spec(split_on(lines_view(e.lines@)[e.pc as int], seq![58u8])[1]).len() > 0,
        trim_spec(split_on(lines_view(e.lines@)[e.pc as int], seq![58u8])[1])[0] == 35,
        lookup(
            labels_view(e.labels@),
            trim_spec(split_on(lines_view(e.lines@)[e.pc as int], seq![58u8])[1]).drop_first(),
        ) == Some(ix),
    ensures
        step_spec(e) is Ok,
        step_spec(e)->Ok_0.pc == ix,
{
}

/// The pre-scan resolves a label to the line where it was declared, the
/// last declaration winning.
pub proof fn lemma_label_declaration(lines: Seq<Seq<u8>>, n: int, name: Seq<u8>)
    requires
        0 <= n <= lines.len(),
        n <= usize::MAX,
    ensures
        match lookup(labels_of(lines, n), name) {
            Some(ix) => 0 <= ix < n && declares(lines[ix as int], name) && (forall|j: int|
                ix < j < n ==> !declares(#[trigger] lines[j], name)),
            None => forall|j: int| 0 <= j < n ==> !declares(#[trigger] lines[j], name),
        },
    decreases n,
{
    if n <= 0 {
    } else {
        lemma_label_declaration(lines, n - 1, name);
        let rest = labels_of(lines, n - 1);
        let l = lines[n - 1];
        if l.len() > 0 && l[0] == 58 {
            let entry = (l.drop_first(), (n - 1) as usize);
            assert(labels_of(lines, n) == rest.push(entry));
            assert(labels_of(lines, n).last() == entry);
            assert(labels_of(lines, n).drop_last() =~= rest);
            if l.drop_first() == name {
                assert(lookup(labels_of(lines, n), name) == Some((n - 1) as usize));
            } else {
                assert(lookup(labels_of(lines, n), name) == lookup(rest, name));
                assert(!declares(lines[n - 1], name));
            }
        } else {
            assert(!declares(lines[n - 1], name));
        }
    }
}

/// In an engine whose label table came from the pre-scan, a goto line
/// `#name` resumes exactly at the line that last declared `:name`, and is
/// the missing-label error precisely when no line declares it.
pub proof fn lemma_goto_resumes_at_declaration(e: Engine)
    requires
        labels_view(e.labels@) == labels_of(lines_view(e.lines@), e.lines@.len() as int),
        e.lines@.len() <= usize::MAX,
        e.pc < e.lines@.len(),
        lines_view(e.lines@)[e.pc as int].len() > 0,
        lines_view(e.lines@)[e.pc as int][0] == 35,
    ensures
        ({
            let lines = lines_view(e.lines@);
            let name = lines[e.pc as int].drop_first();
            match step_spec(e) {
                Ok(st) => 0 <= st.pc < lines.len() && declares(lines[st.pc], name) && (forall|
                    j: int,
                |
                    st.pc < j < lines.len() ==> !declares(#[trigger] lines[j], name)),
                Err(k) => k == FatalKind::MissingLabel && (forall|j: int|
                    0 <= j < lines.len() ==> !declares(#[trigger] lines[j], name)),
            }
        }),
{
    let lines = lines_view(e.lines@);
    let name = lines[e.pc as int].drop_first();
    lemma_label_declaration(lines, e.lines@.len() as int, name);
}

proof fn lemma_scan_empty(text: Seq<u8>, i: int)
    requires
        forall|k: int| 0 <= k < text.len() ==> text[k] != 64,
    ensures
        scan_from(text, i) == Seq::<Seq<u8>>::empty(),
    decreases text.len() - i,
{
    if i < 0 || i >= text.len() {
    } else {
        lemma_scan_empty(text, i + 1);
    }
}

/// Substitution is idempotent on text containing no `@` tokens: it leaves
/// such text exactly as it is, so substituting again changes nothing.
pub proof fn lemma_subst_no_tokens(vars: Seq<(Seq<u8>, Seq<u8>)>, text: Seq<u8>)
    requires
        forall|i: int| 0 <= i < text.len() ==> text[i] != 64,
    ensures
        substituted(vars, text) == Ok::<Seq<u8>, Seq<u8>>(text),
{
    lemma_scan_empty(text, 0);
    assert(dedup(scan_from(text, 0)) =~= Seq::<Seq<u8>>::empty());
    assert(subst_loop(vars, Seq::<Seq<u8>>::empty(), text, 0) == Ok::<Seq<u8>, Seq<u8>>(text));
}

} // verus!
