//! The execution engine: a program counter over the script lines, a label
//! table and a variable store filled by a pre-scan pass, and one dispatch
//! step per line selected by its leading sigil.
//!
//! Blocking console input is not done here: reaching a menu or input
//! directive puts the engine into a waiting mode, and the caller feeds it
//! the next input line through [`Engine::provide_line`].

use vstd::prelude::*;
use crate::text::{split_on, split_bytes, subvec, trim, trim_spec, strip_nl_spec, strip_newline, find_first, bytes_eq,
    parse_usize, parse_usize_spec, dec_of, dec_spec, has_alpha, contains_alpha};
use crate::store::{lookup, vars_view, labels_view, lookup_var, var_declared, set_var,
    lookup_label};
use crate::subst::{substituted, substitute};
use crate::eval::{NumOrder, Op, eval_of, cmp_of, eval_text, compare_numeric, find_op,
    find_operator, op_pat};
use vstd::string::StrSliceExecFns;
use vstd::string::StringSliceAdditionalSpecFns;

verus! {

/// Kind of a fatal condition; each aborts the run.
#[derive(PartialEq, Eq, Structural, Clone, Copy, Debug)]
pub enum FatalKind {
    /// A directive did not split into the expected number of parts.
    MalformedDirective,
    /// A variable was referenced without a prior top-level declaration.
    UndeclaredVariable,
    /// A goto, branch or menu target is missing from the label table.
    MissingLabel,
    /// An ordering comparison was applied to a non-numeric operand.
    NonNumericOrdering,
}

/// A fatal condition, with the line index it arose on.
#[derive(PartialEq, Eq, Structural, Clone, Copy, Debug)]
pub struct Fatal {
    pub line: usize,
    pub kind: FatalKind,
}

/// What the engine is waiting for, if anything.
pub enum Mode {
    /// Ready to interpret the line at the program counter.
    Ready,
    /// Waiting for a menu choice among `targets`.
    MenuWait { targets: Vec<Vec<u8>> },
    /// Waiting for one line of input to store in the variable `var`.
    InputWait { var: Vec<u8>, numeric: bool, prompt: Vec<u8> },
}

/// Model of [`Mode`].
pub ghost enum ModeV {
    Ready,
    MenuWait { targets: Seq<Seq<u8>> },
    InputWait { var: Seq<u8>, numeric: bool, prompt: Seq<u8> },
}

pub open spec fn mode_view(m: Mode) -> ModeV {
    match m {
        Mode::Ready => ModeV::Ready,
        Mode::MenuWait { targets } => ModeV::MenuWait {
            targets: targets@.map_values(|t: Vec<u8>| t@),
        },
        Mode::InputWait { var, numeric, prompt } => ModeV::InputWait {
            var: var@,
            numeric,
            prompt: prompt@,
        },
    }
}

/// Model of the engine after one transition: the new program counter,
/// variable store and mode, and the output lines the transition emitted.
pub ghost struct State {
    pub pc: int,
    pub vars: Seq<(Seq<u8>, Seq<u8>)>,
    pub mode: ModeV,
    pub out: Seq<Seq<u8>>,
}

pub open spec fn lines_view(v: Seq<Vec<u8>>) -> Seq<Seq<u8>> {
    v.map_values(|l: Vec<u8>| l@)
}

/// The interpreter state: script lines, label table, variable store,
/// program counter and waiting mode.
pub struct Engine {
    pub lines: Vec<Vec<u8>>,
    pub labels: Vec<(Vec<u8>, usize)>,
    pub vars: Vec<(Vec<u8>, Vec<u8>)>,
    pub pc: usize,
    pub mode: Mode,
}

/// Labels declared by the first `n` lines: each line `:name` binds `name`
/// to its own index, a later declaration shadowing an earlier one.
pub open spec fn labels_of(lines: Seq<Seq<u8>>, n: int) -> Seq<(Seq<u8>, usize)>
    decreases n,
{
    if n <= 0 {
        Seq::empty()
    } else {
        let rest = labels_of(lines, n - 1);
        let l = lines[n - 1];
        if l.len() > 0 && l[0] == 58 {
            rest.push((l.drop_first(), (n - 1) as usize))
        } else {
            rest
        }
    }
}

/// Variables declared by the first `n` lines: each line `@name=...` that
/// splits into exactly two parts on `=` binds `name` to the literal text
/// `0`; a line that does not split so is silently skipped.
pub open spec fn decls_of(lines: Seq<Seq<u8>>, n: int) -> Seq<(Seq<u8>, Seq<u8>)>
    decreases n,
{
    if n <= 0 {
        Seq::empty()
    } else {
        let rest = decls_of(lines, n - 1);
        let l = lines[n - 1];
        if l.len() > 0 && l[0] == 64 && split_on(l, seq![61u8]).len() == 2 {
            rest.push((split_on(l, seq![61u8])[0].drop_first(), seq![48u8]))
        } else {
            rest
        }
    }
}

/// Every label of the pre-scan names a line of the script.
pub proof fn lemma_labels_of_bounds(lines: Seq<Seq<u8>>, n: int)
    requires
        n <= lines.len(),
    ensures
        forall|i: int|
            0 <= i < labels_of(lines, n).len() ==> (#[trigger] labels_of(lines, n)[i]).1
                < lines.len(),
    decreases n,
{
    if n <= 0 {
    } else {
        lemma_labels_of_bounds(lines, n - 1);
        let l = lines[n - 1];
        if l.len() > 0 && l[0] == 58 {
            assert forall|i: int| 0 <= i < labels_of(lines, n).len() implies (#[trigger] labels_of(
                lines,
                n,
            )[i]).1 < lines.len() by {
                if i < labels_of(lines, n - 1).len() {
                    assert(labels_of(lines, n)[i] == labels_of(lines, n - 1)[i]);
                } else {
                    assert(labels_of(lines, n)[i] == (l.drop_first(), (n - 1) as usize));
                }
            }
        }
    }
}

/// A label looked up among values below `n` is below `n`.
pub proof fn lemma_lookup_label_bound(labels: Seq<(Seq<u8>, usize)>, name: Seq<u8>, n: int)
    requires
        forall|i: int| 0 <= i < labels.len() ==> (#[trigger] labels[i]).1 < n,
    ensures
        match lookup(labels, name) {
            Some(ix) => ix < n,
            None => true,
        },
    decreases labels.len(),
{
    if labels.len() == 0 {
    } else if labels.last().0 == name {
    } else {
        assert(forall|i: int|
            0 <= i < labels.drop_last().len() ==> (#[trigger] labels.drop_last()[i]).1 < n);
        lemma_lookup_label_bound(labels.drop_last(), name, n);
    }
}

impl Engine {
    /// The label table holds only line indices of the script.
    pub open spec fn labels_ok(self) -> bool {
        forall|i: int|
            0 <= i < labels_view(self.labels@).len() ==> (#[trigger] labels_view(
                self.labels@,
            )[i]).1 < self.lines@.len()
    }

    /// Well-formedness: the program counter stays within the script, jumps
    /// can only land on script lines, a menu wait has at least one choice,
    /// and an input wait stands on a script line.
    pub open spec fn wf(self) -> bool {
        &&& self.pc <= self.lines@.len()
        &&& self.labels_ok()
        &&& (mode_view(self.mode) matches ModeV::MenuWait { targets } ==> targets.len() >= 1)
        &&& (mode_view(self.mode) is InputWait ==> self.pc < self.lines@.len())
    }

    /// Build an engine from script lines: the pre-scan pass collects the
    /// label table and the variable declarations, and execution starts at
    /// line 0.
    pub fn new(lines: Vec<Vec<u8>>) -> (r: Engine)
        ensures
            lines_view(r.lines@) == lines_view(lines@),
            labels_view(r.labels@) == labels_of(lines_view(lines@), lines@.len() as int),
            vars_view(r.vars@) == decls_of(lines_view(lines@), lines@.len() as int),
            r.pc == 0,
            mode_view(r.mode) is Ready,
            r.wf(),
    {
        let ghost lv = lines_view(lines@);
        let mut labels: Vec<(Vec<u8>, usize)> = Vec::new();
        let mut vars: Vec<(Vec<u8>, Vec<u8>)> = Vec::new();
        let mut i: usize = 0;
        proof {
            assert(labels_view(labels@) =~= labels_of(lv, 0));
            assert(vars_view(vars@) =~= decls_of(lv, 0));
        }
        while i < lines.len()
            invariant
                i <= lines.len(),
                lv == lines_view(lines@),
                labels_view(labels@) == labels_of(lv, i as int),
                vars_view(vars@) == decls_of(lv, i as int),
            decreases lines.len() - i,
        {
            let line = &lines[i];
            proof {
                assert(lv[i as int] == line@);
            }
            if line.len() > 0 && line[0] == 58 {
                let name = subvec(line, 1, line.len());
                let ghost pre = labels_view(labels@);
                labels.push((name, i));
                proof {
                    assert(name@ =~= lv[i as int].drop_first());
                    assert(labels_view(labels@) =~= pre.push((lv[i as int].drop_first(), i)));
                }
            } else if line.len() > 0 && line[0] == 64 {
                let mut eq_pat: Vec<u8> = Vec::new();
                eq_pat.push(61);
                proof {
                    assert(eq_pat@ =~= seq![61u8]);
                }
                let parts = split_bytes(line, &eq_pat);
                proof {
                    assert(parts@.map_values(|v: Vec<u8>| v@).len() == parts@.len());
                }
                if parts.len() == 2 {
                    proof {
                        assert(parts@.map_values(|v: Vec<u8>| v@)[0] == parts@[0]@);
                        crate::text::lemma_find_first_bounds(line@, seq![61u8], 0);
                        assert(split_on(line@, seq![61u8])[0] == parts@[0]@);
                        let j = find_first(line@, seq![61u8], 0)->0;
                        assert(line@.subrange(j, j + 1)[0] == line@[j]);
                        assert(line@[0] == 64);
                        assert(j >= 1);
                        assert(parts@[0]@ == line@.subrange(0, j));
                        assert(parts@[0]@.len() >= 1);
                    }
                    let name = subvec(&parts[0], 1, parts[0].len());
                    let mut zero: Vec<u8> = Vec::new();
                    zero.push(48);
                    let ghost pre = vars_view(vars@);
                    proof {
                        assert(name@ =~= split_on(lv[i as int], seq![61u8])[0].drop_first());
                        assert(zero@ =~= seq![48u8]);
                    }
                    vars.push((name, zero));
                    proof {
                        assert(vars_view(vars@) =~= pre.push(
                            (split_on(lv[i as int], seq![61u8])[0].drop_first(), seq![48u8]),
                        ));
                    }
                }
            }
            i = i + 1;
        }
        let r = Engine { lines, labels, vars, pc: 0, mode: Mode::Ready };
        proof {
            lemma_labels_of_bounds(lv, lv.len() as int);
        }
        r
    }
}

/// Truth of `l op r`: numeric when both operands evaluate, otherwise string
/// equality for `==` and `!=`, and an error for an ordering operator.
pub open spec fn cond_value(l: Seq<u8>, op: Op, r: Seq<u8>) -> Result<bool, FatalKind> {
    match cmp_of(l, r) {
        NumOrder::NonNumeric => match op {
            Op::Eq => Ok(l == r),
            Op::Ne => Ok(l != r),
            _ => Err(FatalKind::NonNumericOrdering),
        },
        c => Ok(
            match op {
                Op::Eq => c is Equal,
                Op::Ne => !(c is Equal),
                Op::Le => c is Less || c is Equal,
                Op::Ge => c is Greater || c is Equal,
                Op::Lt => c is Less,
                Op::Gt => c is Greater,
            },
        ),
    }
}

/// A condition's truth: substitute variables, split on the first comparison
/// operator into exactly two operands, then compare.
pub open spec fn cond_eval(vars: Seq<(Seq<u8>, Seq<u8>)>, cond: Seq<u8>) -> Result<
    bool,
    FatalKind,
> {
    match substituted(vars, cond) {
        Err(_) => Err(FatalKind::UndeclaredVariable),
        Ok(t) => match find_op(t, 0) {
            None => Err(FatalKind::MalformedDirective),
            Some(p) => {
                let parts = split_on(t, op_pat(p.1));
                if parts.len() != 2 {
                    Err(FatalKind::MalformedDirective)
                } else {
                    cond_value(parts[0], p.1, parts[1])
                }
            },
        },
    }
}

/// Fall through to the next line, emitting `out`.
pub open spec fn advance(e: Engine, out: Seq<Seq<u8>>) -> State {
    State { pc: e.pc + 1, vars: vars_view(e.vars@), mode: ModeV::Ready, out }
}

/// Jump to the label named `name`.
pub open spec fn jump_to(e: Engine, name: Seq<u8>) -> Result<State, FatalKind> {
    match lookup(labels_view(e.labels@), name) {
        None => Err(FatalKind::MissingLabel),
        Some(ix) => Ok(
            State {
                pc: ix as int,
                vars: vars_view(e.vars@),
                mode: ModeV::Ready,
                out: Seq::empty(),
            },
        ),
    }
}

/// Value assigned from a right-hand side: substitute, then the numeric
/// result if the text evaluates, else the substituted text itself.
pub open spec fn assign_value(vars: Seq<(Seq<u8>, Seq<u8>)>, rhs: Seq<u8>) -> Result<
    Seq<u8>,
    FatalKind,
> {
    match substituted(vars, rhs) {
        Err(_) => Err(FatalKind::UndeclaredVariable),
        Ok(p) => Ok(
            match eval_of(p) {
                Some(n) => n,
                None => p,
            },
        ),
    }
}

/// Execute a conditional's branch text: a goto for `#`, an assignment to an
/// already declared variable for `@`, otherwise print the text verbatim.
pub open spec fn branch_spec(e: Engine, exp: Seq<u8>) -> Result<State, FatalKind> {
    let vars = vars_view(e.vars@);
    if exp.len() > 0 && exp[0] == 35 {
        jump_to(e, exp.drop_first())
    } else if exp.len() > 0 && exp[0] == 64 {
        let parts = split_on(exp, seq![61u8]);
        if parts.len() != 2 {
            Err(FatalKind::MalformedDirective)
        } else {
            let name = parts[0].drop_first();
            if lookup(vars, name) is None {
                Err(FatalKind::UndeclaredVariable)
            } else {
                match assign_value(vars, parts[1]) {
                    Err(k) => Err(k),
                    Ok(v) => Ok(
                        State {
                            pc: e.pc + 1,
                            vars: vars.push((name, v)),
                            mode: ModeV::Ready,
                            out: Seq::empty(),
                        },
                    ),
                }
            }
        }
    } else {
        Ok(advance(e, seq![exp]))
    }
}

/// A conditional line `!cond:then[:else]`: split on `:` into two or three
/// parts, evaluate the condition, then run the chosen branch trimmed, or
/// fall through on a false two-part form.
pub open spec fn cond_spec(e: Engine, line: Seq<u8>) -> Result<State, FatalKind> {
    let parts = split_on(line, seq![58u8]);
    if !(parts.len() == 2 || parts.len() == 3) {
        Err(FatalKind::MalformedDirective)
    } else {
        match cond_eval(vars_view(e.vars@), parts[0].drop_first()) {
            Err(k) => Err(k),
            Ok(b) => if b {
                branch_spec(e, trim_spec(parts[1]))
            } else if parts.len() == 3 {
                branch_spec(e, trim_spec(parts[2]))
            } else {
                Ok(advance(e, Seq::empty()))
            },
        }
    }
}

/// An `@` line: an assignment when it splits into exactly two parts on `=`,
/// else text to substitute and print.
pub open spec fn at_line_spec(e: Engine, line: Seq<u8>) -> Result<State, FatalKind> {
    let vars = vars_view(e.vars@);
    let parts = split_on(line, seq![61u8]);
    if parts.len() == 2 {
        let name = parts[0].drop_first();
        match assign_value(vars, parts[1]) {
            Err(k) => Err(k),
            Ok(v) => if lookup(vars, name) is None {
                Err(FatalKind::UndeclaredVariable)
            } else {
                Ok(
                    State {
                        pc: e.pc + 1,
                        vars: vars.push((name, v)),
                        mode: ModeV::Ready,
                        out: Seq::empty(),
                    },
                )
            },
        }
    } else {
        match substituted(vars, line) {
            Err(_) => Err(FatalKind::UndeclaredVariable),
            Ok(t) => Ok(advance(e, seq![t])),
        }
    }
}

/// First index at or after `i` whose line does not begin with `?`.
pub open spec fn menu_end(lines: Seq<Seq<u8>>, i: int) -> int
    decreases lines.len() - i,
{
    if i < 0 || i >= lines.len() {
        i
    } else if lines[i].len() > 0 && lines[i][0] == 63 {
        menu_end(lines, i + 1)
    } else {
        i
    }
}

pub proof fn lemma_menu_end_bounds(lines: Seq<Seq<u8>>, i: int)
    requires
        0 <= i <= lines.len(),
    ensures
        i <= menu_end(lines, i) <= lines.len(),
    decreases lines.len() - i,
{
    if i < lines.len() && lines[i].len() > 0 && lines[i][0] == 63 {
        lemma_menu_end_bounds(lines, i + 1);
    }
}

/// `s` with its leading `#` characters stripped.
pub open spec fn strip_hashes(s: Seq<u8>) -> Seq<u8>
    decreases s.len(),
{
    if s.len() > 0 && s[0] == 35 {
        strip_hashes(s.drop_first())
    } else {
        s
    }
}

/// Prompts and targets of the menu lines `[i, end)`, the first having
/// ordinal `ord`: each line `?prompt:target` yields the output line
/// `<ordinal>. <prompt>` and its target with leading `#` stripped; a line
/// that does not split into exactly two parts on `:` is the error.
pub open spec fn menu_items(lines: Seq<Seq<u8>>, i: int, end: int, ord: int) -> Result<
    (Seq<Seq<u8>>, Seq<Seq<u8>>),
    (),
>
    decreases end - i,
{
    if i >= end {
        Ok((Seq::empty(), Seq::empty()))
    } else {
        let parts = split_on(lines[i], seq![58u8]);
        if parts.len() != 2 {
            Err(())
        } else {
            match menu_items(lines, i + 1, end, ord + 1) {
                Err(e) => Err(e),
                Ok(p) => Ok(
                    (
                        seq![dec_spec(ord as nat) + seq![46u8, 32u8] + parts[0].drop_first()]
                            + p.0,
                        seq![strip_hashes(parts[1])] + p.1,
                    ),
                ),
            }
        }
    }
}

/// A menu block: consume the run of `?` lines, emit the numbered prompts,
/// and wait for a choice among the targets.
pub open spec fn menu_spec(e: Engine) -> Result<State, FatalKind> {
    let lines = lines_view(e.lines@);
    let end = menu_end(lines, e.pc as int);
    match menu_items(lines, e.pc as int, end, 1) {
        Err(_) => Err(FatalKind::MalformedDirective),
        Ok(p) => Ok(
            State {
                pc: end,
                vars: vars_view(e.vars@),
                mode: ModeV::MenuWait { targets: p.1 },
                out: p.0,
            },
        ),
    }
}

/// An input line `^<mode><prompt>:@<var>`: the target variable must be
/// declared, the mode must be `i` (numeric) or `s` (free text); the engine
/// prints a blank line and the prompt and waits for input.
pub open spec fn input_spec(e: Engine, line: Seq<u8>) -> Result<State, FatalKind> {
    let vars = vars_view(e.vars@);
    let parts = split_on(line, seq![58u8]);
    if parts.len() != 2 {
        Err(FatalKind::MalformedDirective)
    } else {
        let left = parts[0];
        let tgt = parts[1];
        let name = if tgt.len() > 0 {
            tgt.drop_first()
        } else {
            tgt
        };
        if lookup(vars, name) is None {
            Err(FatalKind::UndeclaredVariable)
        } else if left.len() < 2 {
            Err(FatalKind::MalformedDirective)
        } else if left[1] == 105 || left[1] == 115 {
            Ok(
                State {
                    pc: e.pc as int,
                    vars,
                    mode: ModeV::InputWait {
                        var: name,
                        numeric: left[1] == 105,
                        prompt: left.skip(2),
                    },
                    out: seq![Seq::empty(), left.skip(2)],
                },
            )
        } else {
            Err(FatalKind::MalformedDirective)
        }
    }
}

/// Lines of a menu run all begin with `?`.
pub proof fn lemma_menu_run(lines: Seq<Seq<u8>>, i: int, j: int)
    requires
        0 <= i <= j,
        j < menu_end(lines, i),
    ensures
        lines[j].len() > 0 && lines[j][0] == 63,
    decreases j - i,
{
    if i < lines.len() && lines[i].len() > 0 && lines[i][0] == 63 {
        if j > i {
            lemma_menu_run(lines, i + 1, j);
        }
    }
}

/// When a line beginning with a byte other than `c` splits on `c` into two
/// or more parts, the first part starts with that same byte.
pub proof fn lemma_split_head(line: Seq<u8>, c: u8)
    requires
        line.len() > 0,
        line[0] != c,
        split_on(line, seq![c]).len() >= 2,
    ensures
        split_on(line, seq![c])[0].len() >= 1,
        split_on(line, seq![c])[0][0] == line[0],
{
    crate::text::lemma_find_first_bounds(line, seq![c], 0);
    if find_first(line, seq![c], 0) is None {
        assert(split_on(line, seq![c]) =~= seq![line]);
        assert(false);
    }
    let j = find_first(line, seq![c], 0)->0;
    assert(line.subrange(j, j + 1)[0] == line[j]);
    assert(line[j] == c);
    assert(j >= 1);
    assert(split_on(line, seq![c])[0] == line.subrange(0, j));
    assert(line.subrange(0, j)[0] == line[0]);
}

/// One dispatch step on the line at the program counter, selected by its
/// leading sigil: blank, `\n`, `\r`, `:` and `*` fall through; `|` emits a
/// blank output line; `#` is a goto; `!` a conditional; `@` an assignment
/// or variable-bearing text; `?` a menu block; `^` an input request; any
/// other line is substituted and printed.
pub open spec fn step_spec(e: Engine) -> Result<State, FatalKind>
    recommends
        e.pc < e.lines@.len(),
{
    let line = lines_view(e.lines@)[e.pc as int];
    if line.len() == 0 || line[0] == 10 || line[0] == 13 || line[0] == 58 || line[0] == 42 {
        Ok(advance(e, Seq::empty()))
    } else if line[0] == 124 {
        Ok(advance(e, seq![Seq::<u8>::empty()]))
    } else if line[0] == 35 {
        jump_to(e, line.drop_first())
    } else if line[0] == 33 {
        cond_spec(e, line)
    } else if line[0] == 64 {
        at_line_spec(e, line)
    } else if line[0] == 63 {
        menu_spec(e)
    } else if line[0] == 94 {
        input_spec(e, line)
    } else {
        match substituted(vars_view(e.vars@), line) {
            Err(_) => Err(FatalKind::UndeclaredVariable),
            Ok(t) => Ok(advance(e, seq![t])),
        }
    }
}

/// Guidance printed for an invalid menu choice.
pub open spec fn menu_guidance(q: nat) -> Seq<u8> {
    "You must enter a number between 1 and ".spec_bytes() + dec_spec(q)
}

/// Guidance printed for a menu choice that holds a letter.
pub open spec fn menu_guidance_alpha(q: nat) -> Seq<u8> {
    "You must enter a NUMBER between 1 and ".spec_bytes() + dec_spec(q)
}

/// Guidance printed when a numeric input request receives a letter.
pub open spec fn input_reject_msg() -> Seq<u8> {
    "You may only enter in a Number. Please try again.".spec_bytes()
}

/// One line of user input handed to a waiting engine, its trailing newline
/// stripped. An invalid menu choice (a letter, no number, out of range) or
/// a letter at a numeric input request re-prompts and leaves the engine
/// waiting; a valid menu choice jumps to the chosen target's label; any
/// other input line becomes the target variable's value verbatim.
pub open spec fn provide_spec(e: Engine, input: Seq<u8>) -> Result<State, FatalKind> {
    let vars = vars_view(e.vars@);
    let t = strip_nl_spec(input);
    match mode_view(e.mode) {
        ModeV::Ready => arbitrary(),
        ModeV::MenuWait { targets } => {
            let q = targets.len();
            if has_alpha(t) {
                Ok(
                    State {
                        pc: e.pc as int,
                        vars,
                        mode: ModeV::MenuWait { targets },
                        out: seq![menu_guidance_alpha(q)],
                    },
                )
            } else {
                match parse_usize_spec(t) {
                    None => Ok(
                        State {
                            pc: e.pc as int,
                            vars,
                            mode: ModeV::MenuWait { targets },
                            out: seq![menu_guidance(q)],
                        },
                    ),
                    Some(nn) => if nn < 1 || nn > q {
                        Ok(
                            State {
                                pc: e.pc as int,
                                vars,
                                mode: ModeV::MenuWait { targets },
                                out: seq![menu_guidance(q)],
                            },
                        )
                    } else {
                        match lookup(labels_view(e.labels@), targets[nn - 1]) {
                            None => Err(FatalKind::MissingLabel),
                            Some(ix) => Ok(
                                State {
                                    pc: ix as int,
                                    vars,
                                    mode: ModeV::Ready,
                                    out: Seq::empty(),
                                },
                            ),
                        }
                    },
                }
            }
        },
        ModeV::InputWait { var, numeric, prompt } => {
            if numeric && has_alpha(t) {
                Ok(
                    State {
                        pc: e.pc as int,
                        vars,
                        mode: ModeV::InputWait { var, numeric, prompt },
                        out: seq![input_reject_msg(), Seq::<u8>::empty(), prompt],
                    },
                )
            } else {
                Ok(
                    State {
                        pc: e.pc + 1,
                        vars: vars.push((var, t)),
                        mode: ModeV::Ready,
                        out: Seq::empty(),
                    },
                )
            }
        },
    }
}

fn guidance_exec(q: usize, alpha: bool) -> (r: Vec<u8>)
    ensures
        r@ == if alpha {
            menu_guidance_alpha(q as nat)
        } else {
            menu_guidance(q as nat)
        },
{
    let mut m = if alpha {
        "You must enter a NUMBER between 1 and ".as_bytes_vec()
    } else {
        "You must enter a number between 1 and ".as_bytes_vec()
    };
    let mut d = dec_of(q);
    m.append(&mut d);
    m
}

fn byte_vec(b: u8) -> (r: Vec<u8>)
    ensures
        r@ == seq![b],
        r.len() == 1,
{
    let mut v: Vec<u8> = Vec::new();
    v.push(b);
    proof {
        assert(v@ =~= seq![b]);
    }
    v
}

fn op_bytes(o: Op) -> (r: Vec<u8>)
    ensures
        r@ == op_pat(o),
        r.len() >= 1,
{
    let mut v: Vec<u8> = Vec::new();
    match o {
        Op::Ne => {
            v.push(33);
            v.push(61);
        },
        Op::Eq => {
            v.push(61);
            v.push(61);
        },
        Op::Le => {
            v.push(60);
            v.push(61);
        },
        Op::Ge => {
            v.push(62);
            v.push(61);
        },
        Op::Lt => {
            v.push(60);
        },
        Op::Gt => {
            v.push(62);
        },
    }
    proof {
        assert(v@ =~= op_pat(o));
    }
    v
}

/// `v` with its leading `#` bytes removed.
pub fn strip_hashes_exec(v: &Vec<u8>) -> (r: Vec<u8>)
    ensures
        r@ == strip_hashes(v@),
{
    proof {
        assert(v@.subrange(0, v@.len() as int) =~= v@);
    }
    let mut lo: usize = 0;
    while lo < v.len() && v[lo] == 35
        invariant
            lo <= v.len(),
            strip_hashes(v@) == strip_hashes(v@.subrange(lo as int, v@.len() as int)),
        decreases v.len() - lo,
    {
        proof {
            assert(v@.subrange(lo as int, v@.len() as int).drop_first() =~= v@.subrange(
                lo + 1,
                v@.len() as int,
            ));
        }
        lo = lo + 1;
    }
    let r = subvec(v, lo, v.len());
    proof {
        assert(strip_hashes(v@.subrange(lo as int, v@.len() as int)) == v@.subrange(
            lo as int,
            v@.len() as int,
        ));
    }
    r
}

/// Compute the value an assignment's right-hand side denotes.
fn eval_assign(vars: &Vec<(Vec<u8>, Vec<u8>)>, rhs: &Vec<u8>) -> (r: Result<Vec<u8>, FatalKind>)
    ensures
        match r {
            Ok(v) => assign_value(vars_view(vars@), rhs@) == Ok::<Seq<u8>, FatalKind>(v@),
            Err(k) => assign_value(vars_view(vars@), rhs@) == Err::<Seq<u8>, FatalKind>(k),
        },
{
    match substitute(vars, rhs) {
        Err(_) => Err(FatalKind::UndeclaredVariable),
        Ok(p) => match eval_text(&p) {
            Some(n) => Ok(n),
            None => Ok(p),
        },
    }
}

/// Evaluate a conditional's condition text.
fn eval_cond_exec(vars: &Vec<(Vec<u8>, Vec<u8>)>, cond: &Vec<u8>) -> (r: Result<bool, FatalKind>)
    ensures
        match r {
            Ok(b) => cond_eval(vars_view(vars@), cond@) == Ok::<bool, FatalKind>(b),
            Err(k) => cond_eval(vars_view(vars@), cond@) == Err::<bool, FatalKind>(k),
        },
{
    let sub = match substitute(vars, cond) {
        Err(_) => {
            return Err(FatalKind::UndeclaredVariable);
        },
        Ok(t) => t,
    };
    let op = match find_operator(&sub) {
        None => {
            return Err(FatalKind::MalformedDirective);
        },
        Some(p) => p.1,
    };
    let pat = op_bytes(op);
    let parts = split_bytes(&sub, &pat);
    let ghost pm = parts@.map_values(|v: Vec<u8>| v@);
    proof {
        assert(pm.len() == parts@.len());
    }
    if parts.len() != 2 {
        return Err(FatalKind::MalformedDirective);
    }
    proof {
        assert(pm[0] == parts@[0]@);
        assert(pm[1] == parts@[1]@);
    }
    let c = compare_numeric(&parts[0], &parts[1]);
    match c {
        NumOrder::NonNumeric => match op {
            Op::Eq => Ok(bytes_eq(&parts[0], &parts[1])),
            Op::Ne => Ok(!bytes_eq(&parts[0], &parts[1])),
            _ => Err(FatalKind::NonNumericOrdering),
        },
        NumOrder::Less => match op {
            Op::Eq => Ok(false),
            Op::Ne => Ok(true),
            Op::Le => Ok(true),
            Op::Ge => Ok(false),
            Op::Lt => Ok(true),
            Op::Gt => Ok(false),
        },
        NumOrder::Equal => match op {
            Op::Eq => Ok(true),
            Op::Ne => Ok(false),
            Op::Le => Ok(true),
            Op::Ge => Ok(true),
            Op::Lt => Ok(false),
            Op::Gt => Ok(false),
        },
        NumOrder::Greater => match op {
            Op::Eq => Ok(false),
            Op::Ne => Ok(true),
            Op::Le => Ok(false),
            Op::Ge => Ok(true),
            Op::Lt => Ok(false),
            Op::Gt => Ok(true),
        },
        NumOrder::Unordered => match op {
            Op::Eq => Ok(false),
            Op::Ne => Ok(true),
            Op::Le => Ok(false),
            Op::Ge => Ok(false),
            Op::Lt => Ok(false),
            Op::Gt => Ok(false),
        },
    }
}

impl Engine {
    /// Execute a conditional's chosen branch text.
    fn do_branch(&mut self, exp: Vec<u8>) -> (r: Result<Vec<Vec<u8>>, Fatal>)
        requires
            old(self).wf(),
            mode_view(old(self).mode) is Ready,
            old(self).pc < old(self).lines@.len(),
        ensures
            final(self).wf(),
            lines_view(final(self).lines@) == lines_view(old(self).lines@),
            labels_view(final(self).labels@) == labels_view(old(self).labels@),
            match branch_spec(*old(self), exp@) {
                Ok(st) => r is Ok && lines_view(r->Ok_0@) == st.out && final(self).pc == st.pc
                    && vars_view(final(self).vars@) == st.vars && mode_view(final(self).mode)
                    == st.mode,
                Err(k) => r is Err && r->Err_0 == (Fatal { line: old(self).pc, kind: k }) && final(self).pc == old(self).pc && vars_view(final(self).vars@) == vars_view(
                    old(self).vars@,
                ) && mode_view(final(self).mode) == mode_view(old(self).mode),
            },
    {
        let pc = self.pc;
        let n = self.lines.len();
        if exp.len() > 0 && exp[0] == 35 {
            let name = subvec(&exp, 1, exp.len());
            proof {
                assert(name@ =~= exp@.drop_first());
            }
            match lookup_label(&self.labels, &name) {
                Some(ix) => {
                    proof {
                        lemma_lookup_label_bound(
                            labels_view(self.labels@),
                            name@,
                            self.lines@.len() as int,
                        );
                    }
                    self.pc = ix;
                    let outs: Vec<Vec<u8>> = Vec::new();
                    proof {
                        assert(lines_view(outs@) =~= Seq::<Seq<u8>>::empty());
                    }
                    Ok(outs)
                },
                None => Err(Fatal { line: pc, kind: FatalKind::MissingLabel }),
            }
        } else if exp.len() > 0 && exp[0] == 64 {
            let eq = byte_vec(61);
            let parts = split_bytes(&exp, &eq);
            let ghost pm = parts@.map_values(|v: Vec<u8>| v@);
            proof {
                assert(pm.len() == parts@.len());
            }
            if parts.len() != 2 {
                return Err(Fatal { line: pc, kind: FatalKind::MalformedDirective });
            }
            proof {
                lemma_split_head(exp@, 61);
                assert(pm[0] == parts@[0]@);
                assert(pm[1] == parts@[1]@);
            }
            let name = subvec(&parts[0], 1, parts[0].len());
            proof {
                assert(name@ =~= pm[0].drop_first());
            }
            if !var_declared(&self.vars, &name) {
                return Err(Fatal { line: pc, kind: FatalKind::UndeclaredVariable });
            }
            match eval_assign(&self.vars, &parts[1]) {
                Err(k) => Err(Fatal { line: pc, kind: k }),
                Ok(v) => {
                    set_var(&mut self.vars, name, v);
                    self.pc = pc + 1;
                    let outs: Vec<Vec<u8>> = Vec::new();
                    proof {
                        assert(lines_view(outs@) =~= Seq::<Seq<u8>>::empty());
                    }
                    Ok(outs)
                },
            }
        } else {
            self.pc = pc + 1;
            let ghost ev = exp@;
            let mut outs: Vec<Vec<u8>> = Vec::new();
            outs.push(exp);
            proof {
                assert(lines_view(outs@) =~= seq![ev]);
            }
            Ok(outs)
        }
    }

    /// Consume a run of `?` lines, emit the numbered prompts, and wait for
    /// a menu choice.
    fn do_menu(&mut self) -> (r: Result<Vec<Vec<u8>>, Fatal>)
        requires
            old(self).wf(),
            mode_view(old(self).mode) is Ready,
            old(self).pc < old(self).lines@.len(),
            lines_view(old(self).lines@)[old(self).pc as int].len() > 0,
            lines_view(old(self).lines@)[old(self).pc as int][0] == 63,
        ensures
            final(self).wf(),
            lines_view(final(self).lines@) == lines_view(old(self).lines@),
            labels_view(final(self).labels@) == labels_view(old(self).labels@),
            match menu_spec(*old(self)) {
                Ok(st) => r is Ok && lines_view(r->Ok_0@) == st.out && final(self).pc == st.pc
                    && vars_view(final(self).vars@) == st.vars && mode_view(final(self).mode)
                    == st.mode,
                Err(k) => r is Err && r->Err_0 == (Fatal { line: old(self).pc, kind: k }) && final(self).pc == old(self).pc && vars_view(final(self).vars@) == vars_view(
                    old(self).vars@,
                ) && mode_view(final(self).mode) == mode_view(old(self).mode),
            },
    {
        let ghost e0 = *old(self);
        let ghost lv = lines_view(e0.lines@);
        let pc = self.pc;
        let n = self.lines.len();
        let mut end: usize = pc;
        while end < n && self.lines[end].len() > 0 && self.lines[end][0] == 63
            invariant
                *self == e0,
                e0 == *old(self),
                e0.wf(),
                mode_view(e0.mode) is Ready,
                pc == e0.pc,
                n == e0.lines@.len(),
                lv == lines_view(e0.lines@),
                pc <= end <= n,
                menu_end(lv, pc as int) == menu_end(lv, end as int),
            decreases n - end,
        {
            proof {
                assert(lv[end as int] == e0.lines@[end as int]@);
                assert(menu_end(lv, end as int) == menu_end(lv, end + 1));
            }
            end = end + 1;
        }
        proof {
            assert(lv[pc as int].len() > 0 && lv[pc as int][0] == 63);
            if end < n {
                assert(lv[end as int] == e0.lines@[end as int]@);
            }
            assert(menu_end(lv, end as int) == end as int);
            assert(menu_end(lv, pc as int) == end as int);
            lemma_menu_end_bounds(lv, pc as int + 1);
            assert(end > pc);
        }
        let colon = byte_vec(58);
        let mut outs: Vec<Vec<u8>> = Vec::new();
        let mut tgts: Vec<Vec<u8>> = Vec::new();
        let mut j: usize = pc;
        proof {
            assert(lines_view(outs@) =~= Seq::<Seq<u8>>::empty());
            assert(lines_view(tgts@) =~= Seq::<Seq<u8>>::empty());
        }
        while j < end
            invariant
                *self == e0,
                e0 == *old(self),
                e0.wf(),
                mode_view(e0.mode) is Ready,
                pc == e0.pc,
                lv == lines_view(e0.lines@),
                colon@ == seq![58u8],
                colon.len() == 1,
                pc <= j <= end <= lv.len(),
                pc < end,
                menu_end(lv, pc as int) == end as int,
                outs.len() == j - pc,
                tgts.len() == j - pc,
                ({
                    let whole = menu_items(lv, pc as int, end as int, 1);
                    let rest = menu_items(lv, j as int, end as int, j - pc + 1);
                    match rest {
                        Err(ee) => whole == Err::<(Seq<Seq<u8>>, Seq<Seq<u8>>), ()>(ee),
                        Ok(p) => whole == Ok::<(Seq<Seq<u8>>, Seq<Seq<u8>>), ()>(
                            (lines_view(outs@) + p.0, lines_view(tgts@) + p.1),
                        ),
                    }
                }),
            decreases end - j,
        {
            let lj = subvec(&self.lines[j], 0, self.lines[j].len());
            proof {
                assert(lj@ =~= lv[j as int]);
                lemma_menu_run(lv, pc as int, j as int);
            }
            let parts = split_bytes(&lj, &colon);
            let ghost pm = parts@.map_values(|v: Vec<u8>| v@);
            proof {
                assert(pm.len() == parts@.len());
            }
            if parts.len() != 2 {
                proof {
                    assert(menu_items(lv, j as int, end as int, j - pc + 1) == Err::<
                        (Seq<Seq<u8>>, Seq<Seq<u8>>),
                        (),
                    >(()));
                }
                return Err(Fatal { line: pc, kind: FatalKind::MalformedDirective });
            }
            proof {
                lemma_split_head(lv[j as int], 58);
                assert(pm[0] == parts@[0]@);
                assert(pm[1] == parts@[1]@);
            }
            let mut o = dec_of(j - pc + 1);
            o.push(46);
            o.push(32);
            let mut ptxt = subvec(&parts[0], 1, parts[0].len());
            let ghost ovw = dec_spec((j - pc + 1) as nat) + seq![46u8, 32u8]
                + pm[0].drop_first();
            o.append(&mut ptxt);
            proof {
                assert(o@ =~= ovw);
            }
            let t = strip_hashes_exec(&parts[1]);
            let ghost oldouts = lines_view(outs@);
            let ghost oldtgts = lines_view(tgts@);
            outs.push(o);
            tgts.push(t);
            proof {
                assert(lines_view(outs@) =~= oldouts.push(ovw));
                assert(lines_view(tgts@) =~= oldtgts.push(strip_hashes(pm[1])));
                let restj1 = menu_items(lv, j + 1, end as int, j - pc + 2);
                if restj1 is Ok {
                    let p = restj1->Ok_0;
                    assert(oldouts + (seq![ovw] + p.0) =~= lines_view(outs@) + p.0);
                    assert(oldtgts + (seq![strip_hashes(pm[1])] + p.1) =~= lines_view(tgts@)
                        + p.1);
                }
            }
            j = j + 1;
        }
        proof {
            assert(menu_items(lv, end as int, end as int, end - pc + 1) == Ok::<
                (Seq<Seq<u8>>, Seq<Seq<u8>>),
                (),
            >((Seq::<Seq<u8>>::empty(), Seq::<Seq<u8>>::empty())));
            assert(lines_view(outs@) + Seq::<Seq<u8>>::empty() =~= lines_view(outs@));
            assert(lines_view(tgts@) + Seq::<Seq<u8>>::empty() =~= lines_view(tgts@));
        }
        let ghost tv = lines_view(tgts@);
        self.pc = end;
        self.mode = Mode::MenuWait { targets: tgts };
        proof {
            assert(mode_view(self.mode) == ModeV::MenuWait { targets: tv });
        }
        Ok(outs)
    }

    /// Interpret the line at the program counter; the returned output lines
    /// are to be printed in order. The effect is exactly [`step_spec`] on
    /// the pre-state; on a fatal condition the engine is left unchanged.
    pub fn step(&mut self) -> (r: Result<Vec<Vec<u8>>, Fatal>)
        requires
            old(self).wf(),
            mode_view(old(self).mode) is Ready,
            old(self).pc < old(self).lines@.len(),
        ensures
            final(self).wf(),
            lines_view(final(self).lines@) == lines_view(old(self).lines@),
            labels_view(final(self).labels@) == labels_view(old(self).labels@),
            match step_spec(*old(self)) {
                Ok(st) => r is Ok && lines_view(r->Ok_0@) == st.out && final(self).pc == st.pc
                    && vars_view(final(self).vars@) == st.vars && mode_view(final(self).mode)
                    == st.mode,
                Err(k) => r is Err && r->Err_0 == (Fatal { line: old(self).pc, kind: k }) && final(self).pc == old(self).pc && vars_view(final(self).vars@) == vars_view(
                    old(self).vars@,
                ) && mode_view(final(self).mode) == mode_view(old(self).mode),
            },
    {
        let ghost e0 = *old(self);
        let pc = self.pc;
        let n = self.lines.len();
        let line = subvec(&self.lines[pc], 0, self.lines[pc].len());
        let ghost lsp = lines_view(e0.lines@)[pc as int];
        proof {
            assert(line@ =~= lsp);
        }
        if line.len() == 0 || line[0] == 10 || line[0] == 13 || line[0] == 58 || line[0] == 42 {
            self.pc = pc + 1;
            let outs: Vec<Vec<u8>> = Vec::new();
            proof {
                assert(lines_view(outs@) =~= Seq::<Seq<u8>>::empty());
            }
            Ok(outs)
        } else if line[0] == 124 {
            self.pc = pc + 1;
            let mut outs: Vec<Vec<u8>> = Vec::new();
            outs.push(Vec::new());
            proof {
                assert(lines_view(outs@) =~= seq![Seq::<u8>::empty()]);
            }
            Ok(outs)
        } else if line[0] == 35 {
            let name = subvec(&line, 1, line.len());
            proof {
                assert(name@ =~= lsp.drop_first());
            }
            match lookup_label(&self.labels, &name) {
                Some(ix) => {
                    proof {
                        lemma_lookup_label_bound(
                            labels_view(e0.labels@),
                            name@,
                            e0.lines@.len() as int,
                        );
                    }
                    self.pc = ix;
                    let outs: Vec<Vec<u8>> = Vec::new();
                    proof {
                        assert(lines_view(outs@) =~= Seq::<Seq<u8>>::empty());
                    }
                    Ok(outs)
                },
                None => Err(Fatal { line: pc, kind: FatalKind::MissingLabel }),
            }
        } else if line[0] == 33 {
            let colon = byte_vec(58);
            let parts = split_bytes(&line, &colon);
            let ghost pm = parts@.map_values(|v: Vec<u8>| v@);
            proof {
                assert(pm.len() == parts@.len());
            }
            if !(parts.len() == 2 || parts.len() == 3) {
                return Err(Fatal { line: pc, kind: FatalKind::MalformedDirective });
            }
            proof {
                lemma_split_head(lsp, 58);
                assert(pm[0] == parts@[0]@);
                assert(pm[1] == parts@[1]@);
                if pm.len() == 3 {
                    assert(pm[2] == parts@[2]@);
                }
            }
            let cond = subvec(&parts[0], 1, parts[0].len());
            proof {
                assert(cond@ =~= pm[0].drop_first());
            }
            match eval_cond_exec(&self.vars, &cond) {
                Err(k) => Err(Fatal { line: pc, kind: k }),
                Ok(bv) => {
                    if bv {
                        let exp = trim(&parts[1]);
                        self.do_branch(exp)
                    } else if parts.len() == 3 {
                        let exp = trim(&parts[2]);
                        self.do_branch(exp)
                    } else {
                        self.pc = pc + 1;
                        let outs: Vec<Vec<u8>> = Vec::new();
                        proof {
                            assert(lines_view(outs@) =~= Seq::<Seq<u8>>::empty());
                        }
                        Ok(outs)
                    }
                },
            }
        } else if line[0] == 64 {
            let eq = byte_vec(61);
            let parts = split_bytes(&line, &eq);
            let ghost pm = parts@.map_values(|v: Vec<u8>| v@);
            proof {
                assert(pm.len() == parts@.len());
            }
            if parts.len() == 2 {
                proof {
                    lemma_split_head(lsp, 61);
                    assert(pm[0] == parts@[0]@);
                    assert(pm[1] == parts@[1]@);
                }
                let name = subvec(&parts[0], 1, parts[0].len());
                proof {
                    assert(name@ =~= pm[0].drop_first());
                }
                match eval_assign(&self.vars, &parts[1]) {
                    Err(k) => Err(Fatal { line: pc, kind: k }),
                    Ok(v) => {
                        if !var_declared(&self.vars, &name) {
                            Err(Fatal { line: pc, kind: FatalKind::UndeclaredVariable })
                        } else {
                            set_var(&mut self.vars, name, v);
                            self.pc = pc + 1;
                            let outs: Vec<Vec<u8>> = Vec::new();
                            proof {
                                assert(lines_view(outs@) =~= Seq::<Seq<u8>>::empty());
                            }
                            Ok(outs)
                        }
                    },
                }
            } else {
                match substitute(&self.vars, &line) {
                    Err(_) => Err(Fatal { line: pc, kind: FatalKind::UndeclaredVariable }),
                    Ok(t) => {
                        self.pc = pc + 1;
                        let ghost tvw = t@;
                        let mut outs: Vec<Vec<u8>> = Vec::new();
                        outs.push(t);
                        proof {
                            assert(lines_view(outs@) =~= seq![tvw]);
                        }
                        Ok(outs)
                    },
                }
            }
        } else if line[0] == 63 {
            self.do_menu()
        } else if line[0] == 94 {
            let colon = byte_vec(58);
            let parts = split_bytes(&line, &colon);
            let ghost pm = parts@.map_values(|v: Vec<u8>| v@);
            proof {
                assert(pm.len() == parts@.len());
            }
            if parts.len() != 2 {
                return Err(Fatal { line: pc, kind: FatalKind::MalformedDirective });
            }
            proof {
                assert(pm[0] == parts@[0]@);
                assert(pm[1] == parts@[1]@);
            }
            let name = if parts[1].len() > 0 {
                subvec(&parts[1], 1, parts[1].len())
            } else {
                Vec::new()
            };
            proof {
                assert(name@ =~= (if pm[1].len() > 0 {
                    pm[1].drop_first()
                } else {
                    pm[1]
                }));
            }
            if !var_declared(&self.vars, &name) {
                return Err(Fatal { line: pc, kind: FatalKind::UndeclaredVariable });
            }
            if parts[0].len() < 2 {
                return Err(Fatal { line: pc, kind: FatalKind::MalformedDirective });
            }
            let mc = parts[0][1];
            if mc == 105 || mc == 115 {
                let prompt = subvec(&parts[0], 2, parts[0].len());
                proof {
                    assert(prompt@ =~= pm[0].skip(2));
                }
                let prompt2 = subvec(&prompt, 0, prompt.len());
                let mut outs: Vec<Vec<u8>> = Vec::new();
                outs.push(Vec::new());
                outs.push(prompt2);
                let ghost nv = name@;
                self.mode = Mode::InputWait { var: name, numeric: mc == 105, prompt };
                proof {
                    assert(outs@[0]@ =~= Seq::<u8>::empty());
                    assert(prompt2@ =~= pm[0].skip(2));
                    assert(lines_view(outs@) =~= seq![Seq::<u8>::empty(), pm[0].skip(2)]);
                    assert(mode_view(self.mode) == ModeV::InputWait {
                        var: nv,
                        numeric: mc == 105,
                        prompt: pm[0].skip(2),
                    });
                }
                Ok(outs)
            } else {
                Err(Fatal { line: pc, kind: FatalKind::MalformedDirective })
            }
        } else {
            match substitute(&self.vars, &line) {
                Err(_) => Err(Fatal { line: pc, kind: FatalKind::UndeclaredVariable }),
                Ok(t) => {
                    self.pc = pc + 1;
                    let ghost tvw = t@;
                    let mut outs: Vec<Vec<u8>> = Vec::new();
                    outs.push(t);
                    proof {
                        assert(lines_view(outs@) =~= seq![tvw]);
                    }
                    Ok(outs)
                },
            }
        }
    }

    /// Hand one raw input line to a waiting engine; the returned output
    /// lines are to be printed in order. The effect is exactly
    /// [`provide_spec`] on the pre-state and the line.
    pub fn provide_line(&mut self, input: &Vec<u8>) -> (r: Result<Vec<Vec<u8>>, Fatal>)
        requires
            old(self).wf(),
            !(mode_view(old(self).mode) is Ready),
        ensures
            final(self).wf(),
            lines_view(final(self).lines@) == lines_view(old(self).lines@),
            labels_view(final(self).labels@) == labels_view(old(self).labels@),
            match provide_spec(*old(self), input@) {
                Ok(st) => r is Ok && lines_view(r->Ok_0@) == st.out && final(self).pc == st.pc
                    && vars_view(final(self).vars@) == st.vars && mode_view(final(self).mode)
                    == st.mode,
                Err(k) => r is Err && r->Err_0 == (Fatal { line: old(self).pc, kind: k }) && final(self).pc == old(self).pc && vars_view(final(self).vars@) == vars_view(
                    old(self).vars@,
                ) && mode_view(final(self).mode) == mode_view(old(self).mode),
            },
    {
        let ghost e0 = *old(self);
        let t = strip_newline(input);
        let pc = self.pc;
        let n = self.lines.len();
        let is_menu = match &self.mode {
            Mode::MenuWait { .. } => true,
            _ => false,
        };
        if is_menu {
            let q = match &self.mode {
                Mode::MenuWait { targets } => targets.len(),
                _ => 0,
            };
            if contains_alpha(&t) {
                let msg = guidance_exec(q, true);
                let ghost mv = msg@;
                let mut outs: Vec<Vec<u8>> = Vec::new();
                outs.push(msg);
                proof {
                    assert(lines_view(outs@) =~= seq![mv]);
                }
                return Ok(outs);
            }
            let nn = match parse_usize(&t) {
                None => 0,
                Some(v) => v,
            };
            if nn < 1 || nn > q {
                let msg = guidance_exec(q, false);
                let ghost mv = msg@;
                let mut outs: Vec<Vec<u8>> = Vec::new();
                outs.push(msg);
                proof {
                    assert(lines_view(outs@) =~= seq![mv]);
                }
                return Ok(outs);
            }
            let tgt = match &self.mode {
                Mode::MenuWait { targets } => subvec(&targets[nn - 1], 0, targets[nn - 1].len()),
                _ => Vec::new(),
            };
            proof {
                let targets = mode_view(e0.mode)->MenuWait_targets;
                assert(tgt@ =~= targets[nn - 1]);
            }
            match lookup_label(&self.labels, &tgt) {
                None => Err(Fatal { line: pc, kind: FatalKind::MissingLabel }),
                Some(ix) => {
                    proof {
                        lemma_lookup_label_bound(
                            labels_view(e0.labels@),
                            tgt@,
                            e0.lines@.len() as int,
                        );
                    }
                    self.pc = ix;
                    self.mode = Mode::Ready;
                    let outs: Vec<Vec<u8>> = Vec::new();
                    proof {
                        assert(lines_view(outs@) =~= Seq::<Seq<u8>>::empty());
                    }
                    Ok(outs)
                },
            }
        } else {
            let numeric = match &self.mode {
                Mode::InputWait { numeric, .. } => *numeric,
                _ => false,
            };
            if numeric && contains_alpha(&t) {
                let prompt = match &self.mode {
                    Mode::InputWait { prompt, .. } => subvec(prompt, 0, prompt.len()),
                    _ => Vec::new(),
                };
                let msg = "You may only enter in a Number. Please try again.".as_bytes_vec();
                let ghost mv = msg@;
                let ghost pv = prompt@;
                let mut outs: Vec<Vec<u8>> = Vec::new();
                outs.push(msg);
                outs.push(Vec::new());
                outs.push(prompt);
                proof {
                    assert(outs@[1]@ =~= Seq::<u8>::empty());
                    assert(pv =~= mode_view(e0.mode)->InputWait_prompt);
                    assert(lines_view(outs@) =~= seq![
                        input_reject_msg(),
                        Seq::<u8>::empty(),
                        mode_view(e0.mode)->InputWait_prompt,
                    ]);
                }
                Ok(outs)
            } else {
                let name = match &self.mode {
                    Mode::InputWait { var, .. } => subvec(var, 0, var.len()),
                    _ => Vec::new(),
                };
                proof {
                    assert(name@ =~= mode_view(e0.mode)->InputWait_var);
                }
                set_var(&mut self.vars, name, t);
                self.pc = pc + 1;
                self.mode = Mode::Ready;
                let outs: Vec<Vec<u8>> = Vec::new();
                proof {
                    assert(lines_view(outs@) =~= Seq::<Seq<u8>>::empty());
                }
                Ok(outs)
            }
        }
    }

    /// Current value of the variable named `name`.
    pub fn get_var(&self, name: &Vec<u8>) -> (r: Option<Vec<u8>>)
        ensures
            match r {
                Some(v) => lookup(vars_view(self.vars@), name@) == Some(v@),
                None => lookup(vars_view(self.vars@), name@) is None,
            },
    {
        lookup_var(&self.vars, name)
    }

    /// Line index of the label named `name`.
    pub fn label_index(&self, name: &Vec<u8>) -> (r: Option<usize>)
        ensures
            match r {
                Some(ix) => lookup(labels_view(self.labels@), name@) == Some(ix),
                None => lookup(labels_view(self.labels@), name@) is None,
            },
    {
        lookup_label(&self.labels, name)
    }

    /// Whether the engine awaits a line of input (menu or input request).
    pub fn waiting(&self) -> (r: bool)
        ensures
            r == !(mode_view(self.mode) is Ready),
    {
        match &self.mode {
            Mode::Ready => false,
            _ => true,
        }
    }

    /// Whether the run is complete: ready, with the program counter at the
    /// end of the script.
    pub fn finished(&self) -> (r: bool)
        ensures
            r == (mode_view(self.mode) is Ready && self.pc == self.lines@.len()),
    {
        match &self.mode {
            Mode::Ready => self.pc == self.lines.len(),
            _ => false,
        }
    }
}

} // verus!
