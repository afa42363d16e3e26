use storyscript::engine::{Engine, FatalKind};

fn lv(script: &[&str]) -> Vec<Vec<u8>> {
    script.iter().map(|s| s.as_bytes().to_vec()).collect()
}

fn bv(s: &str) -> Vec<u8> {
    s.as_bytes().to_vec()
}

fn outs(o: &[&str]) -> Vec<Vec<u8>> {
    o.iter().map(|s| s.as_bytes().to_vec()).collect()
}

#[test]
fn prescan_collects_labels_and_variables() {
    let e = Engine::new(lv(&["@x=5", ":end", "text"]));
    assert_eq!(e.get_var(&bv("x")), Some(bv("0")));
    assert_eq!(e.label_index(&bv("end")), Some(1));
    assert_eq!(e.label_index(&bv("missing")), None);
}

#[test]
fn prescan_skips_malformed_declaration() {
    let e = Engine::new(lv(&["@bad", "@x=1"]));
    assert_eq!(e.get_var(&bv("bad")), None);
    assert_eq!(e.get_var(&bv("x")), Some(bv("0")));
}

#[test]
fn label_last_declaration_wins() {
    let mut e = Engine::new(lv(&["#l", ":l", ":l"]));
    assert!(e.step().is_ok());
    assert_eq!(e.pc, 2);
}

#[test]
fn blank_comment_label_and_pipe_lines() {
    let mut e = Engine::new(lv(&["", "*note", ":lbl", "|"]));
    assert_eq!(e.step().unwrap(), outs(&[]));
    assert_eq!(e.step().unwrap(), outs(&[]));
    assert_eq!(e.step().unwrap(), outs(&[]));
    assert_eq!(e.step().unwrap(), outs(&[""]));
    assert!(e.finished());
}

#[test]
fn literal_text_substitutes_variables() {
    let mut e = Engine::new(lv(&["@n=7", "Count: @n!"]));
    assert_eq!(e.step().unwrap(), outs(&[]));
    assert_eq!(e.step().unwrap(), outs(&["Count: 7!"]));
}

#[test]
fn substitution_replaces_every_occurrence() {
    let mut e = Engine::new(lv(&["@a=5", "@a and @a"]));
    e.step().unwrap();
    assert_eq!(e.step().unwrap(), outs(&["5 and 5"]));
}

#[test]
fn goto_jumps_to_label_line() {
    let mut e = Engine::new(lv(&["#end", "skipped", ":end"]));
    assert_eq!(e.step().unwrap(), outs(&[]));
    assert_eq!(e.pc, 2);
}

#[test]
fn goto_missing_label_is_fatal() {
    let mut e = Engine::new(lv(&["#nowhere"]));
    let err = e.step().unwrap_err();
    assert_eq!(err.kind, FatalKind::MissingLabel);
    assert_eq!(err.line, 0);
}

#[test]
fn numeric_condition_true_prints_branch() {
    let mut e = Engine::new(lv(&["!5==5:ok"]));
    assert_eq!(e.step().unwrap(), outs(&["ok"]));
}

#[test]
fn string_fallback_condition_prints_branch() {
    let mut e = Engine::new(lv(&["!abc==abc:ok"]));
    assert_eq!(e.step().unwrap(), outs(&["ok"]));
}

#[test]
fn ordering_on_non_numeric_is_fatal() {
    let mut e = Engine::new(lv(&["!5<abc:x"]));
    let err = e.step().unwrap_err();
    assert_eq!(err.kind, FatalKind::NonNumericOrdering);
}

#[test]
fn numeric_ordering_comparisons() {
    let mut e = Engine::new(lv(&["!2<10:lt", "!3>=3:ge", "!4!=5:ne"]));
    assert_eq!(e.step().unwrap(), outs(&["lt"]));
    assert_eq!(e.step().unwrap(), outs(&["ge"]));
    assert_eq!(e.step().unwrap(), outs(&["ne"]));
}

#[test]
fn false_two_part_condition_falls_through() {
    let mut e = Engine::new(lv(&["!1==2:no", "after"]));
    assert_eq!(e.step().unwrap(), outs(&[]));
    assert_eq!(e.pc, 1);
}

#[test]
fn false_three_part_condition_takes_else() {
    let mut e = Engine::new(lv(&["!1==2:no:yes"]));
    assert_eq!(e.step().unwrap(), outs(&["yes"]));
}

#[test]
fn condition_branch_goto_is_trimmed_and_taken() {
    let mut e = Engine::new(lv(&["!1==1: #go ", ":go"]));
    assert_eq!(e.step().unwrap(), outs(&[]));
    assert_eq!(e.pc, 1);
}

#[test]
fn condition_branch_assignment() {
    let mut e = Engine::new(lv(&["@x=0", "!1==1:@x=5", "@x"]));
    e.step().unwrap();
    assert_eq!(e.step().unwrap(), outs(&[]));
    assert_eq!(e.get_var(&bv("x")), Some(bv("5")));
    assert_eq!(e.step().unwrap(), outs(&["5"]));
}

#[test]
fn condition_branch_assignment_to_undeclared_is_fatal() {
    let mut e = Engine::new(lv(&["!1==1:@y=5"]));
    let err = e.step().unwrap_err();
    assert_eq!(err.kind, FatalKind::UndeclaredVariable);
}

#[test]
fn condition_without_operator_is_fatal() {
    let mut e = Engine::new(lv(&["!abc:x"]));
    let err = e.step().unwrap_err();
    assert_eq!(err.kind, FatalKind::MalformedDirective);
}

#[test]
fn condition_with_one_part_is_fatal() {
    let mut e = Engine::new(lv(&["!1==1"]));
    let err = e.step().unwrap_err();
    assert_eq!(err.kind, FatalKind::MalformedDirective);
}

#[test]
fn assignment_evaluates_expression() {
    let mut e = Engine::new(lv(&["@x=1", "@x=@x+1"]));
    e.step().unwrap();
    e.step().unwrap();
    assert_eq!(e.get_var(&bv("x")), Some(bv("2")));
}

#[test]
fn assignment_string_fallback_keeps_text() {
    let mut e = Engine::new(lv(&["@x=0", "@x=hello world"]));
    e.step().unwrap();
    e.step().unwrap();
    assert_eq!(e.get_var(&bv("x")), Some(bv("hello world")));
}

#[test]
fn menu_prompts_and_choice_jump() {
    let mut e = Engine::new(lv(&["?Go left:#left", "?Go right:#right", ":left", ":right"]));
    let out = e.step().unwrap();
    assert_eq!(out, outs(&["1. Go left", "2. Go right"]));
    assert!(e.waiting());
    assert_eq!(e.provide_line(&bv("2\n")).unwrap(), outs(&[]));
    assert_eq!(e.pc, 3);
    assert!(!e.waiting());
}

#[test]
fn menu_invalid_choices_reprompt_without_advancing() {
    let mut e = Engine::new(lv(&["?Go left:#left", "?Go right:#right", ":left", ":right"]));
    e.step().unwrap();
    let pc_after_block = e.pc;
    let out = e.provide_line(&bv("9\n")).unwrap();
    assert_eq!(out, outs(&["You must enter a number between 1 and 2"]));
    assert!(e.waiting());
    assert_eq!(e.pc, pc_after_block);
    let out = e.provide_line(&bv("x\n")).unwrap();
    assert_eq!(out, outs(&["You must enter a NUMBER between 1 and 2"]));
    assert!(e.waiting());
    let out = e.provide_line(&bv("0\n")).unwrap();
    assert_eq!(out, outs(&["You must enter a number between 1 and 2"]));
    assert!(e.waiting());
    assert_eq!(e.provide_line(&bv("2\n")).unwrap(), outs(&[]));
    assert_eq!(e.pc, 3);
}

#[test]
fn menu_line_without_colon_is_fatal() {
    let mut e = Engine::new(lv(&["?oops"]));
    let err = e.step().unwrap_err();
    assert_eq!(err.kind, FatalKind::MalformedDirective);
}

#[test]
fn menu_choice_with_missing_label_is_fatal() {
    let mut e = Engine::new(lv(&["?Go:#nowhere"]));
    e.step().unwrap();
    let err = e.provide_line(&bv("1\n")).unwrap_err();
    assert_eq!(err.kind, FatalKind::MissingLabel);
}

#[test]
fn numeric_input_rejects_letters_then_accepts() {
    let mut e = Engine::new(lv(&["@count=0", "^iHow many?:@count"]));
    e.step().unwrap();
    let out = e.step().unwrap();
    assert_eq!(out, outs(&["", "How many?"]));
    assert!(e.waiting());
    let out = e.provide_line(&bv("abc\n")).unwrap();
    assert_eq!(
        out,
        outs(&["You may only enter in a Number. Please try again.", "", "How many?"])
    );
    assert_eq!(e.get_var(&bv("count")), Some(bv("0")));
    assert_eq!(e.provide_line(&bv("3\n")).unwrap(), outs(&[]));
    assert_eq!(e.get_var(&bv("count")), Some(bv("3")));
    assert!(e.finished());
}

#[test]
fn string_input_accepts_any_line() {
    let mut e = Engine::new(lv(&["@name=0", "^sWho?:@name"]));
    e.step().unwrap();
    assert_eq!(e.step().unwrap(), outs(&["", "Who?"]));
    assert_eq!(e.provide_line(&bv("abc def\r\n")).unwrap(), outs(&[]));
    assert_eq!(e.get_var(&bv("name")), Some(bv("abc def")));
}

#[test]
fn input_to_undeclared_variable_is_fatal() {
    let mut e = Engine::new(lv(&["^iX:@nope"]));
    let err = e.step().unwrap_err();
    assert_eq!(err.kind, FatalKind::UndeclaredVariable);
}

#[test]
fn input_with_unknown_mode_is_fatal() {
    let mut e = Engine::new(lv(&["@v=0", "^qX:@v"]));
    e.step().unwrap();
    let err = e.step().unwrap_err();
    assert_eq!(err.kind, FatalKind::MalformedDirective);
}

#[test]
fn undeclared_variable_reference_aborts_without_output() {
    let mut e = Engine::new(lv(&["hello @x"]));
    let err = e.step().unwrap_err();
    assert_eq!(err.kind, FatalKind::UndeclaredVariable);
    assert_eq!(err.line, 0);
}

#[test]
fn malformed_at_line_prints_as_text_when_vars_declared() {
    let mut e = Engine::new(lv(&["@x=2", "@x@x"]));
    e.step().unwrap();
    assert_eq!(e.step().unwrap(), outs(&["22"]));
}

#[test]
fn menu_target_without_hash_still_jumps() {
    let mut e = Engine::new(lv(&[":left", "?Go:left"]));
    e.step().unwrap();
    assert_eq!(e.step().unwrap(), outs(&["1. Go"]));
    assert_eq!(e.provide_line(&bv("1\n")).unwrap(), outs(&[]));
    assert_eq!(e.pc, 0);
}

#[test]
fn goto_strips_only_the_sigil() {
    let mut e = Engine::new(lv(&["#a#b", ":a#b"]));
    assert_eq!(e.step().unwrap(), outs(&[]));
    assert_eq!(e.pc, 1);
}
