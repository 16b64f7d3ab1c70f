use turing::tm::{State, TMError, Tape, TM, letter_exists, state_exists};

// ---------------------------------------------------------------------------
// Building the automaton
// ---------------------------------------------------------------------------

#[test]
fn built_automaton_start_and_halt_are_declared_states() {
    let text = "[s]:q0,q1\n[e]:q0\n[x]:q1\n[a]:0,1,_\n[t|q0]:0->(q1,1,>)";
    let tm = TM::from_string(text.to_string()).unwrap();
    assert!(state_exists(&tm.states, &tm.start.name));
    assert!(state_exists(&tm.states, &tm.end.name));
    assert_eq!(tm.start.name, "q0");
    assert_eq!(tm.end.name, "q1");
}

#[test]
fn unknown_start_state_is_rejected() {
    let text = "[s]:q0,q1\n[e]:qZ\n[x]:q1\n[a]:0";
    let r = TM::from_string(text.to_string());
    assert_eq!(r.unwrap_err(), TMError::NoSuchState("qZ".to_string()));
}

#[test]
fn missing_start_state_is_rejected() {
    let text = "[s]:q0,q1\n[x]:q1\n[a]:0,1\n[t|q0]:0->(q1,1,>)\n[b|_]:[0]1";
    let r = TM::from_string(text.to_string());
    assert_eq!(r.unwrap_err(), TMError::StartStateNotSpecified);
}

#[test]
fn missing_halt_state_is_rejected() {
    let text = "[s]:q0,q1\n[e]:q0\n[a]:0,1";
    let r = TM::from_string(text.to_string());
    assert_eq!(r.unwrap_err(), TMError::EndStateNotSpecified);
}

#[test]
fn unknown_transition_target_is_rejected_at_build_time() {
    let text = "[s]:q0,q1\n[e]:q0\n[x]:q1\n[a]:0,1\n[t|q0]:0->(qX,1,>)";
    let r = TM::from_string(text.to_string());
    assert_eq!(r.unwrap_err(), TMError::NoSuchState("qX".to_string()));
}

#[test]
fn unknown_transition_source_is_rejected() {
    let text = "[s]:q0,q1\n[e]:q0\n[x]:q1\n[a]:0,1\n[t|qY]:0->(q1,1,>)";
    let r = TM::from_string(text.to_string());
    assert_eq!(r.unwrap_err(), TMError::NoSuchState("qY".to_string()));
}

#[test]
fn bad_direction_literal_is_rejected_with_line_index() {
    let text = "[s]:q0,q1\n[e]:q0\n[x]:q1\n[a]:0,1\n[t|q0]:0->(q1,1,^)";
    let r = TM::from_string(text.to_string());
    assert_eq!(r.unwrap_err(), TMError::WrongLiteral(4));
}

#[test]
fn symbol_outside_alphabet_is_rejected_with_line_index() {
    let text = "[s]:q0,q1\n[e]:q0\n[x]:q1\n[a]:0,1\n[t|q0]:9->(q1,1,>)";
    let r = TM::from_string(text.to_string());
    assert_eq!(r.unwrap_err(), TMError::NoSuchLetter(4));
}

#[test]
fn bad_step_budget_is_rejected_with_line_index() {
    let text = "[s]:q0\n[e]:q0\n[x]:q0\n[a]:0\n[c]:abc";
    let r = TM::from_string(text.to_string());
    assert_eq!(r.unwrap_err(), TMError::InvalidSyntax(4));
}

#[test]
fn step_budget_defaults_to_one_hundred_thousand() {
    let text = "[s]:q0\n[e]:q0\n[x]:q0\n[a]:0";
    let tm = TM::from_string(text.to_string()).unwrap();
    assert_eq!(tm.config.max_steps, 100000);
}

#[test]
fn step_budget_accepts_plus_sign_and_leading_zeros() {
    let text = "[s]:q0\n[e]:q0\n[x]:q0\n[a]:0\n[c]:+7";
    let tm = TM::from_string(text.to_string()).unwrap();
    assert_eq!(tm.config.max_steps, 7);
    let text2 = "[s]:q0\n[e]:q0\n[x]:q0\n[a]:0\n[c]:007";
    let tm2 = TM::from_string(text2.to_string()).unwrap();
    assert_eq!(tm2.config.max_steps, 7);
}

#[test]
fn step_budget_overflow_is_invalid_syntax() {
    let text = "[s]:q0\n[e]:q0\n[x]:q0\n[a]:0\n[c]:4294967296";
    let r = TM::from_string(text.to_string());
    assert_eq!(r.unwrap_err(), TMError::InvalidSyntax(4));
    let text2 = "[s]:q0\n[e]:q0\n[x]:q0\n[a]:0\n[c]:4294967295";
    let tm = TM::from_string(text2.to_string()).unwrap();
    assert_eq!(tm.config.max_steps, u32::MAX);
}

#[test]
fn later_budget_line_overrides_earlier() {
    let text = "[s]:q0\n[e]:q0\n[x]:q0\n[a]:0\n[c]:3\n[c]:9";
    let tm = TM::from_string(text.to_string()).unwrap();
    assert_eq!(tm.config.max_steps, 9);
}

#[test]
fn later_start_line_overrides_earlier() {
    let text = "[s]:q0,q1\n[e]:q1\n[e]:q0\n[x]:q1\n[a]:0";
    let tm = TM::from_string(text.to_string()).unwrap();
    assert_eq!(tm.start.name, "q0");
}

#[test]
fn states_accumulate_over_several_lines() {
    let text = "[s]:q0\n[s]:q1\n[e]:q0\n[x]:q1\n[a]:0\n[t|q0]:0->(q1,0,>)";
    let tm = TM::from_string(text.to_string()).unwrap();
    assert!(state_exists(&tm.states, &"q0".to_string()));
    assert!(state_exists(&tm.states, &"q1".to_string()));
}

#[test]
fn comment_lines_are_ignored() {
    let text = "#[e]:q9\n#[s]:q9\n[s]:q0\n[e]:q0\n[x]:q0\n[a]:0";
    let tm = TM::from_string(text.to_string()).unwrap();
    assert!(!state_exists(&tm.states, &"q9".to_string()));
    assert_eq!(tm.start.name, "q0");
}

#[test]
fn comment_only_start_line_does_not_count() {
    let text = "[s]:q0\n#[e]:q0\n[x]:q0\n[a]:0";
    let r = TM::from_string(text.to_string());
    assert_eq!(r.unwrap_err(), TMError::StartStateNotSpecified);
}

#[test]
fn empty_alphabet_tokens_contribute_no_symbol() {
    let text = "[s]:q0,q1\n[e]:q0\n[x]:q1\n[a]:0,,1\n[t|q0]:1->(q1,0,>)\n[b|1]:[1]";
    let mut tm = TM::from_string(text.to_string()).unwrap();
    assert!(letter_exists(&tm.alphabet, &'0'));
    assert!(letter_exists(&tm.alphabet, &'1'));
    let mut tapes = Tape::from_string(text.to_string()).unwrap();
    let out = tm.execute(tapes.remove(0)).unwrap();
    assert_eq!(out.render(), "0");
}

#[test]
fn carriage_returns_before_line_feeds_are_stripped() {
    let text = "[s]:q0\r\n[e]:q0\r\n[x]:q0\r\n[a]:0";
    let tm = TM::from_string(text.to_string()).unwrap();
    assert_eq!(tm.start.name, "q0");
}

// ---------------------------------------------------------------------------
// Reading tapes
// ---------------------------------------------------------------------------

#[test]
fn tape_band_is_bracket_stripped_and_cursor_placed() {
    let tapes = Tape::from_string("[b|_]:ab[c]d".to_string()).unwrap();
    assert_eq!(tapes.len(), 1);
    assert_eq!(tapes[0].start_pos, 2);
    assert_eq!(tapes[0].default, '_');
    assert_eq!(tapes[0].render(), "abcd");
}

#[test]
fn malformed_tape_bracket_is_rejected_with_line_index() {
    let r = Tape::from_string("[b|_]:01[23]45".to_string());
    assert_eq!(r.unwrap_err(), TMError::StartIndexNotSpecified(0));
}

#[test]
fn tape_without_bracket_is_rejected() {
    let r = Tape::from_string("[b|_]:012".to_string());
    assert_eq!(r.unwrap_err(), TMError::StartIndexNotSpecified(0));
}

#[test]
fn tape_with_unclosed_bracket_is_rejected() {
    let r = Tape::from_string("[b|_]:ab[c".to_string());
    assert_eq!(r.unwrap_err(), TMError::StartIndexNotSpecified(0));
}

#[test]
fn tape_error_carries_its_own_line_index() {
    let text = "[s]:q0\n[b|_]:[0]\n[b|_]:0]1[";
    let r = Tape::from_string(text.to_string());
    assert_eq!(r.unwrap_err(), TMError::StartIndexNotSpecified(2));
}

#[test]
fn tapes_come_in_file_order() {
    let text = "[b|_]:[0]1\n[b|0]:1[1]";
    let tapes = Tape::from_string(text.to_string()).unwrap();
    assert_eq!(tapes.len(), 2);
    assert_eq!(tapes[0].render(), "01");
    assert_eq!(tapes[0].start_pos, 0);
    assert_eq!(tapes[1].render(), "11");
    assert_eq!(tapes[1].start_pos, 1);
    assert_eq!(tapes[1].default, '0');
}

// ---------------------------------------------------------------------------
// Running the machine
// ---------------------------------------------------------------------------

#[test]
fn happy_path_halts_after_one_step() {
    let text = "[s]:q0,q1\n[e]:q0\n[x]:q1\n[a]:0,1,_\n[t|q0]:0->(q1,1,>)\n[b|_]:[0]1";
    let mut tm = TM::from_string(text.to_string()).unwrap();
    let mut tapes = Tape::from_string(text.to_string()).unwrap();
    assert_eq!(tapes.len(), 1);
    let out = tm.execute(tapes.remove(0)).unwrap();
    assert_eq!(out.render(), "11");
}

#[test]
fn halting_step_writes_but_does_not_move() {
    // The final step's write lands on the band, but the move is not applied:
    // the band is not extended leftward past what the write required.
    let text = "[s]:q0,q1\n[e]:q0\n[x]:q1\n[a]:0,1,_\n[t|q0]:0->(q1,1,<)\n[b|_]:[0]";
    let mut tm = TM::from_string(text.to_string()).unwrap();
    let mut tapes = Tape::from_string(text.to_string()).unwrap();
    let out = tm.execute(tapes.remove(0)).unwrap();
    assert_eq!(out.render(), "1");
}

#[test]
fn moving_left_at_cursor_zero_prepends_default() {
    let text = "[s]:q0,q1,q2\n[e]:q0\n[x]:q2\n[a]:0,1,_\n[t|q0]:0->(q1,1,<)\n[t|q1]:_->(q2,_,>)\n[b|_]:[0]";
    let mut tm = TM::from_string(text.to_string()).unwrap();
    let mut tapes = Tape::from_string(text.to_string()).unwrap();
    let out = tm.execute(tapes.remove(0)).unwrap();
    assert_eq!(out.render(), "_1");
}

#[test]
fn moving_right_past_band_end_appends_default() {
    let text = "[s]:q0,q1\n[e]:q0\n[x]:q1\n[a]:0,1,_\n[t|q0]:0->(q0,1,>)|_->(q1,_,>)\n[b|_]:[0]";
    let mut tm = TM::from_string(text.to_string()).unwrap();
    let mut tapes = Tape::from_string(text.to_string()).unwrap();
    let out = tm.execute(tapes.remove(0)).unwrap();
    assert_eq!(out.render(), "1_");
}

#[test]
fn undefined_transition_names_state_and_symbol() {
    let text = "[s]:q0,q1\n[e]:q0\n[x]:q1\n[a]:0,1\n[t|q0]:0->(q0,0,>)\n[b|1]:[1]";
    let mut tm = TM::from_string(text.to_string()).unwrap();
    let mut tapes = Tape::from_string(text.to_string()).unwrap();
    let r = tm.execute(tapes.remove(0));
    assert_eq!(
        r.unwrap_err(),
        TMError::TransitionNotSpecified("q0".to_string(), '1')
    );
}

#[test]
fn budget_exhaustion_is_a_distinct_outcome() {
    let text = "[s]:q0,q1\n[e]:q0\n[x]:q1\n[a]:0\n[c]:5\n[t|q0]:0->(q0,0,>)\n[b|0]:[0]";
    let mut tm = TM::from_string(text.to_string()).unwrap();
    let mut tapes = Tape::from_string(text.to_string()).unwrap();
    let r = tm.execute(tapes.remove(0));
    assert_eq!(r.unwrap_err(), TMError::StepBudgetExceeded);
}

#[test]
fn budget_boundary_is_exact() {
    // The machine needs four non-halting steps and halts on the fifth; a
    // budget of five suffices, a budget of four does not.
    let enough = "[s]:q0,q1\n[e]:q0\n[x]:q1\n[a]:0,1\n[c]:5\n[t|q0]:0->(q0,0,>)|1->(q1,1,>)\n[b|0]:[0]0001";
    let mut tm = TM::from_string(enough.to_string()).unwrap();
    let mut tapes = Tape::from_string(enough.to_string()).unwrap();
    let out = tm.execute(tapes.remove(0)).unwrap();
    assert_eq!(out.render(), "00001");

    let short = "[s]:q0,q1\n[e]:q0\n[x]:q1\n[a]:0,1\n[c]:4\n[t|q0]:0->(q0,0,>)|1->(q1,1,>)\n[b|0]:[0]0001";
    let mut tm2 = TM::from_string(short.to_string()).unwrap();
    let mut tapes2 = Tape::from_string(short.to_string()).unwrap();
    let r = tm2.execute(tapes2.remove(0));
    assert_eq!(r.unwrap_err(), TMError::StepBudgetExceeded);
}

#[test]
fn first_declared_transition_wins() {
    let text = "[s]:q0,q1\n[e]:q0\n[x]:q1\n[a]:0,1\n[t|q0]:0->(q1,1,>)|0->(q0,0,>)\n[b|0]:[0]";
    let mut tm = TM::from_string(text.to_string()).unwrap();
    let mut tapes = Tape::from_string(text.to_string()).unwrap();
    let out = tm.execute(tapes.remove(0)).unwrap();
    assert_eq!(out.render(), "1");
}

#[test]
fn first_declared_transition_wins_across_lines() {
    let text = "[s]:q0,q1\n[e]:q0\n[x]:q1\n[a]:0,1\n[t|q0]:0->(q1,1,>)\n[t|q0]:0->(q0,0,>)\n[b|0]:[0]";
    let mut tm = TM::from_string(text.to_string()).unwrap();
    let mut tapes = Tape::from_string(text.to_string()).unwrap();
    let out = tm.execute(tapes.remove(0)).unwrap();
    assert_eq!(out.render(), "1");
}

#[test]
fn tapes_run_independently_against_one_automaton() {
    let text = "[s]:q0,q1\n[e]:q0\n[x]:q1\n[a]:0,1,_\n[t|q0]:0->(q1,1,>)\n[b|_]:[0]1\n[b|_]:1[1]";
    let mut tm = TM::from_string(text.to_string()).unwrap();
    let mut tapes = Tape::from_string(text.to_string()).unwrap();
    assert_eq!(tapes.len(), 2);
    let second = tapes.remove(1);
    let first = tapes.remove(0);
    let out = tm.execute(first).unwrap();
    assert_eq!(out.render(), "11");
    let r = tm.execute(second);
    assert_eq!(
        r.unwrap_err(),
        TMError::TransitionNotSpecified("q0".to_string(), '1')
    );
}

// ---------------------------------------------------------------------------
// Membership helpers
// ---------------------------------------------------------------------------

#[test]
fn state_exists_finds_names_only() {
    let states = vec![
        State::new("q0".to_string()),
        State::new("loop".to_string()),
    ];
    assert!(state_exists(&states, &"q0".to_string()));
    assert!(state_exists(&states, &"loop".to_string()));
    assert!(!state_exists(&states, &"q1".to_string()));
    assert!(!state_exists(&states, &"".to_string()));
}

#[test]
fn letter_exists_finds_symbols_only() {
    let alphabet = vec!['0', '1', '_'];
    assert!(letter_exists(&alphabet, &'0'));
    assert!(letter_exists(&alphabet, &'_'));
    assert!(!letter_exists(&alphabet, &'x'));
}

// ---------------------------------------------------------------------------
// A complete computation
// ---------------------------------------------------------------------------

#[test]
fn increments_a_binary_number() {
    // Starting at the least significant bit: turn trailing ones into zeros,
    // then turn the first zero into a one and halt.
    let text = "[s]:q0,q1\n[e]:q0\n[x]:q1\n[a]:0,1,_\n[t|q0]:1->(q0,0,<)|0->(q1,1,<)|_->(q1,1,<)\n[b|_]:101[1]";
    let mut tm = TM::from_string(text.to_string()).unwrap();
    let mut tapes = Tape::from_string(text.to_string()).unwrap();
    let out = tm.execute(tapes.remove(0)).unwrap();
    assert_eq!(out.render(), "1100");
}

#[test]
fn increments_with_carry_over_every_bit() {
    // All ones: the carry runs off the left edge, the band grows by one
    // default cell, and the new cell takes the final one.
    let text = "[s]:q0,q1\n[e]:q0\n[x]:q1\n[a]:0,1,_\n[t|q0]:1->(q0,0,<)|0->(q1,1,<)|_->(q1,1,<)\n[b|_]:11[1]";
    let mut tm = TM::from_string(text.to_string()).unwrap();
    let mut tapes = Tape::from_string(text.to_string()).unwrap();
    let out = tm.execute(tapes.remove(0)).unwrap();
    assert_eq!(out.render(), "1000");
}
