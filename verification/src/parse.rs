//! The directive scanner and semantic builder: verified executable passes
//! over the specification text, each proved equal to its model in
//! `crate::model`.

use vstd::prelude::*;

verus! {

use crate::model::{
    AutomatonModel, DEFAULT_STEP_BUDGET, ErrSpec, TapeModel, TransModel, alphabet_of, body_trans,
    bodies_from, budget_from, budget_of, firsts_of, headed_close, headed_name, headed_payload,
    is_headed_line, is_tag_line, lemma_alphabet_of_snoc, lemma_built_automaton_wf,
    lemma_deep_of_add, lemma_deep_of_empty, lemma_deep_of_push, lemma_firsts_of_snoc,
    lemma_named_of_snoc, lemma_parsed_tapes_wf, lemma_states_of_snoc, lemma_vec_deep_view_is,
    deep_of, line_alphabet, line_states, line_tape, line_trans, named_of, spec_build, spec_tapes,
    states_of, tag_payload, tape_model_wf, tapes_from, trans_from, trans_of,
    automaton_wf,
};
use crate::text::{
    chars_of_str, find_arrow_in, find_char_in, lemma_find_arrow, lemma_find_char,
    lemma_vec_char_deep_view, lines_of, parse_u32, spec_lines, split_vec, string_from_chars,
    subvec,
};
use crate::tm::{Config, Move, State, TM, TMError, Tape, Transition, letter_exists, state_exists};

/// Whether the line carries the simple tag `[x]:` as its prefix.
fn is_tag(line: &Vec<char>, x: char) -> (r: bool)
    ensures
        r == is_tag_line(line@, x),
{
    line.len() >= 4 && line[0] == '[' && line[1] == x && line[2] == ']' && line[3] == ':'
}

/// The payload of a simple tag line.
fn tag_payload_of(line: &Vec<char>) -> (r: Vec<char>)
    requires
        line@.len() >= 4,
    ensures
        r@ == tag_payload(line@),
{
    subvec(line, 4, line.len())
}

/// The head and payload of a `[x|HEAD]:` line, when the line has that shape.
fn headed_parts(line: &Vec<char>, x: char) -> (r: Option<(Vec<char>, Vec<char>)>)
    ensures
        match r {
            Some(p) => is_headed_line(line@, x) && p.0@ == headed_name(line@) && p.1@
                == headed_payload(line@),
            None => !is_headed_line(line@, x),
        },
{
    if !(line.len() >= 3 && line[0] == '[' && line[1] == x && line[2] == '|') {
        return None;
    }
    let tail = subvec(line, 3, line.len());
    proof {
        assert(tail@ =~= line@.skip(3));
        lemma_find_char(line@.skip(3), ']');
    }
    let f = find_char_in(&tail, ']');
    let hc = 3 + f;
    assert(hc as int == headed_close(line@));
    if hc < line.len() && hc + 1 < line.len() && line[hc + 1] == ':' {
        let name = subvec(line, 3, hc);
        let payload = subvec(line, hc + 2, line.len());
        proof {
            assert(payload@ =~= line@.skip(hc as int + 2));
        }
        Some((name, payload))
    } else {
        None
    }
}

/// The declared states: the comma-separated names of every `[s]` line, in
/// file order, repeats and empty names kept.
pub fn collect_states(lines: &Vec<Vec<char>>) -> (r: Vec<State>)
    ensures
        r.deep_view() == states_of(lines.deep_view()),
{
    broadcast use lemma_vec_char_deep_view;

    let ghost ldv = lines.deep_view();
    let mut states: Vec<State> = Vec::new();
    proof {
        assert(ldv.take(0) =~= Seq::<Seq<char>>::empty());
        assert(states.deep_view() =~= Seq::<Seq<char>>::empty());
    }
    let mut i: usize = 0;
    while i < lines.len()
        invariant
            i <= lines@.len(),
            ldv == lines.deep_view(),
            states.deep_view() == states_of(ldv.take(i as int)),
        decreases lines@.len() - i,
    {
        let line = &lines[i];
        proof {
            assert(line@ == ldv[i as int]);
        }
        if is_tag(line, 's') {
            let payload = tag_payload_of(line);
            let toks = split_vec(payload, ',');
            let ghost tdv = toks.deep_view();
            proof {
                assert(tdv == line_states(ldv[i as int]));
                assert(tdv.take(0) =~= Seq::<Seq<char>>::empty());
                assert(states.deep_view() + tdv.take(0) =~= states.deep_view());
            }
            let ghost base = states.deep_view();
            let mut j: usize = 0;
            while j < toks.len()
                invariant
                    j <= toks@.len(),
                    tdv == toks.deep_view(),
                    base == states_of(ldv.take(i as int)),
                    states.deep_view() == base + tdv.take(j as int),
                decreases toks@.len() - j,
            {
                let name = string_from_chars(&toks[j]);
                let ghost prevv = states@;
                let st = State { name };
                let ghost stg = st;
                states.push(st);
                j += 1;
                proof {
                    let jj = j as int;
                    lemma_vec_deep_view_is(states);
                    lemma_deep_of_push(prevv, stg);
                    assert(stg.deep_view() == tdv[jj - 1]);
                    assert(tdv.take(jj) =~= tdv.take(jj - 1).push(tdv[jj - 1]));
                    Seq::push_distributes_over_add(base, tdv.take(jj - 1), tdv[jj - 1]);
                    assert(states.deep_view() == base + tdv.take(jj));
                }
            }
            proof {
                assert(tdv.take(toks@.len() as int) =~= tdv);
            }
        }
        i += 1;
        proof {
            assert(ldv.take(i as int) =~= ldv.take(i as int - 1).push(ldv[i as int - 1]));
            lemma_states_of_snoc(ldv.take(i as int - 1), ldv[i as int - 1]);
            if !is_tag_line(ldv[i as int - 1], 's') {
                assert(states.deep_view() + line_states(ldv[i as int - 1]) =~= states.deep_view());
            }
        }
    }
    proof {
        assert(ldv.take(lines@.len() as int) =~= ldv);
    }
    states
}

/// The payload of the last `[x]:` line, if any.
fn find_named(lines: &Vec<Vec<char>>, x: char) -> (r: Option<Vec<char>>)
    ensures
        match r {
            Some(p) => named_of(lines.deep_view(), x) == Some(p@),
            None => named_of(lines.deep_view(), x) is None,
        },
{
    let ghost ldv = lines.deep_view();
    let mut found: Option<Vec<char>> = None;
    proof {
        assert(ldv.take(0) =~= Seq::<Seq<char>>::empty());
    }
    let mut i: usize = 0;
    while i < lines.len()
        invariant
            i <= lines@.len(),
            ldv == lines.deep_view(),
            match found {
                Some(p) => named_of(ldv.take(i as int), x) == Some(p@),
                None => named_of(ldv.take(i as int), x) is None,
            },
        decreases lines@.len() - i,
    {
        let line = &lines[i];
        proof {
            assert(line@ == ldv[i as int]);
        }
        if is_tag(line, x) {
            found = Some(tag_payload_of(line));
        }
        i += 1;
        proof {
            assert(ldv.take(i as int) =~= ldv.take(i as int - 1).push(ldv[i as int - 1]));
            lemma_named_of_snoc(ldv.take(i as int - 1), ldv[i as int - 1], x);
        }
    }
    proof {
        assert(ldv.take(lines@.len() as int) =~= ldv);
    }
    found
}

/// The declared alphabet: the first character of every nonempty
/// comma-separated token of every `[a]` line, in file order, repeats kept.
pub fn collect_alphabet(lines: &Vec<Vec<char>>) -> (r: Vec<char>)
    ensures
        r@ == alphabet_of(lines.deep_view()),
{
    broadcast use lemma_vec_char_deep_view;

    let ghost ldv = lines.deep_view();
    let mut alphabet: Vec<char> = Vec::new();
    proof {
        assert(ldv.take(0) =~= Seq::<Seq<char>>::empty());
    }
    let mut i: usize = 0;
    while i < lines.len()
        invariant
            i <= lines@.len(),
            ldv == lines.deep_view(),
            alphabet@ == alphabet_of(ldv.take(i as int)),
        decreases lines@.len() - i,
    {
        let line = &lines[i];
        proof {
            assert(line@ == ldv[i as int]);
        }
        if is_tag(line, 'a') {
            let payload = tag_payload_of(line);
            let toks = split_vec(payload, ',');
            let ghost tdv = toks.deep_view();
            proof {
                assert(tdv.take(0) =~= Seq::<Seq<char>>::empty());
                assert(alphabet@ + firsts_of(tdv.take(0)) =~= alphabet@);
            }
            let ghost base = alphabet@;
            let mut j: usize = 0;
            while j < toks.len()
                invariant
                    j <= toks@.len(),
                    tdv == toks.deep_view(),
                    base == alphabet_of(ldv.take(i as int)),
                    alphabet@ == base + firsts_of(tdv.take(j as int)),
                decreases toks@.len() - j,
            {
                let tok = &toks[j];
                proof {
                    assert(tok@ == tdv[j as int]);
                }
                if tok.len() > 0 {
                    alphabet.push(tok[0]);
                }
                j += 1;
                proof {
                    assert(tdv.take(j as int) =~= tdv.take(j as int - 1).push(tdv[j as int - 1]));
                    lemma_firsts_of_snoc(tdv.take(j as int - 1), tdv[j as int - 1]);
                    if tdv[j as int - 1].len() > 0 {
                        assert(alphabet@ =~= base + firsts_of(tdv.take(j as int)));
                    } else {
                        assert(alphabet@ =~= base + firsts_of(tdv.take(j as int)));
                    }
                }
            }
            proof {
                assert(tdv.take(toks@.len() as int) =~= tdv);
            }
        }
        i += 1;
        proof {
            assert(ldv.take(i as int) =~= ldv.take(i as int - 1).push(ldv[i as int - 1]));
            lemma_alphabet_of_snoc(ldv.take(i as int - 1), ldv[i as int - 1]);
            if !is_tag_line(ldv[i as int - 1], 'a') {
                assert(alphabet@ + line_alphabet(ldv[i as int - 1]) =~= alphabet@);
            }
        }
    }
    proof {
        assert(ldv.take(lines@.len() as int) =~= ldv);
    }
    alphabet
}

/// The step budget: the value of the last `[c]` line, the default when there
/// is none, or an `InvalidSyntax` error at the first `[c]` line whose payload
/// is no decimal number.
pub fn collect_budget(lines: &Vec<Vec<char>>) -> (r: Result<u32, TMError>)
    ensures
        match r {
            Ok(b) => budget_of(lines.deep_view()) == Ok::<u32, ErrSpec>(b),
            Err(e) => budget_of(lines.deep_view()) == Err::<u32, ErrSpec>(e@),
        },
{
    let ghost ldv = lines.deep_view();
    let mut cur: u32 = DEFAULT_STEP_BUDGET;
    let mut i: usize = 0;
    while i < lines.len()
        invariant
            i <= lines@.len(),
            ldv == lines.deep_view(),
            budget_of(ldv) == budget_from(ldv, i as int, cur),
        decreases lines@.len() - i,
    {
        let line = &lines[i];
        proof {
            assert(line@ == ldv[i as int]);
        }
        if is_tag(line, 'c') {
            let payload = tag_payload_of(line);
            match parse_u32(&payload) {
                Some(v) => {
                    cur = v;
                },
                None => {
                    return Err(TMError::InvalidSyntax(i));
                },
            }
        }
        i += 1;
    }
    Ok(cur)
}


/// One transition body of a `[t|SRC]:` line, parsed against the declared
/// states and alphabet: `None` when the body does not have the shape
/// `SYMBOL->(DEST,SYMBOL,DIR)`.
fn parse_body(
    b: &Vec<char>,
    src: &String,
    ln: usize,
    states: &Vec<State>,
    alphabet: &Vec<char>,
) -> (r: Result<Option<Transition>, TMError>)
    ensures
        match r {
            Ok(Some(t)) => body_trans(b@, src@, ln as int, states.deep_view(), alphabet@) == Ok::<
                Seq<TransModel>,
                ErrSpec,
            >(seq![t@]),
            Ok(None) => body_trans(b@, src@, ln as int, states.deep_view(), alphabet@) == Ok::<
                Seq<TransModel>,
                ErrSpec,
            >(Seq::empty()),
            Err(e) => body_trans(b@, src@, ln as int, states.deep_view(), alphabet@) == Err::<
                Seq<TransModel>,
                ErrSpec,
            >(e@),
        },
{
    proof {
        lemma_find_arrow(b@);
    }
    let i = find_arrow_in(b);
    if i == b.len() || i == 0 {
        return Ok(None);
    }
    let rd = b[0];
    let rest = subvec(b, i + 3, b.len());
    proof {
        assert(rest@ =~= b@.skip(i as int + 3));
        lemma_find_char(rest@, ',');
    }
    let j = find_char_in(&rest, ',');
    if j == rest.len() {
        return Ok(None);
    }
    let dest = subvec(&rest, 0, j);
    let rest2 = subvec(&rest, j + 1, rest.len());
    proof {
        assert(dest@ =~= rest@.take(j as int));
        assert(rest2@ =~= rest@.skip(j as int + 1));
        lemma_find_char(rest2@, ',');
    }
    let j2 = find_char_in(&rest2, ',');
    if j2 == rest2.len() || j2 == 0 {
        return Ok(None);
    }
    let wr = rest2[0];
    let rest3 = subvec(&rest2, j2 + 1, rest2.len());
    proof {
        assert(rest3@ =~= rest2@.skip(j2 as int + 1));
        lemma_find_char(rest3@, ')');
    }
    let m = find_char_in(&rest3, ')');
    if m == rest3.len() {
        return Ok(None);
    }
    let dir = subvec(&rest3, 0, m);
    proof {
        assert(dir@ =~= rest3@.take(m as int));
        vstd::seq::axiom_seq_push_len(Seq::<char>::empty(), '<');
        vstd::seq::axiom_seq_push_index_same(Seq::<char>::empty(), '<', 0);
        vstd::seq::axiom_seq_push_len(Seq::<char>::empty(), '>');
        vstd::seq::axiom_seq_push_index_same(Seq::<char>::empty(), '>', 0);
    }
    let mov: Move = if dir.len() == 1 && dir[0] == '<' {
        proof {
            assert(dir@ =~= seq!['<']);
        }
        Move::Left
    } else if dir.len() == 1 && dir[0] == '>' {
        proof {
            assert(dir@ =~= seq!['>']);
        }
        Move::Right
    } else {
        proof {
            if dir@ == seq!['<'] {
                assert(dir@.len() == 1 && dir@[0] == '<');
            }
            if dir@ == seq!['>'] {
                assert(dir@.len() == 1 && dir@[0] == '>');
            }
        }
        return Err(TMError::WrongLiteral(ln));
    };
    let dest_s = string_from_chars(&dest);
    if !state_exists(states, &dest_s) {
        return Err(TMError::NoSuchState(dest_s));
    }
    if !letter_exists(alphabet, &rd) || !letter_exists(alphabet, &wr) {
        return Err(TMError::NoSuchLetter(ln));
    }
    let t = Transition::new(State::new(src.clone()), rd, State::new(dest_s), wr, mov);
    proof {
        vstd::seq::axiom_seq_push_len(Seq::<TransModel>::empty(), t@);
        vstd::seq::axiom_seq_push_index_same(Seq::<TransModel>::empty(), t@, 0);
        assert(body_trans(b@, src@, ln as int, states.deep_view(), alphabet@) matches Ok(one)
            && one =~= seq![t@]);
    }
    Ok(Some(t))
}

/// The transitions one line contributes, in body order.
fn parse_trans_line(
    line: &Vec<char>,
    ln: usize,
    states: &Vec<State>,
    alphabet: &Vec<char>,
) -> (r: Result<Vec<Transition>, TMError>)
    ensures
        match r {
            Ok(ts) => line_trans(line@, ln as int, states.deep_view(), alphabet@) == Ok::<
                Seq<TransModel>,
                ErrSpec,
            >(ts.deep_view()),
            Err(e) => line_trans(line@, ln as int, states.deep_view(), alphabet@) == Err::<
                Seq<TransModel>,
                ErrSpec,
            >(e@),
        },
{
    broadcast use lemma_vec_char_deep_view;

    let ghost sdv = states.deep_view();
    let ghost av = alphabet@;
    match headed_parts(line, 't') {
        None => {
            let r: Vec<Transition> = Vec::new();
            proof {
                lemma_vec_deep_view_is(r);
                lemma_deep_of_empty::<Transition>();
            }
            Ok(r)
        },
        Some((name, payload)) => {
            let src = string_from_chars(&name);
            if !state_exists(states, &src) {
                return Err(TMError::NoSuchState(src));
            }
            let bodies = split_vec(payload, '|');
            let ghost bdv = bodies.deep_view();
            let mut acc: Vec<Transition> = Vec::new();
            proof {
                lemma_vec_deep_view_is(acc);
                lemma_deep_of_empty::<Transition>();
            }
            let mut j: usize = 0;
            while j < bodies.len()
                invariant
                    j <= bodies@.len(),
                    bdv == bodies.deep_view(),
                    sdv == states.deep_view(),
                    av == alphabet@,
                    bodies_from(bdv, 0, src@, ln as int, sdv, av) == (match bodies_from(
                        bdv,
                        j as int,
                        src@,
                        ln as int,
                        sdv,
                        av,
                    ) {
                        Ok(rest) => Ok::<Seq<TransModel>, ErrSpec>(acc.deep_view() + rest),
                        Err(e) => Err::<Seq<TransModel>, ErrSpec>(e),
                    }),
                decreases bodies@.len() - j,
            {
                let body = &bodies[j];
                proof {
                    assert(body@ == bdv[j as int]);
                }
                match parse_body(body, &src, ln, states, alphabet) {
                    Err(e) => {
                        proof {
                            assert(bodies_from(bdv, j as int, src@, ln as int, sdv, av)
                                == Err::<Seq<TransModel>, ErrSpec>(e@));
                        }
                        return Err(e);
                    },
                    Ok(opt) => {
                        proof {
                            let nxt = bodies_from(bdv, j as int + 1, src@, ln as int, sdv, av);
                            if nxt is Ok {
                                Seq::add_empty_left(Seq::<TransModel>::empty(), nxt->Ok_0);
                            }
                        }
                        match opt {
                            None => {},
                            Some(t) => {
                                let ghost prevv = acc@;
                                let ghost prev_dv = acc.deep_view();
                                let ghost tg = t;
                                acc.push(t);
                                proof {
                                    lemma_vec_deep_view_is(acc);
                                    lemma_deep_of_push(prevv, tg);
                                    Seq::add_empty_right(prev_dv, Seq::<TransModel>::empty());
                                    Seq::push_distributes_over_add(
                                        prev_dv,
                                        Seq::<TransModel>::empty(),
                                        tg@,
                                    );
                                    assert(acc.deep_view() == prev_dv + seq![tg@]);
                                    let nxt = bodies_from(
                                        bdv,
                                        j as int + 1,
                                        src@,
                                        ln as int,
                                        sdv,
                                        av,
                                    );
                                    if nxt is Ok {
                                        vstd::seq_lib::lemma_concat_associative(
                                            prev_dv,
                                            seq![tg@],
                                            nxt->Ok_0,
                                        );
                                    }
                                }
                            },
                        }
                    },
                }
                j += 1;
            }
            proof {
                assert(bodies_from(bdv, bodies@.len() as int, src@, ln as int, sdv, av) == Ok::<
                    Seq<TransModel>,
                    ErrSpec,
                >(Seq::empty()));
                Seq::add_empty_right(acc.deep_view(), Seq::<TransModel>::empty());
            }
            Ok(acc)
        },
    }
}

/// The declared transitions: those of every `[t|SRC]:` line, in file order.
pub fn collect_transitions(
    lines: &Vec<Vec<char>>,
    states: &Vec<State>,
    alphabet: &Vec<char>,
) -> (r: Result<Vec<Transition>, TMError>)
    ensures
        match r {
            Ok(ts) => trans_of(lines.deep_view(), states.deep_view(), alphabet@) == Ok::<
                Seq<TransModel>,
                ErrSpec,
            >(ts.deep_view()),
            Err(e) => trans_of(lines.deep_view(), states.deep_view(), alphabet@) == Err::<
                Seq<TransModel>,
                ErrSpec,
            >(e@),
        },
{
    broadcast use lemma_vec_char_deep_view;

    let ghost ldv = lines.deep_view();
    let ghost sdv = states.deep_view();
    let ghost av = alphabet@;
    let mut acc: Vec<Transition> = Vec::new();
    proof {
        lemma_vec_deep_view_is(acc);
        lemma_deep_of_empty::<Transition>();
    }
    let mut i: usize = 0;
    while i < lines.len()
        invariant
            i <= lines@.len(),
            ldv == lines.deep_view(),
            sdv == states.deep_view(),
            av == alphabet@,
            trans_of(ldv, sdv, av) == (match trans_from(ldv, i as int, sdv, av) {
                Ok(rest) => Ok::<Seq<TransModel>, ErrSpec>(acc.deep_view() + rest),
                Err(e) => Err::<Seq<TransModel>, ErrSpec>(e),
            }),
        decreases lines@.len() - i,
    {
        let line = &lines[i];
        proof {
            assert(line@ == ldv[i as int]);
        }
        match parse_trans_line(line, i, states, alphabet) {
            Err(e) => {
                return Err(e);
            },
            Ok(ts) => {
                let ghost tsdv = ts.deep_view();
                let ghost tsv = ts@;
                let ghost prevv = acc@;
                let ghost prev_dv = acc.deep_view();
                let mut ts = ts;
                acc.append(&mut ts);
                proof {
                    lemma_vec_deep_view_is(acc);
                    lemma_deep_of_add(prevv, tsv);
                    assert(acc.deep_view() == prev_dv + tsdv) by {
                        assert(acc@ == prevv + tsv);
                        assert(deep_of(prevv) == prev_dv);
                        assert(deep_of(tsv) == tsdv);
                    }
                    let nxt = trans_from(ldv, i as int + 1, sdv, av);
                    if nxt is Ok {
                        vstd::seq_lib::lemma_concat_associative(prev_dv, tsdv, nxt->Ok_0);
                    }
                }
            },
        }
        i += 1;
    }
    proof {
        assert(trans_from(ldv, lines@.len() as int, sdv, av) == Ok::<Seq<TransModel>, ErrSpec>(
            Seq::empty(),
        ));
        Seq::add_empty_right(acc.deep_view(), Seq::<TransModel>::empty());
    }
    Ok(acc)
}

impl TM {
    /// Build a validated automaton from the whole specification text, in the
    /// fixed pass order: states, start state, halt state, alphabet,
    /// transitions, step budget. The first offending directive aborts the
    /// build with its error; an accepted automaton equals the model the text
    /// denotes and is well formed.
    pub fn from_string(input: String) -> (r: Result<TM, TMError>)
        ensures
            match r {
                Ok(tm) => spec_build(input@) == Ok::<AutomatonModel, ErrSpec>(tm@)
                    && automaton_wf(tm@),
                Err(e) => spec_build(input@) == Err::<AutomatonModel, ErrSpec>(e@),
            },
    {
        broadcast use lemma_vec_char_deep_view;

        let chars = chars_of_str(input.as_str());
        let lines = lines_of(chars);
        let ghost ldv = spec_lines(input@);
        let states = collect_states(&lines);
        let start_name = match find_named(&lines, 'e') {
            None => {
                return Err(TMError::StartStateNotSpecified);
            },
            Some(p) => string_from_chars(&p),
        };
        if !state_exists(&states, &start_name) {
            return Err(TMError::NoSuchState(start_name));
        }
        let end_name = match find_named(&lines, 'x') {
            None => {
                return Err(TMError::EndStateNotSpecified);
            },
            Some(p) => string_from_chars(&p),
        };
        if !state_exists(&states, &end_name) {
            return Err(TMError::NoSuchState(end_name));
        }
        let alphabet = collect_alphabet(&lines);
        let transitions = match collect_transitions(&lines, &states, &alphabet) {
            Ok(ts) => ts,
            Err(e) => {
                return Err(e);
            },
        };
        let max_steps = match collect_budget(&lines) {
            Ok(b) => b,
            Err(e) => {
                return Err(e);
            },
        };
        let tm = TM {
            start: State { name: start_name },
            end: State { name: end_name },
            states,
            alphabet,
            transitions,
            config: Config { max_steps },
        };
        proof {
            assert(spec_build(input@) == Ok::<AutomatonModel, ErrSpec>(tm@));
            lemma_built_automaton_wf(input@, tm@);
        }
        Ok(tm)
    }
}


/// The tape one line contributes: `None` unless the line is a `[b|DEFAULT]:`
/// directive with a nonempty head; a tape directive whose content does not
/// hold exactly one bracketed single character is an error at line `ln`.
fn parse_tape_line(line: &Vec<char>, ln: usize) -> (r: Result<Option<Tape>, TMError>)
    ensures
        match r {
            Ok(Some(t)) => line_tape(line@, ln as int) == Ok::<Option<TapeModel>, ErrSpec>(
                Some(t@),
            ),
            Ok(None) => line_tape(line@, ln as int) == Ok::<Option<TapeModel>, ErrSpec>(None),
            Err(e) => line_tape(line@, ln as int) == Err::<Option<TapeModel>, ErrSpec>(e@),
        },
{
    match headed_parts(line, 'b') {
        None => Ok(None),
        Some((name, content)) => {
            if name.len() == 0 {
                return Ok(None);
            }
            let dflt = name[0];
            proof {
                lemma_find_char(content@, '[');
                lemma_find_char(content@, ']');
            }
            let i = find_char_in(&content, '[');
            let j = find_char_in(&content, ']');
            if !(i < content.len() && j < content.len() && j >= 2 && i == j - 2) {
                return Err(TMError::StartIndexNotSpecified(ln));
            }
            let s1 = subvec(&content, i + 1, content.len());
            proof {
                assert(s1@ =~= content@.skip(i as int + 1));
            }
            let f1 = find_char_in(&s1, '[');
            if f1 != s1.len() {
                return Err(TMError::StartIndexNotSpecified(ln));
            }
            let s2 = subvec(&content, j + 1, content.len());
            proof {
                assert(s2@ =~= content@.skip(j as int + 1));
            }
            let f2 = find_char_in(&s2, ']');
            if f2 != s2.len() {
                return Err(TMError::StartIndexNotSpecified(ln));
            }
            let mut band = subvec(&content, 0, i);
            band.push(content[i + 1]);
            let mut tail = subvec(&content, i + 3, content.len());
            band.append(&mut tail);
            proof {
                assert(band@ =~= content@.take(i as int) + seq![content@[i as int + 1]]
                    + content@.skip(i as int + 3));
            }
            let t = Tape { default: dflt, start_pos: i, band };
            proof {
                assert(line_tape(line@, ln as int) == Ok::<Option<TapeModel>, ErrSpec>(Some(t@)));
            }
            Ok(Some(t))
        },
    }
}

impl Tape {
    /// Read every `[b|DEFAULT]:` directive of the specification text into a
    /// tape, in file order. The first malformed tape directive aborts the
    /// read with its error; every accepted tape's cursor lies within its
    /// band.
    pub fn from_string(input: String) -> (r: Result<Vec<Tape>, TMError>)
        ensures
            match r {
                Ok(ts) => spec_tapes(input@) == Ok::<Seq<TapeModel>, ErrSpec>(ts.deep_view())
                    && forall|k: int|
                    0 <= k < ts@.len() ==> (#[trigger] ts@[k]).start_pos < ts@[k].band@.len(),
                Err(e) => spec_tapes(input@) == Err::<Seq<TapeModel>, ErrSpec>(e@),
            },
    {
        broadcast use lemma_vec_char_deep_view;

        let chars = chars_of_str(input.as_str());
        let lines = lines_of(chars);
        let ghost ldv = spec_lines(input@);
        let mut acc: Vec<Tape> = Vec::new();
        proof {
            lemma_vec_deep_view_is(acc);
            lemma_deep_of_empty::<Tape>();
        }
        let mut i: usize = 0;
        while i < lines.len()
            invariant
                i <= lines@.len(),
                ldv == lines.deep_view(),
                tapes_from(ldv, 0) == (match tapes_from(ldv, i as int) {
                    Ok(rest) => Ok::<Seq<TapeModel>, ErrSpec>(acc.deep_view() + rest),
                    Err(e) => Err::<Seq<TapeModel>, ErrSpec>(e),
                }),
            decreases lines@.len() - i,
        {
            let line = &lines[i];
            proof {
                assert(line@ == ldv[i as int]);
            }
            match parse_tape_line(line, i) {
                Err(e) => {
                    return Err(e);
                },
                Ok(opt) => {
                    match opt {
                        None => {},
                        Some(t) => {
                            let ghost prevv = acc@;
                            let ghost prev_dv = acc.deep_view();
                            let ghost tg = t;
                            acc.push(t);
                            proof {
                                lemma_vec_deep_view_is(acc);
                                lemma_deep_of_push(prevv, tg);
                                Seq::add_empty_right(prev_dv, Seq::<TapeModel>::empty());
                                Seq::push_distributes_over_add(
                                    prev_dv,
                                    Seq::<TapeModel>::empty(),
                                    tg@,
                                );
                                assert(acc.deep_view() == prev_dv + seq![tg@]);
                                let nxt = tapes_from(ldv, i as int + 1);
                                if nxt is Ok {
                                    vstd::seq_lib::lemma_concat_associative(
                                        prev_dv,
                                        seq![tg@],
                                        nxt->Ok_0,
                                    );
                                }
                            }
                        },
                    }
                },
            }
            i += 1;
        }
        proof {
            assert(tapes_from(ldv, lines@.len() as int) == Ok::<Seq<TapeModel>, ErrSpec>(
                Seq::empty(),
            ));
            Seq::add_empty_right(acc.deep_view(), Seq::<TapeModel>::empty());
            lemma_parsed_tapes_wf(ldv, 0, acc.deep_view());
            assert forall|k: int| 0 <= k < acc@.len() implies (#[trigger] acc@[k]).start_pos
                < acc@[k].band@.len() by {
                assert(acc.deep_view()[k] == acc@[k].deep_view());
                assert(tape_model_wf(acc.deep_view()[k]));
            }
        }
        Ok(acc)
    }
}

} // verus!
