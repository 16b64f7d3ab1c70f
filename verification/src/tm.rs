//! The executable data model and the execution engine: states, transitions,
//! tapes, the automaton, and the step machine that drives one automaton over
//! one tape to a terminal outcome.

use vstd::prelude::*;

verus! {

use vstd::pervasive::VecAdditionalExecFns;

use crate::model::{
    AutomatonModel, ErrSpec, RunOutcome, TapeModel, TransModel, find_trans, spec_execute, spec_run,
};
use crate::text::string_from_chars;

/// A move of the tape cursor after a write.
#[derive(Debug, Clone, Copy, PartialEq, Eq, Structural)]
pub enum Move {
    Left,
    Right,
}

/// An error of building or running an automaton. Line indices are 0-based.
#[derive(Debug, Clone, PartialEq, Eq)]
pub enum TMError {
    StartStateNotSpecified,
    EndStateNotSpecified,
    NoSuchState(String),
    WrongLiteral(usize),
    NoSuchLetter(usize),
    StartIndexNotSpecified(usize),
    TransitionNotSpecified(String, char),
    InvalidSyntax(usize),
    StepBudgetExceeded,
}

impl View for TMError {
    type V = ErrSpec;

    open spec fn view(&self) -> ErrSpec {
        match self {
            TMError::StartStateNotSpecified => ErrSpec::StartStateNotSpecified,
            TMError::EndStateNotSpecified => ErrSpec::EndStateNotSpecified,
            TMError::NoSuchState(s) => ErrSpec::NoSuchState(s@),
            TMError::WrongLiteral(l) => ErrSpec::WrongLiteral(*l as int),
            TMError::NoSuchLetter(l) => ErrSpec::NoSuchLetter(*l as int),
            TMError::StartIndexNotSpecified(l) => ErrSpec::StartIndexNotSpecified(*l as int),
            TMError::TransitionNotSpecified(s, c) => ErrSpec::TransitionNotSpecified(s@, *c),
            TMError::InvalidSyntax(l) => ErrSpec::InvalidSyntax(*l as int),
            TMError::StepBudgetExceeded => ErrSpec::StepBudgetExceeded,
        }
    }
}

/// A state of the finite control; identity is exactly name equality.
#[derive(Debug, Clone, PartialEq, Eq)]
pub struct State {
    pub name: String,
}

impl View for State {
    type V = Seq<char>;

    open spec fn view(&self) -> Seq<char> {
        self.name@
    }
}

impl DeepView for State {
    type V = Seq<char>;

    open spec fn deep_view(&self) -> Seq<char> {
        self.name@
    }
}

impl State {
    pub fn new(name: String) -> (r: State)
        ensures
            r@ == name@,
    {
        State { name }
    }
}

/// One transition rule: reading `start.1` in state `start.0` writes `end.1`,
/// enters state `end.0` and moves the cursor by `end.2`.
#[derive(Debug)]
pub struct Transition {
    pub start: (State, char),
    pub end: (State, char, Move),
}

impl View for Transition {
    type V = TransModel;

    open spec fn view(&self) -> TransModel {
        TransModel {
            source: self.start.0@,
            read: self.start.1,
            dest: self.end.0@,
            write: self.end.1,
            mov: self.end.2,
        }
    }
}

impl DeepView for Transition {
    type V = TransModel;

    open spec fn deep_view(&self) -> TransModel {
        self@
    }
}

impl Transition {
    pub fn new(start: State, input: char, end: State, output: char, mov: Move) -> (r: Transition)
        ensures
            r@ == (TransModel {
                source: start@,
                read: input,
                dest: end@,
                write: output,
                mov: mov,
            }),
    {
        Transition { start: (start, input), end: (end, output, mov) }
    }
}

/// Execution limits of an automaton.
#[derive(Debug, Clone, Copy)]
pub struct Config {
    pub max_steps: u32,
}

/// One initial tape: the materialized band, the cursor into it, and the
/// default symbol filling all cells outside the band.
#[derive(Debug, Clone)]
pub struct Tape {
    pub default: char,
    pub start_pos: usize,
    pub band: Vec<char>,
}

impl View for Tape {
    type V = TapeModel;

    open spec fn view(&self) -> TapeModel {
        TapeModel { default: self.default, start_pos: self.start_pos as int, band: self.band@ }
    }
}

impl DeepView for Tape {
    type V = TapeModel;

    open spec fn deep_view(&self) -> TapeModel {
        self@
    }
}

impl Tape {
    /// The band as concatenated symbol text, with no cursor marker.
    pub fn render(&self) -> (r: String)
        ensures
            r@ == self@.band,
    {
        string_from_chars(&self.band)
    }
}

/// A validated automaton, immutable once built and queried read-only by the
/// engine.
#[derive(Debug)]
pub struct TM {
    pub start: State,
    pub end: State,
    pub states: Vec<State>,
    pub alphabet: Vec<char>,
    pub transitions: Vec<Transition>,
    pub config: Config,
}

impl View for TM {
    type V = AutomatonModel;

    open spec fn view(&self) -> AutomatonModel {
        AutomatonModel {
            start: self.start@,
            end: self.end@,
            states: self.states.deep_view(),
            alphabet: self.alphabet@,
            transitions: self.transitions.deep_view(),
            max_steps: self.config.max_steps,
        }
    }
}

/// Whether `a` names one of the given states.
pub fn state_exists(states: &Vec<State>, a: &String) -> (r: bool)
    ensures
        r == states.deep_view().contains(a@),
{
    let mut i: usize = 0;
    while i < states.len()
        invariant
            i <= states@.len(),
            forall|j: int| 0 <= j < i ==> states.deep_view()[j] != a@,
        decreases states@.len() - i,
    {
        if states[i].name == *a {
            assert(states.deep_view()[i as int] == a@);
            return true;
        }
        i += 1;
    }
    false
}

/// Whether `a` is one of the given alphabet symbols.
pub fn letter_exists(alphabet: &Vec<char>, a: &char) -> (r: bool)
    ensures
        r == alphabet@.contains(*a),
{
    let mut i: usize = 0;
    while i < alphabet.len()
        invariant
            i <= alphabet@.len(),
            forall|j: int| 0 <= j < i ==> alphabet@[j] != *a,
        decreases alphabet@.len() - i,
    {
        if alphabet[i] == *a {
            return true;
        }
        i += 1;
    }
    false
}

impl TM {
    /// The first declared transition matching the current state and the read
    /// symbol, if any: its destination state, write symbol and move.
    fn get_transition(&self, state: &State, symbol: char) -> (r: Option<(State, char, Move)>)
        ensures
            match r {
                Some(t) => find_trans(self@.transitions, state@, symbol) matches Some(m) && m.dest
                    == t.0@ && m.write == t.1 && m.mov == t.2,
                None => find_trans(self@.transitions, state@, symbol) is None,
            },
    {
        let ghost ts = self@.transitions;
        proof {
            assert(ts.skip(0) =~= ts);
        }
        let mut i: usize = 0;
        while i < self.transitions.len()
            invariant
                i <= self.transitions@.len(),
                ts.len() == self.transitions@.len(),
                find_trans(ts, state@, symbol) == find_trans(ts.skip(i as int), state@, symbol),
            decreases self.transitions@.len() - i,
        {
            let t = &self.transitions[i];
            proof {
                assert(ts.skip(i as int)[0] == ts[i as int]);
                assert(ts.skip(i as int).drop_first() =~= ts.skip(i as int + 1));
            }
            if t.start.0.name == state.name && t.start.1 == symbol {
                assert(find_trans(ts, state@, symbol) == Some(ts[i as int]));
                let dest = State { name: t.end.0.name.clone() };
                return Some((dest, t.end.1, t.end.2));
            }
            i += 1;
        }
        proof {
            assert(ts.skip(i as int) =~= Seq::<TransModel>::empty());
        }
        None
    }

    /// Run this automaton on one tape, which the engine owns for the run:
    /// the outcome is the final tape after a successful halt, the band
    /// reflecting every write, or the error naming the undefined transition,
    /// or `StepBudgetExceeded` when the budget ran out first.
    pub fn execute(&mut self, tape: Tape) -> (r: Result<Tape, TMError>)
        requires
            (tape.start_pos as int) < tape.band@.len(),
        ensures
            *final(self) == *old(self),
            match r {
                Ok(out) => {
                    &&& spec_execute(old(self)@, tape@) == RunOutcome::Halted(out@.band)
                    &&& out@.default == tape@.default
                    &&& out@.start_pos == tape@.start_pos
                },
                Err(e) => match spec_execute(old(self)@, tape@) {
                    RunOutcome::NoTransition(st, sym) => e@ == ErrSpec::TransitionNotSpecified(
                        st,
                        sym,
                    ),
                    RunOutcome::OutOfSteps => e@ == ErrSpec::StepBudgetExceeded,
                    RunOutcome::Halted(_) => false,
                },
            },
    {
        let ghost m = self@;
        let ghost t0 = tape@;
        let mut tape = tape;
        let mut state: State = State { name: self.start.name.clone() };
        let mut pos: usize = tape.start_pos;
        let mut counter: u32 = 0;
        let max = self.config.max_steps;
        while counter < max
            invariant
                counter <= max,
                (pos as int) < tape.band@.len(),
                tape.default == t0.default,
                tape.start_pos == t0.start_pos,
                spec_execute(m, t0) == spec_run(
                    m,
                    state@,
                    pos as int,
                    tape.band@,
                    t0.default,
                    (max - counter) as nat,
                ),
            decreases max - counter,
        {
            let ghost pre_state = state@;
            let ghost pre_pos = pos as int;
            let ghost pre_band = tape.band@;
            let ghost fuel = (max - counter) as nat;
            let sym = tape.band[pos];
            match self.get_transition(&state, sym) {
                None => {
                    proof {
                        assert(spec_run(m, pre_state, pre_pos, pre_band, t0.default, fuel)
                            == RunOutcome::NoTransition(pre_state, sym));
                    }
                    return Err(TMError::TransitionNotSpecified(state.name, sym));
                },
                Some((dest, wr, mv)) => {
                    let ghost tr = find_trans(m.transitions, pre_state, sym)->Some_0;
                    tape.band.set(pos, wr);
                    let ghost band2 = tape.band@;
                    proof {
                        assert(band2 == pre_band.update(pre_pos, tr.write));
                    }
                    state = dest;
                    if state.name == self.end.name {
                        proof {
                            assert(tr.dest == m.end);
                            assert(spec_run(m, pre_state, pre_pos, pre_band, t0.default, fuel)
                                == RunOutcome::Halted(band2));
                        }
                        return Ok(tape);
                    }
                    proof {
                        assert(tr.dest != m.end);
                    }
                    match mv {
                        Move::Left => {
                            if pos == 0 {
                                let d = tape.default;
                                tape.band.insert(0, d);
                                proof {
                                    assert(tape.band@ =~= seq![t0.default] + band2);
                                }
                            } else {
                                pos -= 1;
                            }
                        },
                        Move::Right => {
                            pos += 1;
                            if pos > tape.band.len() - 1 {
                                let d = tape.default;
                                tape.band.push(d);
                                proof {
                                    assert(tape.band@ =~= band2 + seq![t0.default]);
                                }
                            }
                        },
                    }
                    counter += 1;
                    proof {
                        assert(spec_run(m, pre_state, pre_pos, pre_band, t0.default, fuel)
                            == spec_run(
                            m,
                            state@,
                            pos as int,
                            tape.band@,
                            t0.default,
                            (max - counter) as nat,
                        ));
                    }
                },
            }
        }
        Err(TMError::StepBudgetExceeded)
    }
}

} // verus!
