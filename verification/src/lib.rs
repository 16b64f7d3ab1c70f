//! A small interpreter for single-tape Turing machines described in a tagged
//! textual format: `[s]` declares states, `[e]`/`[x]` the start and halt
//! states, `[a]` the alphabet, `[t|SRC]` transition rules, `[c]` an optional
//! step budget, and `[b|DEFAULT]` initial tapes. The parser builds a validated
//! automaton and tape list; the engine steps an automaton over a logically
//! bi-infinite tape until it halts, hits an undefined transition, or runs out
//! of steps.
#![verifier::loop_isolation(false)]

pub mod model;
pub mod parse;
pub mod text;
pub mod tm;
