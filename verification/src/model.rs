//! The mathematical model of the interpreter: ghost mirrors of the automaton,
//! tape and error types, the specification-level parser for the tagged text
//! format, the specification-level step machine, and the laws proved of them.

use vstd::prelude::*;

verus! {

use crate::text::{find_char, find_arrow, split_on, spec_lines, spec_parse_u32};
use crate::tm::Move;

/// Ghost mirror of one transition rule.
pub struct TransModel {
    pub source: Seq<char>,
    pub read: char,
    pub dest: Seq<char>,
    pub write: char,
    pub mov: Move,
}

/// Ghost mirror of a built automaton.
pub struct AutomatonModel {
    pub start: Seq<char>,
    pub end: Seq<char>,
    pub states: Seq<Seq<char>>,
    pub alphabet: Seq<char>,
    pub transitions: Seq<TransModel>,
    pub max_steps: u32,
}

/// Ghost mirror of one initial tape.
pub struct TapeModel {
    pub default: char,
    pub start_pos: int,
    pub band: Seq<char>,
}

/// Ghost mirror of the error type.
pub enum ErrSpec {
    StartStateNotSpecified,
    EndStateNotSpecified,
    NoSuchState(Seq<char>),
    WrongLiteral(int),
    NoSuchLetter(int),
    StartIndexNotSpecified(int),
    TransitionNotSpecified(Seq<char>, char),
    InvalidSyntax(int),
    StepBudgetExceeded,
}

/// The step budget an automaton gets when no `[c]` directive names one.
pub const DEFAULT_STEP_BUDGET: u32 = 100000;

// ---------------------------------------------------------------------------
// Viewing vectors of modelled values
// ---------------------------------------------------------------------------

/// The sequence of models of the elements of `s`.
pub open spec fn deep_of<T: DeepView>(s: Seq<T>) -> Seq<T::V> {
    Seq::new(s.len(), |i: int| s[i].deep_view())
}

/// A vector's deep view is the sequence of its elements' models.
pub broadcast proof fn lemma_vec_deep_view_is<T: DeepView>(v: Vec<T>)
    ensures
        #[trigger] v.deep_view() == deep_of(v@),
{
    assert(v.deep_view() =~= deep_of(v@));
}

pub proof fn lemma_deep_of_empty<T: DeepView>()
    ensures
        deep_of(Seq::<T>::empty()) == Seq::<T::V>::empty(),
{
    assert(deep_of(Seq::<T>::empty()) =~= Seq::<T::V>::empty());
}

pub proof fn lemma_deep_of_push<T: DeepView>(s: Seq<T>, x: T)
    ensures
        deep_of(s.push(x)) == deep_of(s).push(x.deep_view()),
{
    vstd::seq::axiom_seq_push_len(s, x);
    vstd::seq::axiom_seq_push_len(deep_of(s), x.deep_view());
    vstd::seq::axiom_seq_push_index_same(s, x, s.len() as int);
    vstd::seq::axiom_seq_push_index_same(deep_of(s), x.deep_view(), s.len() as int);
    assert forall|k: int| 0 <= k < deep_of(s.push(x)).len() implies deep_of(s.push(x))[k]
        == deep_of(s).push(x.deep_view())[k] by {
        if k < s.len() {
            vstd::seq::axiom_seq_push_index_different(s, x, k);
            vstd::seq::axiom_seq_push_index_different(deep_of(s), x.deep_view(), k);
        }
    }
    assert(deep_of(s.push(x)) =~= deep_of(s).push(x.deep_view()));
}

pub proof fn lemma_deep_of_add<T: DeepView>(a: Seq<T>, b: Seq<T>)
    ensures
        deep_of(a + b) == deep_of(a) + deep_of(b),
{
    assert forall|k: int| 0 <= k < deep_of(a + b).len() implies deep_of(a + b)[k] == (deep_of(a)
        + deep_of(b))[k] by {
        if k < a.len() {
            assert((a + b)[k] == a[k]);
        } else {
            assert((a + b)[k] == b[k - a.len()]);
        }
    }
    assert(deep_of(a + b) =~= deep_of(a) + deep_of(b));
}

// ---------------------------------------------------------------------------
// Directive recognition
// ---------------------------------------------------------------------------

/// Whether a line is the directive `[x]:` for a single tag character `x`.
pub open spec fn is_tag_line(line: Seq<char>, x: char) -> bool {
    line.len() >= 4 && line[0] == '[' && line[1] == x && line[2] == ']' && line[3] == ':'
}

/// The payload after the `[x]:` prefix.
pub open spec fn tag_payload(line: Seq<char>) -> Seq<char> {
    line.skip(4)
}

/// Index of the `]` that closes the head of a `[x|HEAD]:` directive.
pub open spec fn headed_close(line: Seq<char>) -> int {
    3 + find_char(line.skip(3), ']')
}

/// Whether a line is the directive `[x|HEAD]:` for tag character `x`: the
/// head runs from after the `|` to the first `]`, which must be followed by
/// `:`.
pub open spec fn is_headed_line(line: Seq<char>, x: char) -> bool {
    &&& line.len() >= 3
    &&& line[0] == '['
    &&& line[1] == x
    &&& line[2] == '|'
    &&& headed_close(line) + 1 < line.len()
    &&& line[headed_close(line) + 1] == ':'
}

/// The head of a `[x|HEAD]:` directive.
pub open spec fn headed_name(line: Seq<char>) -> Seq<char> {
    line.subrange(3, headed_close(line))
}

/// The payload after the `]:` of a `[x|HEAD]:` directive.
pub open spec fn headed_payload(line: Seq<char>) -> Seq<char> {
    line.skip(headed_close(line) + 2)
}

// ---------------------------------------------------------------------------
// Semantic passes
// ---------------------------------------------------------------------------

/// The state names one line contributes: the comma-separated payload of an
/// `[s]` line, nothing from any other line.
pub open spec fn line_states(line: Seq<char>) -> Seq<Seq<char>> {
    if is_tag_line(line, 's') {
        split_on(tag_payload(line), ',')
    } else {
        Seq::empty()
    }
}

/// All declared state names, in file order, repeats kept.
pub open spec fn states_of(lines: Seq<Seq<char>>) -> Seq<Seq<char>>
    decreases lines.len(),
{
    if lines.len() == 0 {
        Seq::empty()
    } else {
        states_of(lines.drop_last()) + line_states(lines.last())
    }
}

/// The payload of the last `[x]:` line, if any; used for the start (`e`) and
/// halt (`x`) designations, where a later line overrides an earlier one.
pub open spec fn named_of(lines: Seq<Seq<char>>, x: char) -> Option<Seq<char>>
    decreases lines.len(),
{
    if lines.len() == 0 {
        None
    } else if is_tag_line(lines.last(), x) {
        Some(tag_payload(lines.last()))
    } else {
        named_of(lines.drop_last(), x)
    }
}

/// The first character of each nonempty token; empty tokens contribute no
/// symbol.
pub open spec fn firsts_of(toks: Seq<Seq<char>>) -> Seq<char>
    decreases toks.len(),
{
    if toks.len() == 0 {
        Seq::empty()
    } else {
        firsts_of(toks.drop_last()) + if toks.last().len() > 0 {
            seq![toks.last()[0]]
        } else {
            Seq::empty()
        }
    }
}

/// The alphabet symbols one line contributes.
pub open spec fn line_alphabet(line: Seq<char>) -> Seq<char> {
    if is_tag_line(line, 'a') {
        firsts_of(split_on(tag_payload(line), ','))
    } else {
        Seq::empty()
    }
}

/// All declared alphabet symbols, in file order, repeats kept.
pub open spec fn alphabet_of(lines: Seq<Seq<char>>) -> Seq<char>
    decreases lines.len(),
{
    if lines.len() == 0 {
        Seq::empty()
    } else {
        alphabet_of(lines.drop_last()) + line_alphabet(lines.last())
    }
}

/// The step budget over the lines from index `k` on, starting from `cur`:
/// each `[c]` line overrides the value so far, and the first `[c]` payload
/// that is no decimal number is an `InvalidSyntax` error at its line.
pub open spec fn budget_from(lines: Seq<Seq<char>>, k: int, cur: u32) -> Result<u32, ErrSpec>
    decreases lines.len() - k,
{
    if k < 0 || k >= lines.len() {
        Ok(cur)
    } else if is_tag_line(lines[k], 'c') {
        match spec_parse_u32(tag_payload(lines[k])) {
            Some(v) => budget_from(lines, k + 1, v),
            None => Err(ErrSpec::InvalidSyntax(k)),
        }
    } else {
        budget_from(lines, k + 1, cur)
    }
}

pub open spec fn budget_of(lines: Seq<Seq<char>>) -> Result<u32, ErrSpec> {
    budget_from(lines, 0, DEFAULT_STEP_BUDGET)
}

/// The transitions one `|`-separated body of a `[t|SRC]:` line denotes, read
/// against the declared states and alphabet. A body of the shape
/// `SYMBOL->(DEST,SYMBOL,DIR)` yields one transition; a body not of that
/// shape yields none; a body of the shape with an unknown direction literal,
/// an unknown destination state, or a symbol outside the alphabet is an
/// error at line `ln`, checked in that order.
pub open spec fn body_trans(
    b: Seq<char>,
    src: Seq<char>,
    ln: int,
    states: Seq<Seq<char>>,
    alphabet: Seq<char>,
) -> Result<Seq<TransModel>, ErrSpec> {
    let i = find_arrow(b);
    if i + 3 > b.len() || i == 0 {
        Ok(Seq::empty())
    } else {
        let read_sym = b[0];
        let rest = b.skip(i + 3);
        let j = find_char(rest, ',');
        if j >= rest.len() {
            Ok(Seq::empty())
        } else {
            let dest = rest.take(j);
            let rest2 = rest.skip(j + 1);
            let j2 = find_char(rest2, ',');
            if j2 >= rest2.len() || j2 == 0 {
                Ok(Seq::empty())
            } else {
                let write_sym = rest2[0];
                let rest3 = rest2.skip(j2 + 1);
                let m = find_char(rest3, ')');
                if m >= rest3.len() {
                    Ok(Seq::empty())
                } else {
                    let dir = rest3.take(m);
                    if dir != seq!['<'] && dir != seq!['>'] {
                        Err(ErrSpec::WrongLiteral(ln))
                    } else if !states.contains(dest) {
                        Err(ErrSpec::NoSuchState(dest))
                    } else if !alphabet.contains(read_sym) || !alphabet.contains(write_sym) {
                        Err(ErrSpec::NoSuchLetter(ln))
                    } else {
                        Ok(
                            seq![
                                TransModel {
                                    source: src,
                                    read: read_sym,
                                    dest: dest,
                                    write: write_sym,
                                    mov: if dir == seq!['<'] {
                                        Move::Left
                                    } else {
                                        Move::Right
                                    },
                                },
                            ],
                        )
                    }
                }
            }
        }
    }
}

/// The transitions of the bodies from index `k` on, in order, stopping at
/// the first erroneous body.
pub open spec fn bodies_from(
    bodies: Seq<Seq<char>>,
    k: int,
    src: Seq<char>,
    ln: int,
    states: Seq<Seq<char>>,
    alphabet: Seq<char>,
) -> Result<Seq<TransModel>, ErrSpec>
    decreases bodies.len() - k,
{
    if k < 0 || k >= bodies.len() {
        Ok(Seq::empty())
    } else {
        match body_trans(bodies[k], src, ln, states, alphabet) {
            Err(e) => Err(e),
            Ok(ts) => match bodies_from(bodies, k + 1, src, ln, states, alphabet) {
                Err(e) => Err(e),
                Ok(rest) => Ok(ts + rest),
            },
        }
    }
}

/// The transitions one line contributes: nothing unless it is a `[t|SRC]:`
/// line; an unknown source is an error; otherwise its bodies, split on `|`.
pub open spec fn line_trans(
    line: Seq<char>,
    ln: int,
    states: Seq<Seq<char>>,
    alphabet: Seq<char>,
) -> Result<Seq<TransModel>, ErrSpec> {
    if !is_headed_line(line, 't') {
        Ok(Seq::empty())
    } else {
        let src = headed_name(line);
        if !states.contains(src) {
            Err(ErrSpec::NoSuchState(src))
        } else {
            bodies_from(split_on(headed_payload(line), '|'), 0, src, ln, states, alphabet)
        }
    }
}

/// All transitions of the lines from index `k` on, in file order, stopping at
/// the first erroneous line.
pub open spec fn trans_from(
    lines: Seq<Seq<char>>,
    k: int,
    states: Seq<Seq<char>>,
    alphabet: Seq<char>,
) -> Result<Seq<TransModel>, ErrSpec>
    decreases lines.len() - k,
{
    if k < 0 || k >= lines.len() {
        Ok(Seq::empty())
    } else {
        match line_trans(lines[k], k, states, alphabet) {
            Err(e) => Err(e),
            Ok(ts) => match trans_from(lines, k + 1, states, alphabet) {
                Err(e) => Err(e),
                Ok(rest) => Ok(ts + rest),
            },
        }
    }
}

pub open spec fn trans_of(
    lines: Seq<Seq<char>>,
    states: Seq<Seq<char>>,
    alphabet: Seq<char>,
) -> Result<Seq<TransModel>, ErrSpec> {
    trans_from(lines, 0, states, alphabet)
}

/// What building an automaton from the specification text yields: the passes
/// of the semantic builder in their fixed order, each failing fast.
pub open spec fn spec_build(text: Seq<char>) -> Result<AutomatonModel, ErrSpec> {
    let lines = spec_lines(text);
    let states = states_of(lines);
    match named_of(lines, 'e') {
        None => Err(ErrSpec::StartStateNotSpecified),
        Some(start) => if !states.contains(start) {
            Err(ErrSpec::NoSuchState(start))
        } else {
            match named_of(lines, 'x') {
                None => Err(ErrSpec::EndStateNotSpecified),
                Some(end) => if !states.contains(end) {
                    Err(ErrSpec::NoSuchState(end))
                } else {
                    let alphabet = alphabet_of(lines);
                    match trans_of(lines, states, alphabet) {
                        Err(e) => Err(e),
                        Ok(ts) => match budget_of(lines) {
                            Err(e) => Err(e),
                            Ok(b) => Ok(
                                AutomatonModel {
                                    start: start,
                                    end: end,
                                    states: states,
                                    alphabet: alphabet,
                                    transitions: ts,
                                    max_steps: b,
                                },
                            ),
                        },
                    }
                },
            }
        },
    }
}

// ---------------------------------------------------------------------------
// Tapes
// ---------------------------------------------------------------------------

/// The tape a `[b|DEFAULT]:` payload denotes: the content must hold exactly
/// one `[`, with the matching `]` exactly two characters later, so that the
/// brackets enclose a single character; that character's position in the
/// bracket-stripped band is the cursor. Any other bracket placement, or no
/// bracket at all, is a `StartIndexNotSpecified` error at line `ln`.
pub open spec fn tape_content(content: Seq<char>, dflt: char, ln: int) -> Result<
    TapeModel,
    ErrSpec,
> {
    let i = find_char(content, '[');
    let j = find_char(content, ']');
    if i + 2 < content.len() && j == i + 2 && find_char(content.skip(i + 1), '[') == content.skip(
        i + 1,
    ).len() && find_char(content.skip(j + 1), ']') == content.skip(j + 1).len() {
        Ok(
            TapeModel {
                default: dflt,
                start_pos: i,
                band: content.take(i) + seq![content[i + 1]] + content.skip(i + 3),
            },
        )
    } else {
        Err(ErrSpec::StartIndexNotSpecified(ln))
    }
}

/// The tape one line contributes: nothing unless it is a `[b|DEFAULT]:` line
/// with a nonempty head, whose first character is the default symbol.
pub open spec fn line_tape(line: Seq<char>, ln: int) -> Result<Option<TapeModel>, ErrSpec> {
    if is_headed_line(line, 'b') && headed_name(line).len() > 0 {
        match tape_content(headed_payload(line), headed_name(line)[0], ln) {
            Ok(t) => Ok(Some(t)),
            Err(e) => Err(e),
        }
    } else {
        Ok(None)
    }
}

/// All tapes of the lines from index `k` on, in file order, stopping at the
/// first erroneous line.
pub open spec fn tapes_from(lines: Seq<Seq<char>>, k: int) -> Result<Seq<TapeModel>, ErrSpec>
    decreases lines.len() - k,
{
    if k < 0 || k >= lines.len() {
        Ok(Seq::empty())
    } else {
        match line_tape(lines[k], k) {
            Err(e) => Err(e),
            Ok(opt) => match tapes_from(lines, k + 1) {
                Err(e) => Err(e),
                Ok(rest) => Ok(
                    match opt {
                        Some(t) => seq![t] + rest,
                        None => rest,
                    },
                ),
            },
        }
    }
}

/// What reading the tape directives from the specification text yields.
pub open spec fn spec_tapes(text: Seq<char>) -> Result<Seq<TapeModel>, ErrSpec> {
    tapes_from(spec_lines(text), 0)
}

/// A tape is well formed when its cursor lies within its band.
pub open spec fn tape_model_wf(t: TapeModel) -> bool {
    0 <= t.start_pos < t.band.len()
}

// ---------------------------------------------------------------------------
// Execution
// ---------------------------------------------------------------------------

/// A terminal outcome of running an automaton on a tape.
pub enum RunOutcome {
    /// The halt state was reached; the band already reflects the final write.
    Halted(Seq<char>),
    /// No transition is declared for the current state and read symbol.
    NoTransition(Seq<char>, char),
    /// The step budget ran out before the halt state was reached.
    OutOfSteps,
}

/// The first transition in declaration order for a state and read symbol.
pub open spec fn find_trans(ts: Seq<TransModel>, st: Seq<char>, sym: char) -> Option<TransModel>
    decreases ts.len(),
{
    if ts.len() == 0 {
        None
    } else if ts[0].source == st && ts[0].read == sym {
        Some(ts[0])
    } else {
        find_trans(ts.drop_first(), st, sym)
    }
}

/// One run of the step machine with `fuel` steps left: read the symbol under
/// the cursor, take the first matching transition (none: a `NoTransition`
/// outcome), write its symbol, and halt successfully if the destination is
/// the halt state — without applying the move. Otherwise move, extending the
/// band with the default symbol when the cursor leaves it: moving left at
/// position zero prepends a cell and keeps the cursor at zero, and moving
/// right past the last cell appends one.
pub open spec fn spec_run(
    m: AutomatonModel,
    st: Seq<char>,
    pos: int,
    band: Seq<char>,
    dflt: char,
    fuel: nat,
) -> RunOutcome
    decreases fuel,
{
    if fuel == 0 {
        RunOutcome::OutOfSteps
    } else {
        let sym = band[pos];
        match find_trans(m.transitions, st, sym) {
            None => RunOutcome::NoTransition(st, sym),
            Some(t) => {
                let band2 = band.update(pos, t.write);
                if t.dest == m.end {
                    RunOutcome::Halted(band2)
                } else if t.mov == Move::Left {
                    if pos == 0 {
                        spec_run(m, t.dest, 0, seq![dflt] + band2, dflt, (fuel - 1) as nat)
                    } else {
                        spec_run(m, t.dest, pos - 1, band2, dflt, (fuel - 1) as nat)
                    }
                } else {
                    if pos + 1 >= band2.len() {
                        spec_run(m, t.dest, pos + 1, band2 + seq![dflt], dflt, (fuel - 1) as nat)
                    } else {
                        spec_run(m, t.dest, pos + 1, band2, dflt, (fuel - 1) as nat)
                    }
                }
            },
        }
    }
}

/// The outcome of one whole run: from the automaton's start state, the
/// tape's cursor and band, with the automaton's step budget as fuel.
pub open spec fn spec_execute(m: AutomatonModel, t: TapeModel) -> RunOutcome {
    spec_run(m, m.start, t.start_pos, t.band, t.default, m.max_steps as nat)
}

// ---------------------------------------------------------------------------
// Laws
// ---------------------------------------------------------------------------

pub open spec fn trans_model_wf(t: TransModel, states: Seq<Seq<char>>, alphabet: Seq<char>) -> bool {
    &&& states.contains(t.source)
    &&& states.contains(t.dest)
    &&& alphabet.contains(t.read)
    &&& alphabet.contains(t.write)
}

/// An automaton is well formed when its start and halt states are declared
/// states and every transition's states and symbols are declared.
pub open spec fn automaton_wf(m: AutomatonModel) -> bool {
    &&& m.states.contains(m.start)
    &&& m.states.contains(m.end)
    &&& forall|i: int|
        0 <= i < m.transitions.len() ==> trans_model_wf(
            #[trigger] m.transitions[i],
            m.states,
            m.alphabet,
        )
}

proof fn lemma_body_trans_wf(
    b: Seq<char>,
    src: Seq<char>,
    ln: int,
    states: Seq<Seq<char>>,
    alphabet: Seq<char>,
    ts: Seq<TransModel>,
)
    requires
        states.contains(src),
        body_trans(b, src, ln, states, alphabet) == Ok::<Seq<TransModel>, ErrSpec>(ts),
    ensures
        forall|i: int| 0 <= i < ts.len() ==> trans_model_wf(#[trigger] ts[i], states, alphabet),
{
    let i = find_arrow(b);
    if !(i + 3 > b.len() || i == 0) {
        let read_sym = b[0];
        let rest = b.skip(i + 3);
        let j = find_char(rest, ',');
        if !(j >= rest.len()) {
            let dest = rest.take(j);
            let rest2 = rest.skip(j + 1);
            let j2 = find_char(rest2, ',');
            if !(j2 >= rest2.len() || j2 == 0) {
                let write_sym = rest2[0];
                let rest3 = rest2.skip(j2 + 1);
                let m = find_char(rest3, ')');
                if !(m >= rest3.len()) {
                    let dir = rest3.take(m);
                    if (dir == seq!['<'] || dir == seq!['>']) && states.contains(dest)
                        && alphabet.contains(read_sym) && alphabet.contains(write_sym) {
                        let mv = if dir == seq!['<'] {
                            Move::Left
                        } else {
                            Move::Right
                        };
                        let t = TransModel {
                            source: src,
                            read: read_sym,
                            dest: dest,
                            write: write_sym,
                            mov: mv,
                        };
                        let single = seq![t];
                        vstd::seq::axiom_seq_push_len(Seq::<TransModel>::empty(), t);
                        vstd::seq::axiom_seq_push_index_same(Seq::<TransModel>::empty(), t, 0);
                        assert(single.len() == 1);
                        assert(single[0] == t);
                        assert(ts == single);
                        assert(trans_model_wf(ts[0], states, alphabet));
                    }
                }
            }
        }
    }
}

proof fn lemma_bodies_from_wf(
    bodies: Seq<Seq<char>>,
    k: int,
    src: Seq<char>,
    ln: int,
    states: Seq<Seq<char>>,
    alphabet: Seq<char>,
    ts: Seq<TransModel>,
)
    requires
        states.contains(src),
        bodies_from(bodies, k, src, ln, states, alphabet) == Ok::<Seq<TransModel>, ErrSpec>(ts),
    ensures
        forall|i: int| 0 <= i < ts.len() ==> trans_model_wf(#[trigger] ts[i], states, alphabet),
    decreases bodies.len() - k,
{
    if 0 <= k < bodies.len() {
        let first = body_trans(bodies[k], src, ln, states, alphabet);
        match first {
            Err(_) => {},
            Ok(head) => {
                let rest = bodies_from(bodies, k + 1, src, ln, states, alphabet);
                match rest {
                    Err(_) => {},
                    Ok(tail) => {
                        lemma_body_trans_wf(bodies[k], src, ln, states, alphabet, head);
                        lemma_bodies_from_wf(bodies, k + 1, src, ln, states, alphabet, tail);
                        assert(ts == head + tail);
                        assert forall|i: int| 0 <= i < ts.len() implies trans_model_wf(
                            #[trigger] ts[i],
                            states,
                            alphabet,
                        ) by {
                            if i < head.len() {
                                assert(ts[i] == head[i]);
                            } else {
                                assert(ts[i] == tail[i - head.len()]);
                            }
                        }
                    },
                }
            },
        }
    }
}

proof fn lemma_line_trans_wf(
    line: Seq<char>,
    ln: int,
    states: Seq<Seq<char>>,
    alphabet: Seq<char>,
    ts: Seq<TransModel>,
)
    requires
        line_trans(line, ln, states, alphabet) == Ok::<Seq<TransModel>, ErrSpec>(ts),
    ensures
        forall|i: int| 0 <= i < ts.len() ==> trans_model_wf(#[trigger] ts[i], states, alphabet),
{
    if is_headed_line(line, 't') && states.contains(headed_name(line)) {
        lemma_bodies_from_wf(
            split_on(headed_payload(line), '|'),
            0,
            headed_name(line),
            ln,
            states,
            alphabet,
            ts,
        );
    }
}

proof fn lemma_trans_from_wf(
    lines: Seq<Seq<char>>,
    k: int,
    states: Seq<Seq<char>>,
    alphabet: Seq<char>,
    ts: Seq<TransModel>,
)
    requires
        trans_from(lines, k, states, alphabet) == Ok::<Seq<TransModel>, ErrSpec>(ts),
    ensures
        forall|i: int| 0 <= i < ts.len() ==> trans_model_wf(#[trigger] ts[i], states, alphabet),
    decreases lines.len() - k,
{
    if 0 <= k < lines.len() {
        match line_trans(lines[k], k, states, alphabet) {
            Err(_) => {},
            Ok(head) => {
                match trans_from(lines, k + 1, states, alphabet) {
                    Err(_) => {},
                    Ok(tail) => {
                        lemma_line_trans_wf(lines[k], k, states, alphabet, head);
                        lemma_trans_from_wf(lines, k + 1, states, alphabet, tail);
                        assert(ts == head + tail);
                        assert forall|i: int| 0 <= i < ts.len() implies trans_model_wf(
                            #[trigger] ts[i],
                            states,
                            alphabet,
                        ) by {
                            if i < head.len() {
                                assert(ts[i] == head[i]);
                            } else {
                                assert(ts[i] == tail[i - head.len()]);
                            }
                        }
                    },
                }
            },
        }
    }
}

/// Every automaton the builder accepts is well formed: its start and halt
/// states are members of its declared states, and every transition's source
/// and destination states and read and write symbols are declared. A
/// specification violating this is rejected with an error.
pub proof fn lemma_built_automaton_wf(text: Seq<char>, m: AutomatonModel)
    requires
        spec_build(text) == Ok::<AutomatonModel, ErrSpec>(m),
    ensures
        automaton_wf(m),
{
    let lines = spec_lines(text);
    let states = states_of(lines);
    let alphabet = alphabet_of(lines);
    match trans_of(lines, states, alphabet) {
        Err(_) => {},
        Ok(ts) => {
            lemma_trans_from_wf(lines, 0, states, alphabet, ts);
        },
    }
}

/// Every tape the parser accepts is well formed: its cursor lies within its
/// band, so a run's first read is in range.
pub proof fn lemma_parsed_tapes_wf(lines: Seq<Seq<char>>, k: int, ts: Seq<TapeModel>)
    requires
        tapes_from(lines, k) == Ok::<Seq<TapeModel>, ErrSpec>(ts),
    ensures
        forall|i: int| 0 <= i < ts.len() ==> tape_model_wf(#[trigger] ts[i]),
    decreases lines.len() - k,
{
    if 0 <= k < lines.len() {
        match line_tape(lines[k], k) {
            Err(_) => {},
            Ok(opt) => {
                match tapes_from(lines, k + 1) {
                    Err(_) => {},
                    Ok(rest) => {
                        lemma_parsed_tapes_wf(lines, k + 1, rest);
                        match opt {
                            None => {},
                            Some(t) => {
                                assert(ts == seq![t] + rest);
                                let content = headed_payload(lines[k]);
                                crate::text::lemma_find_char(content, '[');
                                assert(tape_model_wf(t));
                                assert forall|i: int| 0 <= i < ts.len() implies tape_model_wf(
                                    #[trigger] ts[i],
                                ) by {
                                    if i == 0 {
                                        assert(ts[i] == t);
                                    } else {
                                        assert(ts[i] == rest[i - 1]);
                                    }
                                }
                            },
                        }
                    },
                }
            },
        }
    }
}

/// Appending one line extends the collected states by that line's names.
pub proof fn lemma_states_of_snoc(lines: Seq<Seq<char>>, l: Seq<char>)
    ensures
        states_of(lines.push(l)) == states_of(lines) + line_states(l),
{
    vstd::seq::axiom_seq_push_len(lines, l);
    assert(lines.push(l).drop_last() =~= lines);
    assert(lines.push(l).last() == l);
}

/// Appending one line extends the collected alphabet by that line's symbols.
pub proof fn lemma_alphabet_of_snoc(lines: Seq<Seq<char>>, l: Seq<char>)
    ensures
        alphabet_of(lines.push(l)) == alphabet_of(lines) + line_alphabet(l),
{
    vstd::seq::axiom_seq_push_len(lines, l);
    assert(lines.push(l).drop_last() =~= lines);
    assert(lines.push(l).last() == l);
}

/// Appending one token extends the collected first characters by at most one.
pub proof fn lemma_firsts_of_snoc(toks: Seq<Seq<char>>, tk: Seq<char>)
    ensures
        firsts_of(toks.push(tk)) == firsts_of(toks) + if tk.len() > 0 {
            seq![tk[0]]
        } else {
            Seq::<char>::empty()
        },
{
    vstd::seq::axiom_seq_push_len(toks, tk);
    assert(toks.push(tk).drop_last() =~= toks);
    assert(toks.push(tk).last() == tk);
}

/// Appending one line overrides the named designation when the line carries
/// the tag, and keeps it otherwise.
pub proof fn lemma_named_of_snoc(lines: Seq<Seq<char>>, l: Seq<char>, x: char)
    ensures
        named_of(lines.push(l), x) == if is_tag_line(l, x) {
            Some(tag_payload(l))
        } else {
            named_of(lines, x)
        },
{
    vstd::seq::axiom_seq_push_len(lines, l);
    assert(lines.push(l).drop_last() =~= lines);
    assert(lines.push(l).last() == l);
}

/// Determinism of transition resolution: when two or more declared
/// transitions share a `(source state, read symbol)` pair, the one earliest
/// in file order is the one every step selects. Stated of any index `i`
/// whose earlier transitions all miss the pair: the lookup yields exactly
/// the transition at `i`.
pub proof fn lemma_first_transition_wins(ts: Seq<TransModel>, st: Seq<char>, sym: char, i: int)
    requires
        0 <= i < ts.len(),
        ts[i].source == st,
        ts[i].read == sym,
        forall|j: int| 0 <= j < i ==> !(ts[j].source == st && ts[j].read == sym),
    ensures
        find_trans(ts, st, sym) == Some(ts[i]),
    decreases i,
{
    if i == 0 {
    } else {
        assert(!(ts[0].source == st && ts[0].read == sym));
        assert forall|j: int| 0 <= j < i - 1 implies !(ts.drop_first()[j].source == st
            && ts.drop_first()[j].read == sym) by {
            assert(ts.drop_first()[j] == ts[j + 1]);
        }
        lemma_first_transition_wins(ts.drop_first(), st, sym, i - 1);
        assert(ts.drop_first()[i - 1] == ts[i]);
    }
}

} // verus!
