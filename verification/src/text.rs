//! Character-sequence utilities shared by the directive scanner: searching,
//! splitting, line separation, and decimal parsing, each with a spec-level
//! definition and a verified executable counterpart.

use vstd::prelude::*;

verus! {

use vstd::string::StrSliceExecFns;

/// A vector of characters models the sequence of its characters, whichever
/// way it is viewed.
pub broadcast proof fn lemma_vec_char_deep_view(v: Vec<char>)
    ensures
        #[trigger] v.deep_view() == v@,
{
    assert(v.deep_view() =~= v@);
}

/// Index of the first occurrence of `c` in `s`, or `s.len()` if `c` does not
/// occur.
pub open spec fn find_char(s: Seq<char>, c: char) -> int
    decreases s.len(),
{
    if s.len() == 0 {
        0
    } else if s[0] == c {
        0
    } else {
        1 + find_char(s.drop_first(), c)
    }
}

pub proof fn lemma_find_char(s: Seq<char>, c: char)
    ensures
        0 <= find_char(s, c) <= s.len(),
        find_char(s, c) < s.len() ==> s[find_char(s, c)] == c,
        forall|j: int| 0 <= j < find_char(s, c) ==> s[j] != c,
    decreases s.len(),
{
    if s.len() == 0 {
    } else if s[0] == c {
    } else {
        lemma_find_char(s.drop_first(), c);
        let f = find_char(s, c);
        assert(f == 1 + find_char(s.drop_first(), c));
        if f < s.len() {
            assert(s[f] == s.drop_first()[f - 1]);
        }
        assert forall|j: int| 0 <= j < f implies s[j] != c by {
            if j > 0 {
                assert(s[j] == s.drop_first()[j - 1]);
            }
        }
    }
}

pub fn find_char_in(v: &Vec<char>, c: char) -> (r: usize)
    ensures
        r as int == find_char(v@, c),
{
    proof {
        lemma_find_char(v@, c);
    }
    let mut i: usize = 0;
    while i < v.len()
        invariant
            i <= v@.len(),
            forall|j: int| 0 <= j < i ==> v@[j] != c,
        decreases v@.len() - i,
    {
        if v[i] == c {
            return i;
        }
        i += 1;
    }
    i
}

/// Index of the first occurrence of the arrow `->(` in `s`; `s.len()` if the
/// arrow does not occur.
pub open spec fn find_arrow(s: Seq<char>) -> int
    decreases s.len(),
{
    if s.len() < 3 {
        s.len() as int
    } else if s[0] == '-' && s[1] == '>' && s[2] == '(' {
        0
    } else {
        1 + find_arrow(s.drop_first())
    }
}

pub open spec fn arrow_at(s: Seq<char>, j: int) -> bool {
    0 <= j && j + 3 <= s.len() && s[j] == '-' && s[j + 1] == '>' && s[j + 2] == '('
}

pub proof fn lemma_find_arrow(s: Seq<char>)
    ensures
        0 <= find_arrow(s) <= s.len(),
        find_arrow(s) + 3 <= s.len() || find_arrow(s) == s.len(),
        find_arrow(s) + 3 <= s.len() ==> arrow_at(s, find_arrow(s)),
        forall|j: int| 0 <= j < find_arrow(s) ==> !arrow_at(s, j),
    decreases s.len(),
{
    if s.len() < 3 {
    } else if s[0] == '-' && s[1] == '>' && s[2] == '(' {
    } else {
        lemma_find_arrow(s.drop_first());
        let f = find_arrow(s);
        assert(f == 1 + find_arrow(s.drop_first()));
        if f + 3 <= s.len() {
            assert(s[f] == s.drop_first()[f - 1]);
            assert(s[f + 1] == s.drop_first()[f]);
            assert(s[f + 2] == s.drop_first()[f + 1]);
        }
        assert forall|j: int| 0 <= j < f implies !arrow_at(s, j) by {
            if j > 0 && arrow_at(s, j) {
                assert(s.drop_first()[j - 1] == s[j]);
                assert(s.drop_first()[j] == s[j + 1]);
                assert(s.drop_first()[j + 1] == s[j + 2]);
                assert(arrow_at(s.drop_first(), j - 1));
            }
        }
    }
}

pub fn find_arrow_in(v: &Vec<char>) -> (r: usize)
    ensures
        r as int == find_arrow(v@),
{
    proof {
        lemma_find_arrow(v@);
    }
    if v.len() < 3 {
        return v.len();
    }
    let n = v.len();
    let mut i: usize = 0;
    while i <= n - 3
        invariant
            n == v@.len(),
            v@.len() >= 3,
            i <= v@.len(),
            forall|j: int| 0 <= j < i ==> !arrow_at(v@, j),
        decreases v@.len() - i,
    {
        if v[i] == '-' && v[i + 1] == '>' && v[i + 2] == '(' {
            assert(arrow_at(v@, i as int));
            return i;
        }
        assert(!arrow_at(v@, i as int));
        i += 1;
    }
    assert(forall|j: int| 0 <= j < v@.len() ==> !arrow_at(v@, j));
    v.len()
}

/// A copy of `v[from..to]`.
pub fn subvec(v: &Vec<char>, from: usize, to: usize) -> (r: Vec<char>)
    requires
        from <= to <= v@.len(),
    ensures
        r@ == v@.subrange(from as int, to as int),
{
    let mut r: Vec<char> = Vec::new();
    let mut i: usize = from;
    while i < to
        invariant
            from <= i <= to <= v@.len(),
            r@ == v@.subrange(from as int, i as int),
        decreases to - i,
    {
        r.push(v[i]);
        i += 1;
        proof {
            assert(r@ =~= v@.subrange(from as int, i as int));
        }
    }
    r
}

/// The pieces of `s` between occurrences of the separator `c`; an empty `s`
/// yields one empty piece, as `str::split` does.
pub open spec fn split_on(s: Seq<char>, c: char) -> Seq<Seq<char>>
    decreases s.len(),
{
    let i = find_char(s, c);
    if i == s.len() {
        seq![s]
    } else {
        proof {
            lemma_find_char(s, c);
        }
        seq![s.take(i)] + split_on(s.skip(i + 1), c)
    }
}

pub fn split_vec(v: Vec<char>, c: char) -> (r: Vec<Vec<char>>)
    ensures
        r.deep_view() == split_on(v@, c),
    decreases v@.len(),
{
    broadcast use lemma_vec_char_deep_view;

    proof {
        lemma_find_char(v@, c);
    }
    let ghost vs = v@;
    let i = find_char_in(&v, c);
    if i == v.len() {
        let mut r: Vec<Vec<char>> = Vec::new();
        r.push(v);
        proof {
            assert(r.deep_view() =~= seq![vs]);
        }
        r
    } else {
        let head = subvec(&v, 0, i);
        let tail = subvec(&v, i + 1, v.len());
        let mut rest = split_vec(tail, c);
        rest.insert(0, head);
        proof {
            assert(vs.take(i as int) == vs.subrange(0, i as int));
            assert(rest.deep_view() =~= seq![vs.take(i as int)] + split_on(vs.skip(i as int + 1), c));
        }
        rest
    }
}

/// A line with a trailing carriage return removed, as `str::lines` strips it
/// before a line feed.
pub open spec fn strip_cr(l: Seq<char>) -> Seq<char> {
    if l.len() > 0 && l.last() == '\r' {
        l.drop_last()
    } else {
        l
    }
}

/// The lines of `s`, separated by `'\n'`, each with a carriage return before
/// the separator stripped; a final line without a separator is kept as is,
/// and a trailing separator adds no empty line. This matches `str::lines`.
pub open spec fn spec_lines(s: Seq<char>) -> Seq<Seq<char>>
    decreases s.len(),
{
    if s.len() == 0 {
        Seq::empty()
    } else {
        let i = find_char(s, '\n');
        if i == s.len() {
            seq![s]
        } else {
            proof {
                lemma_find_char(s, '\n');
            }
            seq![strip_cr(s.take(i))] + spec_lines(s.skip(i + 1))
        }
    }
}

pub fn lines_of(v: Vec<char>) -> (r: Vec<Vec<char>>)
    ensures
        r.deep_view() == spec_lines(v@),
    decreases v@.len(),
{
    broadcast use lemma_vec_char_deep_view;

    proof {
        lemma_find_char(v@, '\n');
    }
    let ghost vs = v@;
    if v.len() == 0 {
        let r: Vec<Vec<char>> = Vec::new();
        proof {
            assert(r.deep_view() =~= Seq::<Seq<char>>::empty());
        }
        return r;
    }
    let i = find_char_in(&v, '\n');
    if i == v.len() {
        let mut r: Vec<Vec<char>> = Vec::new();
        r.push(v);
        proof {
            assert(r.deep_view() =~= seq![vs]);
        }
        r
    } else {
        let mut head = subvec(&v, 0, i);
        if head.len() > 0 && head[head.len() - 1] == '\r' {
            head.pop();
        }
        proof {
            assert(head@ =~= strip_cr(vs.take(i as int)));
        }
        let tail = subvec(&v, i + 1, v.len());
        let mut rest = lines_of(tail);
        rest.insert(0, head);
        proof {
            assert(rest.deep_view() =~= seq![strip_cr(vs.take(i as int))] + spec_lines(
                vs.skip(i as int + 1),
            ));
        }
        rest
    }
}

pub open spec fn is_digit(c: char) -> bool {
    '0' as u32 <= c as u32 && c as u32 <= '9' as u32
}

pub open spec fn digit_val(c: char) -> int {
    c as u32 - '0' as u32
}

pub open spec fn all_digits(s: Seq<char>) -> bool {
    forall|i: int| 0 <= i < s.len() ==> is_digit(#[trigger] s[i])
}

/// The value of a digit string read in base ten.
pub open spec fn digits_val(s: Seq<char>) -> int
    decreases s.len(),
{
    if s.len() == 0 {
        0
    } else {
        digits_val(s.drop_last()) * 10 + digit_val(s.last())
    }
}

/// The number a step-budget payload denotes, if any: an optional leading `+`,
/// then one or more decimal digits whose value fits in a `u32`, exactly as
/// `str::parse::<u32>` accepts.
pub open spec fn spec_parse_u32(s: Seq<char>) -> Option<u32> {
    let t = if s.len() > 0 && s[0] == '+' {
        s.drop_first()
    } else {
        s
    };
    if t.len() > 0 && all_digits(t) && digits_val(t) <= u32::MAX {
        Some(digits_val(t) as u32)
    } else {
        None
    }
}

proof fn lemma_digits_val_nonneg(s: Seq<char>)
    requires
        all_digits(s),
    ensures
        digits_val(s) >= 0,
    decreases s.len(),
{
    if s.len() > 0 {
        assert(all_digits(s.drop_last()));
        lemma_digits_val_nonneg(s.drop_last());
    }
}

proof fn lemma_digits_val_prefix_grows(s: Seq<char>, k: int)
    requires
        all_digits(s),
        0 <= k <= s.len(),
    ensures
        digits_val(s.take(k)) <= digits_val(s),
    decreases s.len() - k,
{
    if k < s.len() {
        lemma_digits_val_prefix_grows(s, k + 1);
        assert(s.take(k + 1).drop_last() =~= s.take(k));
        assert(s.take(k + 1).last() == s[k]);
        assert(all_digits(s.take(k)));
        lemma_digits_val_nonneg(s.take(k));
        assert(digits_val(s.take(k + 1)) == digits_val(s.take(k)) * 10 + digit_val(s[k]));
    } else {
        assert(s.take(k) =~= s);
    }
}

pub fn parse_u32(v: &Vec<char>) -> (r: Option<u32>)
    ensures
        r == spec_parse_u32(v@),
{
    let start: usize = if v.len() > 0 && v[0] == '+' {
        1
    } else {
        0
    };
    let ghost t = if v@.len() > 0 && v@[0] == '+' {
        v@.drop_first()
    } else {
        v@
    };
    proof {
        assert(t =~= v@.skip(start as int));
    }
    if v.len() == start {
        return None;
    }
    let mut acc: u32 = 0;
    let mut i: usize = start;
    while i < v.len()
        invariant
            start <= i <= v@.len(),
            t == v@.skip(start as int),
            t.len() == v@.len() - start,
            all_digits(t.take(i - start)),
            acc as int == digits_val(t.take(i - start)),
        decreases v@.len() - i,
    {
        let c = v[i];
        let cv = c as u32;
        proof {
            assert(t[i - start] == c);
        }
        if !(cv >= 48 && cv <= 57) {
            assert(!is_digit(t[i - start]));
            return None;
        }
        let d: u32 = cv - 48;
        assert(is_digit(t[i - start]));
        assert(d as int == digit_val(t[i - start]));
        proof {
            assert(t.take(i - start + 1).drop_last() =~= t.take(i - start));
            assert(t.take(i - start + 1).last() == t[i - start]);
            assert(digits_val(t.take(i - start + 1)) == acc as int * 10 + d as int);
            assert(all_digits(t.take(i - start + 1)));
        }
        if acc > (u32::MAX - d) / 10 {
            proof {
                if all_digits(t) {
                    assert(acc as int >= (u32::MAX - d) as int / 10 + 1);
                    assert(((u32::MAX - d) as int / 10) * 10 + (u32::MAX - d) as int % 10 == (
                    u32::MAX - d) as int);
                    assert(acc as int * 10 + d >= u32::MAX + 1);
                    lemma_digits_val_prefix_grows(t, i - start + 1);
                    assert(digits_val(t) > u32::MAX);
                }
            }
            return None;
        }
        proof {
            assert(((u32::MAX - d) as int / 10) * 10 + (u32::MAX - d) as int % 10 == (u32::MAX
                - d) as int);
            assert(acc as int * 10 + d as int <= u32::MAX);
        }
        acc = acc * 10 + d;
        i += 1;
    }
    proof {
        assert(t.take(v@.len() - start) =~= t);
    }
    Some(acc)
}

/// Relies on `String`'s `FromIterator<char>`: collecting characters yields the
/// string of exactly those characters in order.
#[verifier::external_body]
pub fn string_from_chars(v: &Vec<char>) -> (r: String)
    ensures
        r@ == v@,
{
    v.iter().collect()
}

/// The characters of a string slice, gathered with vstd's `get_char`.
pub fn chars_of_str(s: &str) -> (r: Vec<char>)
    ensures
        r@ == s@,
{
    let n = s.unicode_len();
    let mut r: Vec<char> = Vec::new();
    let mut i: usize = 0;
    while i < n
        invariant
            i <= n,
            n == s@.len(),
            r@ == s@.take(i as int),
        decreases n - i,
    {
        let c = s.get_char(i);
        r.push(c);
        i += 1;
        proof {
            assert(r@ =~= s@.take(i as int));
        }
    }
    proof {
        assert(r@ =~= s@);
    }
    r
}

} // verus!
