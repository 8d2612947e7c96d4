//! The lexer: splits one raw command line into word and operator tokens.
//!
//! Scanning runs left to right. Whenever one of the break characters `>`,
//! `<`, `|` appears at a position other than index 0, the accumulated slice
//! (trimmed) is emitted, then the break character itself as its own token,
//! and a new slice begins. A break character at position 0 is not a split
//! point: it stays inside the first slice. If no break character is found,
//! the whole trimmed line is the single token.

use vstd::prelude::*;

verus! {

/// The three operator characters that break a command line into tokens.
pub open spec fn is_break_char(c: char) -> bool {
    c == '>' || c == '<' || c == '|'
}

/// The whitespace characters that trimming removes.
pub open spec fn is_space_char(c: char) -> bool {
    c == ' ' || c == '\t'
}

pub open spec fn trim_front(s: Seq<char>) -> Seq<char>
    decreases s.len(),
{
    if s.len() > 0 && is_space_char(s[0]) {
        trim_front(s.drop_first())
    } else {
        s
    }
}

pub open spec fn trim_back(s: Seq<char>) -> Seq<char>
    decreases s.len(),
{
    if s.len() > 0 && is_space_char(s.last()) {
        trim_back(s.drop_last())
    } else {
        s
    }
}

/// A sequence with leading and trailing whitespace removed.
pub open spec fn spec_trim(s: Seq<char>) -> Seq<char> {
    trim_back(trim_front(s))
}

/// Where the slice that is currently accumulating begins: `last` is the
/// position of the break character most recently emitted, or 0 when none has
/// been emitted yet (position 0 never holds an emitted break character).
pub open spec fn slice_lo(last: int) -> int {
    if last == 0 {
        0
    } else {
        last + 1
    }
}

/// The tokens still to be emitted when the scan stands at position `i` with
/// the most recent break position `last`.
pub open spec fn spec_lex_from(s: Seq<char>, i: int, last: int) -> Seq<Seq<char>>
    decreases s.len() - i,
{
    if i >= s.len() {
        seq![spec_trim(s.subrange(slice_lo(last), s.len() as int))]
    } else if is_break_char(s[i]) && i != 0 {
        seq![spec_trim(s.subrange(slice_lo(last), i)), seq![s[i]]] + spec_lex_from(s, i + 1, i)
    } else {
        spec_lex_from(s, i + 1, last)
    }
}

/// The token sequence of a whole line.
pub open spec fn spec_lex(s: Seq<char>) -> Seq<Seq<char>> {
    spec_lex_from(s, 0, 0)
}

/// The views of a vector of strings.
pub open spec fn views_of(v: Seq<String>) -> Seq<Seq<char>> {
    v.map_values(|t: String| t@)
}

/// The sequence with every whitespace character removed.
pub open spec fn strip_spaces(s: Seq<char>) -> Seq<char>
    decreases s.len(),
{
    if s.len() == 0 {
        Seq::empty()
    } else if is_space_char(s[0]) {
        strip_spaces(s.drop_first())
    } else {
        seq![s[0]] + strip_spaces(s.drop_first())
    }
}

/// All tokens laid end to end.
pub open spec fn concat_all(ts: Seq<Seq<char>>) -> Seq<char>
    decreases ts.len(),
{
    if ts.len() == 0 {
        Seq::empty()
    } else {
        ts[0] + concat_all(ts.drop_first())
    }
}

/// All tokens rejoined with single spaces between them.
pub open spec fn join_spaces(ts: Seq<Seq<char>>) -> Seq<char>
    decreases ts.len(),
{
    if ts.len() == 0 {
        Seq::empty()
    } else if ts.len() == 1 {
        ts[0]
    } else {
        ts[0] + seq![' '] + join_spaces(ts.drop_first())
    }
}

pub proof fn lemma_strip_concat(a: Seq<char>, b: Seq<char>)
    ensures
        strip_spaces(a + b) == strip_spaces(a) + strip_spaces(b),
    decreases a.len(),
{
    if a.len() == 0 {
        assert(a + b =~= b);
        assert(strip_spaces(a) + strip_spaces(b) =~= strip_spaces(b));
    } else {
        assert((a + b).drop_first() =~= a.drop_first() + b);
        lemma_strip_concat(a.drop_first(), b);
        if !is_space_char(a[0]) {
            assert(seq![a[0]] + (strip_spaces(a.drop_first()) + strip_spaces(b)) =~= (seq![a[0]]
                + strip_spaces(a.drop_first())) + strip_spaces(b));
        }
    }
}

proof fn lemma_strip_trim_front(s: Seq<char>)
    ensures
        strip_spaces(trim_front(s)) == strip_spaces(s),
    decreases s.len(),
{
    if s.len() > 0 && is_space_char(s[0]) {
        lemma_strip_trim_front(s.drop_first());
    }
}

proof fn lemma_strip_trim_back(s: Seq<char>)
    ensures
        strip_spaces(trim_back(s)) == strip_spaces(s),
    decreases s.len(),
{
    if s.len() > 0 && is_space_char(s.last()) {
        lemma_strip_trim_back(s.drop_last());
        assert(s =~= s.drop_last() + seq![s.last()]);
        lemma_strip_concat(s.drop_last(), seq![s.last()]);
        assert(seq![s.last()].drop_first() =~= Seq::<char>::empty());
        assert(strip_spaces(Seq::<char>::empty()) == Seq::<char>::empty());
        assert(strip_spaces(seq![s.last()]) =~= Seq::<char>::empty());
        assert(strip_spaces(s.drop_last()) + Seq::<char>::empty() =~= strip_spaces(s.drop_last()));
    }
}

/// Trimming a token changes nothing once whitespace is stripped.
pub proof fn lemma_strip_trim(s: Seq<char>)
    ensures
        strip_spaces(spec_trim(s)) == strip_spaces(s),
{
    lemma_strip_trim_back(trim_front(s));
    lemma_strip_trim_front(s);
}

/// Rejoining with single spaces and plain concatenation agree once
/// whitespace is stripped.
pub proof fn lemma_strip_join(ts: Seq<Seq<char>>)
    ensures
        strip_spaces(join_spaces(ts)) == strip_spaces(concat_all(ts)),
    decreases ts.len(),
{
    if ts.len() == 0 {
    } else if ts.len() == 1 {
        assert(concat_all(ts.drop_first()) =~= Seq::<char>::empty());
        assert(ts[0] + Seq::<char>::empty() =~= ts[0]);
    } else {
        lemma_strip_join(ts.drop_first());
        lemma_strip_concat(ts[0] + seq![' '], join_spaces(ts.drop_first()));
        lemma_strip_concat(ts[0], seq![' ']);
        lemma_strip_concat(ts[0], concat_all(ts.drop_first()));
        assert(ts[0] + seq![' '] + join_spaces(ts.drop_first()) =~= (ts[0] + seq![' '])
            + join_spaces(ts.drop_first()));
        assert(seq![' '].drop_first() =~= Seq::<char>::empty());
        assert(strip_spaces(Seq::<char>::empty()) == Seq::<char>::empty());
        assert(strip_spaces(seq![' ']) =~= Seq::<char>::empty());
        assert(strip_spaces(ts[0]) + Seq::<char>::empty() =~= strip_spaces(ts[0]));
    }
}

proof fn lemma_lex_strip_from(s: Seq<char>, i: int, last: int)
    requires
        0 <= slice_lo(last) <= i <= s.len(),
    ensures
        strip_spaces(concat_all(spec_lex_from(s, i, last))) == strip_spaces(
            s.subrange(slice_lo(last), s.len() as int),
        ),
    decreases s.len() - i,
{
    let lo = slice_lo(last);
    let n = s.len() as int;
    if i >= n {
        let t = spec_trim(s.subrange(lo, n));
        let ts = spec_lex_from(s, i, last);
        assert(ts =~= seq![t]);
        assert(ts.drop_first() =~= Seq::<Seq<char>>::empty());
        assert(concat_all(ts.drop_first()) == Seq::<char>::empty());
        assert(concat_all(ts) == t + Seq::<char>::empty());
        assert(t + Seq::<char>::empty() =~= t);
        lemma_strip_trim(s.subrange(lo, n));
    } else if is_break_char(s[i]) && i != 0 {
        lemma_lex_strip_from(s, i + 1, i);
        let head = spec_trim(s.subrange(lo, i));
        let op = seq![s[i]];
        let rest = spec_lex_from(s, i + 1, i);
        let ts = seq![head, op] + rest;
        assert(spec_lex_from(s, i, last) == ts);
        assert(ts.len() > 0 && ts[0] == head);
        assert(ts.drop_first() =~= seq![op] + rest);
        assert(concat_all(ts) == head + concat_all(seq![op] + rest));
        assert((seq![op] + rest)[0] == op);
        assert((seq![op] + rest).drop_first() =~= rest);
        assert(concat_all(seq![op] + rest) == op + concat_all(rest));
        lemma_strip_concat(head, op + concat_all(rest));
        lemma_strip_concat(op, concat_all(rest));
        lemma_strip_trim(s.subrange(lo, i));
        assert(op.drop_first() =~= Seq::<char>::empty());
        assert(strip_spaces(op.drop_first()) == Seq::<char>::empty());
        assert(!is_space_char(op[0]));
        assert(strip_spaces(op) == seq![op[0]] + Seq::<char>::empty());
        assert(strip_spaces(op) =~= op);
        // the untrimmed pieces together make up the remaining input
        assert(s.subrange(lo, n) =~= s.subrange(lo, i) + op + s.subrange(i + 1, n));
        lemma_strip_concat(s.subrange(lo, i) + op, s.subrange(i + 1, n));
        lemma_strip_concat(s.subrange(lo, i), op);
        assert(strip_spaces(s.subrange(lo, n)) == (strip_spaces(s.subrange(lo, i)) + op)
            + strip_spaces(s.subrange(i + 1, n)));
        assert(strip_spaces(head) + (op + strip_spaces(s.subrange(i + 1, n)))
            =~= (strip_spaces(s.subrange(lo, i)) + op) + strip_spaces(s.subrange(i + 1, n)));
    } else {
        lemma_lex_strip_from(s, i + 1, last);
    }
}

/// Law: lexing loses nothing but whitespace. Rejoining the tokens of `lex`
/// with single spaces reconstructs the input line up to whitespace: both
/// sides are equal once every whitespace character is removed.
pub proof fn lemma_lex_rejoin(s: Seq<char>)
    ensures
        strip_spaces(join_spaces(spec_lex(s))) == strip_spaces(s),
{
    lemma_strip_join(spec_lex(s));
    lemma_lex_strip_from(s, 0, 0);
    assert(s.subrange(0, s.len() as int) =~= s);
}

fn is_space(c: char) -> (r: bool)
    ensures
        r == is_space_char(c),
{
    c == ' ' || c == '\t'
}

/// The substring of `s` between character positions `from` and `to`, with
/// leading and trailing whitespace removed.
fn trimmed_substring(s: &str, from: usize, to: usize) -> (r: String)
    requires
        from <= to <= s@.len(),
    ensures
        r@ == spec_trim(s@.subrange(from as int, to as int)),
{
    let ghost whole = s@.subrange(from as int, to as int);
    let mut a = from;
    while a < to && is_space(s.get_char(a))
        invariant
            from <= a <= to <= s@.len(),
            trim_front(whole) == trim_front(s@.subrange(a as int, to as int)),
            whole == s@.subrange(from as int, to as int),
        decreases to - a,
    {
        proof {
            let cur = s@.subrange(a as int, to as int);
            assert(cur.drop_first() =~= s@.subrange(a + 1, to as int));
        }
        a += 1;
    }
    proof {
        let front = s@.subrange(a as int, to as int);
        if a < to {
            assert(!is_space_char(front[0]));
        }
        assert(trim_front(front) == front);
    }
    let mut b = to;
    while b > a && is_space(s.get_char(b - 1))
        invariant
            from <= a <= b <= to <= s@.len(),
            trim_back(s@.subrange(a as int, to as int)) == trim_back(
                s@.subrange(a as int, b as int),
            ),
        decreases b,
    {
        proof {
            let cur = s@.subrange(a as int, b as int);
            assert(cur.drop_last() =~= s@.subrange(a as int, b - 1));
        }
        b -= 1;
    }
    proof {
        let kept = s@.subrange(a as int, b as int);
        if b > a {
            assert(kept.last() == s@[b - 1]);
            assert(!is_space_char(kept.last()));
        }
        assert(trim_back(kept) == kept);
        assert(spec_trim(whole) == kept);
    }
    let sub = s.substring_char(a, b);
    String::from_str(sub)
}

/// Split the input line into word and operator tokens.
///
/// The result is exactly the token sequence of the scan described by
/// `spec_lex`; it always holds at least one token.
pub fn lex(cmd_line: &str) -> (r: Vec<String>)
    ensures
        views_of(r@) == spec_lex(cmd_line@),
        r@.len() >= 1,
{
    let n = cmd_line.unicode_len();
    let mut slices: Vec<String> = Vec::new();
    let mut last: usize = 0;
    let mut i: usize = 0;
    while i < n
        invariant
            n == cmd_line@.len(),
            i <= n,
            last == 0 || (0 < last && last < i && i <= n),
            views_of(slices@) + spec_lex_from(cmd_line@, i as int, last as int) == spec_lex(
                cmd_line@,
            ),
        decreases n - i,
    {
        let c = cmd_line.get_char(i);
        if (c == '>' || c == '<' || c == '|') && i != 0 {
            let lo = if last == 0 {
                0
            } else {
                last + 1
            };
            let ghost before = slices@;
            let word = trimmed_substring(cmd_line, lo, i);
            slices.push(word);
            let op = cmd_line.substring_char(i, i + 1);
            slices.push(String::from_str(op));
            proof {
                assert(op@ =~= seq![cmd_line@[i as int]]);
                assert(views_of(slices@) =~= views_of(before) + seq![
                    spec_trim(cmd_line@.subrange(slice_lo(last as int), i as int)),
                    seq![cmd_line@[i as int]],
                ]);
                assert(views_of(before) + spec_lex_from(cmd_line@, i as int, last as int)
                    == spec_lex(cmd_line@));
                assert((views_of(before) + (seq![
                    spec_trim(cmd_line@.subrange(slice_lo(last as int), i as int)),
                    seq![cmd_line@[i as int]],
                ] + spec_lex_from(cmd_line@, i + 1, i as int))) =~= (views_of(slices@)
                    + spec_lex_from(cmd_line@, i + 1, i as int)));
            }
            last = i;
        }
        i += 1;
    }
    let lo = if last == 0 {
        0
    } else {
        last + 1
    };
    let ghost before = slices@;
    let tail = trimmed_substring(cmd_line, lo, n);
    slices.push(tail);
    proof {
        assert(views_of(slices@) =~= views_of(before) + seq![
            spec_trim(cmd_line@.subrange(slice_lo(last as int), n as int)),
        ]);
        assert(views_of(before) + spec_lex_from(cmd_line@, n as int, last as int) == spec_lex(
            cmd_line@,
        ));
    }
    slices
}

} // verus!
