//! The word splitter: turns one command token into its words.
//!
//! One quoting level is honoured. Outside quotes, a space not preceded by a
//! backslash ends the current word, and a double quote not preceded by a
//! backslash opens quoted mode (the quote itself belongs to no word). Inside
//! quoted mode the next double quote closes the span, which becomes a single
//! word verbatim, spaces included. Empty words between separators are
//! dropped. After splitting, the two-character sequence `\n` in each word is
//! decoded to a literal newline; no other escape is decoded.

use vstd::prelude::*;
use crate::lexer::views_of;

verus! {

/// The words still to be emitted when the scan stands at position `i`, the
/// current word began at `lastword`, and `quoted` says whether a quoted span
/// is open.
pub open spec fn spec_split_from(s: Seq<char>, i: int, lastword: int, quoted: bool) -> Seq<
    Seq<char>,
>
    decreases s.len() - i,
{
    if i >= s.len() {
        if lastword != s.len() {
            seq![s.subrange(lastword, s.len() as int)]
        } else {
            Seq::empty()
        }
    } else if !quoted {
        if i == 0 {
            if s[0] == '"' {
                spec_split_from(s, 1, 1, true)
            } else {
                spec_split_from(s, 1, 0, false)
            }
        } else if s[i] == '"' && s[i - 1] != '\\' {
            spec_split_from(s, i + 1, i + 1, true)
        } else if s[i] == ' ' && s[i - 1] != '\\' {
            if s.subrange(lastword, i).len() != 0 {
                seq![s.subrange(lastword, i)] + spec_split_from(s, i + 1, i + 1, false)
            } else {
                spec_split_from(s, i + 1, i + 1, false)
            }
        } else {
            spec_split_from(s, i + 1, lastword, false)
        }
    } else {
        if s[i] == '"' {
            seq![s.subrange(lastword, i)] + spec_split_from(s, i + 1, i + 1, false)
        } else {
            spec_split_from(s, i + 1, lastword, true)
        }
    }
}

/// The raw word sequence of a token, before escape decoding.
pub open spec fn spec_split_raw(s: Seq<char>) -> Seq<Seq<char>> {
    spec_split_from(s, 0, 0, false)
}

/// The two-character sequence `\n` decoded to a literal newline, left to
/// right, with no other change.
pub open spec fn decode_newlines(s: Seq<char>) -> Seq<char>
    decreases s.len(),
{
    if s.len() >= 2 && s[0] == '\\' && s[1] == 'n' {
        seq!['\n'] + decode_newlines(s.subrange(2, s.len() as int))
    } else if s.len() >= 1 {
        seq![s[0]] + decode_newlines(s.subrange(1, s.len() as int))
    } else {
        Seq::empty()
    }
}

/// The words of a token: the raw splits, each with `\n` decoded.
pub open spec fn spec_split_words(s: Seq<char>) -> Seq<Seq<char>> {
    spec_split_raw(s).map_values(|w: Seq<char>| decode_newlines(w))
}

fn decode_newlines_exec(w: &str) -> (r: String)
    ensures
        r@ == decode_newlines(w@),
{
    let n = w.unicode_len();
    let mut out = String::new();
    let mut i: usize = 0;
    proof {
        assert(w@.subrange(0, n as int) =~= w@);
        assert(out@ + decode_newlines(w@) =~= decode_newlines(w@));
    }
    while i < n
        invariant
            n == w@.len(),
            i <= n,
            out@ + decode_newlines(w@.subrange(i as int, n as int)) == decode_newlines(w@),
        decreases n - i,
    {
        let ghost rest = w@.subrange(i as int, n as int);
        if i + 1 < n && w.get_char(i) == '\\' && w.get_char(i + 1) == 'n' {
            proof {
                reveal_strlit("\n");
                assert(rest.subrange(2, rest.len() as int) =~= w@.subrange(i + 2, n as int));
                assert(decode_newlines(rest) == seq!['\n'] + decode_newlines(
                    w@.subrange(i + 2, n as int),
                ));
            }
            let ghost before = out@;
            out.append("\n");
            proof {
                assert(out@ =~= before + seq!['\n']);
                assert((before + seq!['\n']) + decode_newlines(w@.subrange(i + 2, n as int))
                    =~= before + (seq!['\n'] + decode_newlines(w@.subrange(i + 2, n as int))));
            }
            i += 2;
        } else {
            proof {
                assert(rest.subrange(1, rest.len() as int) =~= w@.subrange(i + 1, n as int));
                assert(decode_newlines(rest) == seq![w@[i as int]] + decode_newlines(
                    w@.subrange(i + 1, n as int),
                ));
            }
            let c = w.substring_char(i, i + 1);
            let ghost before = out@;
            out.append(c);
            proof {
                assert(c@ =~= seq![w@[i as int]]);
                assert(out@ =~= before + seq![w@[i as int]]);
                assert((before + seq![w@[i as int]]) + decode_newlines(w@.subrange(i + 1, n as int))
                    =~= before + (seq![w@[i as int]] + decode_newlines(
                    w@.subrange(i + 1, n as int),
                )));
            }
            i += 1;
        }
    }
    proof {
        assert(w@.subrange(n as int, n as int) =~= Seq::<char>::empty());
        assert(decode_newlines(Seq::<char>::empty()) == Seq::<char>::empty());
        assert(out@ + Seq::<char>::empty() =~= out@);
    }
    out
}

/// Split one command token into words, honouring one level of double quotes
/// and decoding `\n` in each word.
pub fn split_words(words: &str) -> (r: Vec<String>)
    ensures
        views_of(r@) == spec_split_words(words@),
{
    let n = words.unicode_len();
    let mut raw: Vec<String> = Vec::new();
    let mut lastword: usize = 0;
    let mut quoted = false;
    let mut i: usize = 0;
    while i < n
        invariant
            n == words@.len(),
            i <= n,
            lastword <= i,
            views_of(raw@) + spec_split_from(words@, i as int, lastword as int, quoted)
                == spec_split_raw(words@),
        decreases n - i,
    {
        let c = words.get_char(i);
        if !quoted {
            if i == 0 {
                if c == '"' {
                    quoted = true;
                    lastword = 1;
                }
            } else {
                let prev = words.get_char(i - 1);
                if c == '"' && prev != '\\' {
                    quoted = true;
                    lastword = i + 1;
                } else if c == ' ' && prev != '\\' {
                    if lastword < i {
                        let w = words.substring_char(lastword, i);
                        let ghost before = raw@;
                        raw.push(String::from_str(w));
                        proof {
                            assert(views_of(raw@) =~= views_of(before) + seq![
                                words@.subrange(lastword as int, i as int),
                            ]);
                            assert((views_of(before) + (seq![
                                words@.subrange(lastword as int, i as int),
                            ] + spec_split_from(words@, i + 1, i + 1, false))) =~= (views_of(raw@)
                                + spec_split_from(words@, i + 1, i + 1, false)));
                        }
                    }
                    lastword = i + 1;
                }
            }
        } else {
            if c == '"' {
                let w = words.substring_char(lastword, i);
                let ghost before = raw@;
                raw.push(String::from_str(w));
                proof {
                    assert(views_of(raw@) =~= views_of(before) + seq![
                        words@.subrange(lastword as int, i as int),
                    ]);
                    assert((views_of(before) + (seq![
                        words@.subrange(lastword as int, i as int),
                    ] + spec_split_from(words@, i + 1, i + 1, false))) =~= (views_of(raw@)
                        + spec_split_from(words@, i + 1, i + 1, false)));
                }
                lastword = i + 1;
                quoted = false;
            }
        }
        i += 1;
    }
    if lastword != n {
        let w = words.substring_char(lastword, n);
        let ghost before = raw@;
        raw.push(String::from_str(w));
        proof {
            assert(views_of(raw@) =~= views_of(before) + seq![
                words@.subrange(lastword as int, n as int),
            ]);
        }
    } else {
        proof {
            assert(views_of(raw@) + Seq::<Seq<char>>::empty() =~= views_of(raw@));
        }
    }
    let ghost raw_model = spec_split_raw(words@);
    proof {
        assert(views_of(raw@) == raw_model);
    }
    let mut out: Vec<String> = Vec::new();
    let mut k: usize = 0;
    let total = raw.len();
    while k < total
        invariant
            total == raw.len(),
            k <= total,
            out@.len() == k,
            views_of(raw@) == raw_model,
            forall|j: int| 0 <= j < k ==> out@[j]@ == decode_newlines(raw_model[j]),
        decreases total - k,
    {
        let decoded = decode_newlines_exec(raw[k].as_str());
        proof {
            assert(raw@[k as int]@ == raw_model[k as int]);
        }
        out.push(decoded);
        k += 1;
    }
    proof {
        assert(views_of(out@) =~= spec_split_words(words@));
    }
    out
}

} // verus!
