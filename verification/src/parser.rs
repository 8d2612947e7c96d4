//! The pipeline parser: consumes the lexer's tokens into a linked chain of
//! pipeline stages.
//!
//! The parser keeps a stack of chains built so far and three expectation
//! flags ("a write-redirect target is due", "a read-redirect target is due",
//! "a pipe target is due"). An operator token sets its flag; a word token
//! with a flag set pops the most recent chain, attaches the word at the
//! chain's terminal stage, and pushes the result back; a word token with no
//! flag set pushes a brand-new single-stage chain. The first chain on the
//! stack is the parse result.

use vstd::prelude::*;
use crate::lexer::{is_break_char, spec_lex, lex, views_of};
use crate::words::{spec_split_words, split_words};

verus! {

/// Whether a file redirection reads from or writes to its target.
#[derive(Clone, Copy, PartialEq, Eq, Structural, Debug)]
pub enum FilePermission {
    Read,
    Write,
}

/// A redirection target: a file path together with the direction.
pub struct PathType {
    pub path: String,
    pub mode: FilePermission,
}

/// The mathematical value of a redirection target.
pub ghost struct RedirectView {
    pub path: Seq<char>,
    pub mode: FilePermission,
}

impl PathType {
    pub open spec fn view(self) -> RedirectView {
        RedirectView { path: self.path@, mode: self.mode }
    }

    pub fn new(path: String, mode: FilePermission) -> (r: PathType)
        ensures
            r@ == (RedirectView { path: path@, mode }),
    {
        PathType { path, mode }
    }
}

/// The mathematical value of one pipeline stage: a program, its arguments,
/// and an optional file redirection.
pub ghost struct StageView {
    pub program: Seq<char>,
    pub argv: Seq<Seq<char>>,
    pub redirect: Option<RedirectView>,
}

/// One parsed element of a pipeline: a command, an optional link to the next
/// stage downstream, an optional file redirection, and a flag that marks the
/// terminal stage of its chain.
pub struct Cmd {
    pub program: String,
    pub argv: Vec<String>,
    pub pipe: Option<Box<Cmd>>,
    pub file: Option<PathType>,
    pub last: bool,
}

/// The stage a single word token denotes: the word is split into words, the
/// first becomes the program and the rest the arguments.
pub open spec fn stage_of(word: Seq<char>) -> StageView {
    let ws = spec_split_words(word);
    StageView {
        program: if ws.len() > 0 {
            ws[0]
        } else {
            Seq::empty()
        },
        argv: if ws.len() > 0 {
            ws.drop_first()
        } else {
            Seq::empty()
        },
        redirect: None,
    }
}

impl Cmd {
    /// The mathematical value of this stage alone.
    pub open spec fn head_view(self) -> StageView {
        StageView {
            program: self.program@,
            argv: views_of(self.argv@),
            redirect: match self.file {
                Some(p) => Some(p@),
                None => None,
            },
        }
    }

    /// The whole chain hanging off this stage, this stage first.
    pub open spec fn chain(self) -> Seq<StageView>
        decreases self,
    {
        match self.pipe {
            Some(p) => seq![self.head_view()] + p.chain(),
            None => seq![self.head_view()],
        }
    }

    /// Well-formed: exactly the terminal stage of the chain carries the
    /// `last` mark, at every link.
    pub open spec fn wf(self) -> bool
        decreases self,
    {
        &&& self.last == (self.pipe is None)
        &&& match self.pipe {
            Some(p) => p.wf(),
            None => true,
        }
    }
}

impl Cmd {
    /// The `last` marks along the chain, this stage's first.
    pub open spec fn last_flags(self) -> Seq<bool>
        decreases self,
    {
        match self.pipe {
            Some(p) => seq![self.last] + p.last_flags(),
            None => seq![self.last],
        }
    }
}

/// Law: in a well-formed chain exactly one stage is terminal, and it is the
/// final one: the `last` mark is false on every stage but the chain's end.
pub proof fn lemma_wf_unique_terminal(c: Cmd)
    requires
        c.wf(),
    ensures
        c.last_flags().len() == c.chain().len(),
        forall|i: int|
            0 <= i < c.chain().len() ==> c.last_flags()[i] == (i == c.chain().len() - 1),
    decreases c,
{
    match c.pipe {
        Some(p) => {
            lemma_wf_unique_terminal(*p);
            assert(c.chain() == seq![c.head_view()] + p.chain());
            assert(c.last_flags() == seq![false] + p.last_flags());
            assert forall|i: int| 0 <= i < c.chain().len() implies c.last_flags()[i] == (i
                == c.chain().len() - 1) by {
                if i > 0 {
                    assert(c.last_flags()[i] == p.last_flags()[i - 1]);
                }
            }
        },
        None => {
            assert(c.chain() == seq![c.head_view()]);
            assert(c.last_flags() == seq![true]);
        },
    }
}

/// A chain holds at least its own head.
pub proof fn lemma_chain_nonempty(c: Cmd)
    ensures
        c.chain().len() >= 1,
        c.chain()[0] == c.head_view(),
{
    match c.pipe {
        Some(p) => {
            assert(c.chain() == seq![c.head_view()] + p.chain());
        },
        None => {
            assert(c.chain() == seq![c.head_view()]);
        },
    }
}

/// Duplicate a vector of strings, value for value.
pub(crate) fn clone_args(v: &Vec<String>) -> (r: Vec<String>)
    ensures
        r@ == v@,
{
    let r = v.clone();
    proof {
        assert forall|i: int| 0 <= i < v@.len() implies r@[i] == v@[i] by {
            assert(cloned(v@[i], r@[i]));
        }
        assert(r@ =~= v@);
    }
    r
}

fn clone_file(v: &Option<PathType>) -> (r: Option<PathType>)
    ensures
        r == *v,
{
    match v {
        Some(p) => Some(PathType { path: p.path.clone(), mode: p.mode }),
        None => None,
    }
}

impl Cmd {
    /// A brand-new single-stage chain for one word token.
    pub fn new_stage(word: &str) -> (r: Cmd)
        ensures
            r.head_view() == stage_of(word@),
            r.pipe is None,
            r.last,
            r.wf(),
            r.chain() == seq![stage_of(word@)],
    {
        let mut argv = split_words(word);
        let program: String;
        if argv.len() > 0 {
            program = argv.remove(0);
            proof {
                let ws = spec_split_words(word@);
                assert(views_of(argv@) =~= ws.drop_first());
            }
        } else {
            program = String::new();
            proof {
                let ws = spec_split_words(word@);
                assert(views_of(argv@) =~= Seq::<Seq<char>>::empty());
                assert(ws.len() == 0);
            }
        }
        let r = Cmd { program, argv, pipe: None, file: None, last: true };
        proof {
            lemma_chain_nonempty(r);
            assert(r.chain() =~= seq![stage_of(word@)]);
        }
        r
    }

    /// Attach a redirection at the bottom of the chain: the terminal stage
    /// receives the path, every other stage is unchanged. To give an earlier
    /// stage a redirection it must be attached before pipes are tied on.
    pub fn set_path(&self, path: PathType) -> (r: Box<Cmd>)
        ensures
            r.chain().len() == self.chain().len(),
            forall|i: int| 0 <= i < self.chain().len() - 1 ==> r.chain()[i] == self.chain()[i],
            r.chain().last() == (StageView { redirect: Some(path@), ..self.chain().last() }),
            r.last == self.last,
            self.wf() ==> r.wf(),
        decreases *self,
    {
        match &self.pipe {
            Some(elem) => {
                let sub = elem.set_path(path);
                let r = Box::new(
                    Cmd {
                        program: self.program.clone(),
                        argv: clone_args(&self.argv),
                        pipe: Some(sub),
                        file: clone_file(&self.file),
                        last: self.last,
                    },
                );
                proof {
                    let p = *self.pipe.unwrap();
                    lemma_chain_nonempty(p);
                    assert(r.head_view() == self.head_view());
                    assert(r.chain() == seq![self.head_view()] + r.pipe.unwrap().chain());
                    assert(self.chain() == seq![self.head_view()] + p.chain());
                    assert(self.chain().last() == p.chain().last());
                    assert(r.chain().last() == r.pipe.unwrap().chain().last());
                    assert forall|i: int| 0 <= i < self.chain().len() - 1 implies r.chain()[i]
                        == self.chain()[i] by {
                        if i > 0 {
                            assert(r.chain()[i] == r.pipe.unwrap().chain()[i - 1]);
                            assert(self.chain()[i] == p.chain()[i - 1]);
                        }
                    }
                }
                r
            },
            None => {
                let r = Box::new(
                    Cmd {
                        program: self.program.clone(),
                        argv: clone_args(&self.argv),
                        pipe: None,
                        file: Some(path),
                        last: self.last,
                    },
                );
                proof {
                    assert(r.chain() =~= seq![r.head_view()]);
                    assert(self.chain() =~= seq![self.head_view()]);
                }
                r
            },
        }
    }

    /// Tie a new chain to the bottom of this one: the result's chain is this
    /// chain followed by the attached chain, and the terminal mark moves to
    /// the attached chain's end.
    pub fn set_pipe(&self, pipe: Box<Cmd>) -> (r: Box<Cmd>)
        ensures
            r.chain() == self.chain() + pipe.chain(),
            !r.last,
            pipe.wf() ==> r.wf(),
        decreases *self,
    {
        match &self.pipe {
            Some(elem) => {
                let ghost pipe_chain = pipe.chain();
                let sub = elem.set_pipe(pipe);
                let r = Box::new(
                    Cmd {
                        program: self.program.clone(),
                        argv: clone_args(&self.argv),
                        pipe: Some(sub),
                        file: clone_file(&self.file),
                        last: false,
                    },
                );
                proof {
                    let p = *self.pipe.unwrap();
                    assert(r.head_view() == self.head_view());
                    assert(r.chain() == seq![self.head_view()] + (p.chain() + pipe_chain));
                    assert(self.chain() == seq![self.head_view()] + p.chain());
                    assert(seq![self.head_view()] + (p.chain() + pipe_chain) =~= (seq![
                        self.head_view(),
                    ] + p.chain()) + pipe_chain);
                }
                r
            },
            None => {
                let r = Box::new(
                    Cmd {
                        program: self.program.clone(),
                        argv: clone_args(&self.argv),
                        pipe: Some(pipe),
                        file: clone_file(&self.file),
                        last: false,
                    },
                );
                proof {
                    assert(r.head_view() == self.head_view());
                    assert(self.chain() =~= seq![self.head_view()]);
                }
                r
            },
        }
    }

    /// The chain flattened into single stages, in order from this stage to
    /// the terminal one. Each element is a stand-alone one-stage chain.
    pub fn iter(&self) -> (r: Vec<Cmd>)
        ensures
            r@.len() == self.chain().len(),
            forall|i: int|
                0 <= i < r@.len() ==> (#[trigger] r@[i]).head_view() == self.chain()[i]
                    && r@[i].pipe is None && r@[i].last,
        decreases *self,
    {
        let head = Cmd {
            program: self.program.clone(),
            argv: clone_args(&self.argv),
            pipe: None,
            file: clone_file(&self.file),
            last: true,
        };
        proof {
            assert(head.head_view() == self.head_view());
            lemma_chain_nonempty(*self);
        }
        match &self.pipe {
            Some(elem) => {
                let mut rest = elem.iter();
                let mut v: Vec<Cmd> = Vec::new();
                v.push(head);
                v.append(&mut rest);
                proof {
                    let p = *self.pipe.unwrap();
                    assert(self.chain() == seq![self.head_view()] + p.chain());
                }
                v
            },
            None => {
                let mut v: Vec<Cmd> = Vec::new();
                v.push(head);
                v
            },
        }
    }
}

/// Whether a token is one of the single-character operators.
pub open spec fn is_op_token(w: Seq<char>) -> bool {
    w.len() == 1 && is_break_char(w[0])
}

/// The parser's state: the stack of chains built so far and the three
/// expectation flags.
pub ghost struct ParseState {
    pub stack: Seq<Seq<StageView>>,
    pub out_file: bool,
    pub in_file: bool,
    pub pipe: bool,
}

/// The initial parser state: empty stack, no expectation.
pub open spec fn initial_parse_state() -> ParseState {
    ParseState { stack: Seq::empty(), out_file: false, in_file: false, pipe: false }
}

/// A chain with a redirection attached at its terminal stage.
pub open spec fn set_redirect(chain: Seq<StageView>, path: Seq<char>, mode: FilePermission) -> Seq<
    StageView,
> {
    chain.update(
        chain.len() - 1,
        StageView { redirect: Some(RedirectView { path, mode }), ..chain.last() },
    )
}

/// One parser step: how one token transforms the state. `None` means the
/// token demanded a chain from an empty stack (malformed input).
pub open spec fn parse_step(st: ParseState, w: Seq<char>) -> Option<ParseState> {
    if is_op_token(w) {
        Some(
            ParseState {
                out_file: st.out_file || w[0] == '>',
                in_file: st.in_file || w[0] == '<',
                pipe: st.pipe || w[0] == '|',
                stack: st.stack,
            },
        )
    } else if st.out_file {
        if st.stack.len() == 0 {
            None
        } else {
            Some(
                ParseState {
                    stack: st.stack.update(
                        st.stack.len() - 1,
                        set_redirect(st.stack.last(), w, FilePermission::Write),
                    ),
                    out_file: false,
                    ..st
                },
            )
        }
    } else if st.in_file {
        if st.stack.len() == 0 {
            None
        } else {
            Some(
                ParseState {
                    stack: st.stack.update(
                        st.stack.len() - 1,
                        set_redirect(st.stack.last(), w, FilePermission::Read),
                    ),
                    in_file: false,
                    ..st
                },
            )
        }
    } else if st.pipe {
        if st.stack.len() == 0 {
            None
        } else {
            Some(
                ParseState {
                    stack: st.stack.update(
                        st.stack.len() - 1,
                        st.stack.last() + seq![stage_of(w)],
                    ),
                    pipe: false,
                    ..st
                },
            )
        }
    } else {
        Some(ParseState { stack: st.stack.push(seq![stage_of(w)]), ..st })
    }
}

/// The parser run over a token sequence from a given state.
pub open spec fn parse_run(words: Seq<Seq<char>>, st: ParseState) -> Option<ParseState>
    decreases words.len(),
{
    if words.len() == 0 {
        Some(st)
    } else {
        match parse_step(st, words[0]) {
            Some(st2) => parse_run(words.drop_first(), st2),
            None => None,
        }
    }
}

/// The chain a token sequence parses to, when it parses at all: the first
/// chain on the final stack.
pub open spec fn spec_parse(words: Seq<Seq<char>>) -> Option<Seq<StageView>> {
    match parse_run(words, initial_parse_state()) {
        Some(st) => if st.stack.len() > 0 {
            Some(st.stack[0])
        } else {
            None
        },
        None => None,
    }
}

/// Why a token sequence failed to parse.
#[derive(Clone, Copy, PartialEq, Eq, Structural, Debug)]
pub enum ParseError {
    /// No stage was ever built: the input held no word token before its end.
    EmptyPipeline,
    /// An operator demanded a target before any stage existed.
    DanglingOperator,
}

proof fn lemma_run_preserves_nonempty(words: Seq<Seq<char>>, st: ParseState)
    requires
        st.stack.len() >= 1,
    ensures
        parse_run(words, st) is Some,
        parse_run(words, st).unwrap().stack.len() >= 1,
    decreases words.len(),
{
    if words.len() > 0 {
        let st2 = parse_step(st, words[0]);
        assert(st2 is Some);
        lemma_run_preserves_nonempty(words.drop_first(), st2.unwrap());
    }
}

proof fn lemma_run_empty_flagged(words: Seq<Seq<char>>, st: ParseState)
    requires
        st.stack.len() == 0,
        st.out_file || st.in_file || st.pipe,
    ensures
        parse_run(words, st) is Some ==> parse_run(words, st).unwrap().stack.len() == 0,
    decreases words.len(),
{
    if words.len() > 0 {
        if is_op_token(words[0]) {
            let st2 = parse_step(st, words[0]).unwrap();
            lemma_run_empty_flagged(words.drop_first(), st2);
        } else {
            assert(parse_step(st, words[0]) is None);
        }
    }
}

/// Law: a token sequence parses exactly when it begins with a word token.
/// In particular every lexed line whose first token is not an operator
/// yields a pipeline.
pub proof fn lemma_parse_ok_iff(words: Seq<Seq<char>>)
    ensures
        (spec_parse(words) is Some) <==> (words.len() > 0 && !is_op_token(words[0])),
{
    let init = initial_parse_state();
    if words.len() > 0 {
        if is_op_token(words[0]) {
            let st2 = parse_step(init, words[0]).unwrap();
            lemma_run_empty_flagged(words.drop_first(), st2);
        } else {
            let st2 = parse_step(init, words[0]).unwrap();
            assert(st2.stack.len() == 1);
            lemma_run_preserves_nonempty(words.drop_first(), st2);
        }
    }
}

/// The chains of a stack of built commands.
pub open spec fn chains_of(v: Seq<Box<Cmd>>) -> Seq<Seq<StageView>> {
    v.map_values(|c: Box<Cmd>| c.chain())
}

/// Parse a token sequence into a pipeline chain.
///
/// Returns the chain exactly when the tokens begin with a word token;
/// otherwise the error says whether an operator demanded a missing target or
/// no stage was ever built. The returned chain is the parser state machine's
/// result, and its terminal stage alone carries the `last` mark.
pub fn parse(words: &Vec<String>) -> (r: Result<Box<Cmd>, ParseError>)
    ensures
        (r is Ok) <==> (spec_parse(views_of(words@)) is Some),
        (r is Ok) <==> (words@.len() > 0 && !is_op_token(words@[0]@)),
        r matches Ok(cmd) ==> cmd.chain() == spec_parse(views_of(words@)).unwrap() && cmd.wf(),
        (r == Err::<Box<Cmd>, ParseError>(ParseError::DanglingOperator)) <==> (parse_run(
            views_of(words@),
            initial_parse_state(),
        ) is None),
        (r == Err::<Box<Cmd>, ParseError>(ParseError::EmptyPipeline)) <==> (parse_run(
            views_of(words@),
            initial_parse_state(),
        ) matches Some(st) && st.stack.len() == 0),
{
    let ghost tokens = views_of(words@);
    proof {
        lemma_parse_ok_iff(tokens);
        if words@.len() > 0 {
            assert(tokens[0] == words@[0]@);
        }
    }
    let mut stack: Vec<Box<Cmd>> = Vec::new();
    let mut out_file = false;
    let mut in_file = false;
    let mut pipe = false;
    let mut i: usize = 0;
    let n = words.len();
    proof {
        assert(tokens.subrange(0, n as int) =~= tokens);
        assert(chains_of(stack@) =~= Seq::<Seq<StageView>>::empty());
        assert((ParseState { stack: chains_of(stack@), out_file, in_file, pipe })
            == initial_parse_state());
    }
    while i < n
        invariant
            n == words@.len(),
            tokens == views_of(words@),
            i <= n,
            forall|j: int| 0 <= j < stack@.len() ==> (#[trigger] stack@[j]).wf(),
            parse_run(tokens, initial_parse_state()) == parse_run(
                tokens.subrange(i as int, n as int),
                ParseState { stack: chains_of(stack@), out_file, in_file, pipe },
            ),
        decreases n - i,
    {
        let ghost st = ParseState { stack: chains_of(stack@), out_file, in_file, pipe };
        let ghost rest = tokens.subrange(i as int, n as int);
        proof {
            assert(rest[0] == tokens[i as int]);
            assert(rest.drop_first() =~= tokens.subrange(i + 1, n as int));
        }
        let w = &words[i];
        proof {
            assert(w@ == rest[0]);
        }
        let is_op = w.as_str().unicode_len() == 1 && {
            let c = w.as_str().get_char(0);
            c == '>' || c == '<' || c == '|'
        };
        if is_op {
            let c = w.as_str().get_char(0);
            if c == '>' {
                out_file = true;
            }
            if c == '<' {
                in_file = true;
            }
            if c == '|' {
                pipe = true;
            }
            proof {
                assert(is_op_token(rest[0]));
                let st2 = ParseState { stack: chains_of(stack@), out_file, in_file, pipe };
                assert(parse_step(st, rest[0]) == Some(st2));
                assert(parse_run(rest, st) == parse_run(rest.drop_first(), st2));
            }
        } else {
            proof {
                assert(!is_op_token(rest[0]));
            }
            if out_file || in_file || pipe {
                if stack.len() == 0 {
                    proof {
                        assert(st.stack.len() == 0);
                        assert(parse_step(st, rest[0]) is None);
                        assert(parse_run(rest, st) is None);
                        assert(parse_run(tokens, initial_parse_state()) is None);
                        assert(spec_parse(tokens) is None);
                        lemma_parse_ok_iff(tokens);
                        assert(tokens.len() == words@.len());
                        if words@.len() > 0 {
                            assert(tokens[0] == words@[0]@);
                        }
                        assert(!(words@.len() > 0 && !is_op_token(words@[0]@)));
                    }
                    return Err(ParseError::DanglingOperator);
                }
                let ghost orig_stack = stack@;
                let top = stack.pop().unwrap();
                proof {
                    assert(stack@.push(top) =~= orig_stack);
                    assert(st.stack == chains_of(orig_stack));
                    assert(st.stack.last() == orig_stack.last().chain());
                    assert(st.stack.last() == top.chain());
                    assert(orig_stack[orig_stack.len() - 1].wf());
                }
                if out_file {
                    let repl = top.set_path(PathType::new(w.clone(), FilePermission::Write));
                    stack.push(repl);
                    out_file = false;
                    proof {
                        lemma_chain_nonempty(*top);
                        let updated = set_redirect(top.chain(), rest[0], FilePermission::Write);
                        assert(repl.chain() =~= updated);
                        assert(chains_of(stack@) =~= st.stack.update(st.stack.len() - 1, updated));
                        let st2 = ParseState { stack: chains_of(stack@), out_file, in_file, pipe };
                        assert(parse_step(st, rest[0]) == Some(st2));
                        assert(parse_run(rest, st) == parse_run(rest.drop_first(), st2));
                    }
                } else if in_file {
                    let repl = top.set_path(PathType::new(w.clone(), FilePermission::Read));
                    stack.push(repl);
                    in_file = false;
                    proof {
                        lemma_chain_nonempty(*top);
                        let updated = set_redirect(top.chain(), rest[0], FilePermission::Read);
                        assert(repl.chain() =~= updated);
                        assert(chains_of(stack@) =~= st.stack.update(st.stack.len() - 1, updated));
                        let st2 = ParseState { stack: chains_of(stack@), out_file, in_file, pipe };
                        assert(parse_step(st, rest[0]) == Some(st2));
                        assert(parse_run(rest, st) == parse_run(rest.drop_first(), st2));
                    }
                } else {
                    let tail = Cmd::new_stage(w.as_str());
                    let repl = top.set_pipe(Box::new(tail));
                    stack.push(repl);
                    pipe = false;
                    proof {
                        let updated = top.chain() + seq![stage_of(rest[0])];
                        assert(repl.chain() =~= updated);
                        assert(chains_of(stack@) =~= st.stack.update(st.stack.len() - 1, updated));
                        let st2 = ParseState { stack: chains_of(stack@), out_file, in_file, pipe };
                        assert(parse_step(st, rest[0]) == Some(st2));
                        assert(parse_run(rest, st) == parse_run(rest.drop_first(), st2));
                    }
                }
            } else {
                let ghost before_stack = stack@;
                let fresh = Cmd::new_stage(w.as_str());
                stack.push(Box::new(fresh));
                proof {
                    assert(chains_of(stack@) =~= chains_of(before_stack).push(
                        seq![stage_of(rest[0])],
                    ));
                    let st2 = ParseState { stack: chains_of(stack@), out_file, in_file, pipe };
                    assert(parse_step(st, rest[0]) == Some(st2));
                    assert(parse_run(rest, st) == parse_run(rest.drop_first(), st2));
                }
            }
        }
        i += 1;
        proof {
            assert(tokens.subrange(i as int, n as int) =~= rest.drop_first());
        }
    }
    proof {
        assert(tokens.subrange(n as int, n as int) =~= Seq::<Seq<char>>::empty());
    }
    if stack.len() == 0 {
        return Err(ParseError::EmptyPipeline);
    }
    let ghost final_stack = stack@;
    let root = stack.remove(0);
    proof {
        assert(chains_of(final_stack)[0] == final_stack[0].chain());
    }
    Ok(root)
}

/// Lex and parse one raw command line into a pipeline chain.
pub fn cmd_new(cmd_line: &str) -> (r: Result<Box<Cmd>, ParseError>)
    ensures
        (r is Ok) <==> (spec_parse(spec_lex(cmd_line@)) is Some),
        r matches Ok(cmd) ==> cmd.chain() == spec_parse(spec_lex(cmd_line@)).unwrap() && cmd.wf(),
        (r == Err::<Box<Cmd>, ParseError>(ParseError::DanglingOperator)) <==> (parse_run(
            spec_lex(cmd_line@),
            initial_parse_state(),
        ) is None),
        (r == Err::<Box<Cmd>, ParseError>(ParseError::EmptyPipeline)) <==> (parse_run(
            spec_lex(cmd_line@),
            initial_parse_state(),
        ) matches Some(st) && st.stack.len() == 0),
{
    let tokens = lex(cmd_line);
    parse(&tokens)
}

impl Cmd {
    /// Lex and parse one raw command line into a pipeline chain.
    pub fn new(cmd_line: &str) -> (r: Result<Box<Cmd>, ParseError>)
        ensures
            (r is Ok) <==> (spec_parse(spec_lex(cmd_line@)) is Some),
            r matches Ok(cmd) ==> cmd.chain() == spec_parse(spec_lex(cmd_line@)).unwrap()
                && cmd.wf(),
            (r == Err::<Box<Cmd>, ParseError>(ParseError::DanglingOperator)) <==> (parse_run(
                spec_lex(cmd_line@),
                initial_parse_state(),
            ) is None),
            (r == Err::<Box<Cmd>, ParseError>(ParseError::EmptyPipeline)) <==> (parse_run(
                spec_lex(cmd_line@),
                initial_parse_state(),
            ) matches Some(st) && st.stack.len() == 0),
    {
        cmd_new(cmd_line)
    }
}

} // verus!
