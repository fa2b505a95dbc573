//! The lexer: a character-level state machine that turns text into located
//! tokens.
use vstd::prelude::*;
use crate::classify::{
    is_line_break, is_quote_char, is_word_char, line_break, quote_char, unescape, unescape_char,
    is_blank, blank, word_char, COMMENT_START,
};
use crate::error::{Error, ErrorKind, Fault};
use crate::token::{
    in_position_order, pos_before, starts_before, views, Lexeme, Location, Token, TokenValue,
    TokenView,
};

verus! {

/// What the lexer is in the middle of.
#[derive(Debug, Clone, Copy, PartialEq, Eq, Structural)]
pub enum Mode {
    /// Between tokens.
    Idle,
    /// Reading an identifier.
    Word,
    /// Reading a quoted string opened by `quote`; `escaping` after a backslash.
    Quoted { quote: char, escaping: bool },
    /// Skipping a comment up to the end of its line.
    Comment,
}

/// The mathematical state of the lexer.
pub struct LexState {
    pub mode: Mode,
    /// The identifier read so far, or the decoded contents of the string.
    pub text: Seq<char>,
    /// Where the pending identifier or string began.
    pub start_line: nat,
    pub start_column: nat,
    /// Where the next character stands.
    pub line: nat,
    pub column: nat,
    /// The tokens emitted so far.
    pub tokens: Seq<TokenView>,
}

pub open spec fn initial_state(line0: nat, column0: nat) -> LexState {
    LexState {
        mode: Mode::Idle,
        text: Seq::empty(),
        start_line: line0,
        start_column: column0,
        line: line0,
        column: column0,
        tokens: Seq::empty(),
    }
}

/// Moves past character `c`: a line break goes to the first column of the
/// next line, any other character to the next column.
pub open spec fn advance(s: LexState, c: char, column0: nat) -> LexState {
    if is_line_break(c) {
        LexState { line: s.line + 1, column: column0, ..s }
    } else {
        LexState { column: s.column + 1, ..s }
    }
}

/// Emits the pending identifier, if any, and goes idle.
pub open spec fn flush(s: LexState) -> LexState {
    if s.mode is Word {
        LexState {
            mode: Mode::Idle,
            text: Seq::empty(),
            tokens: s.tokens.push(
                TokenView {
                    line: s.start_line,
                    column: s.start_column,
                    lexeme: Lexeme::Identifier(s.text),
                },
            ),
            ..s
        }
    } else {
        LexState { mode: Mode::Idle, ..s }
    }
}

/// Reads one character of a quoted string opened by `quote`.
pub open spec fn string_step(s: LexState, quote: char, escaping: bool, c: char, column0: nat) -> Result<
    LexState,
    Fault,
> {
    if escaping {
        match unescape(c) {
            Some(d) => Ok(
                advance(
                    LexState {
                        mode: Mode::Quoted { quote, escaping: false },
                        text: s.text.push(d),
                        ..s
                    },
                    c,
                    column0,
                ),
            ),
            None => Err(Fault { kind: ErrorKind::BadEscape, line: s.line, column: s.column }),
        }
    } else if c == '\\' {
        Ok(advance(LexState { mode: Mode::Quoted { quote, escaping: true }, ..s }, c, column0))
    } else if c == quote {
        Ok(
            advance(
                LexState {
                    mode: Mode::Idle,
                    text: Seq::empty(),
                    tokens: s.tokens.push(
                        TokenView {
                            line: s.start_line,
                            column: s.start_column,
                            lexeme: Lexeme::Quoted(s.text, quote),
                        },
                    ),
                    ..s
                },
                c,
                column0,
            ),
        )
    } else {
        Ok(advance(LexState { text: s.text.push(c), ..s }, c, column0))
    }
}

/// Reads one character outside strings and comments.
pub open spec fn plain_step(s: LexState, c: char, column0: nat) -> LexState {
    if is_line_break(c) {
        advance(flush(s), c, column0)
    } else if is_word_char(c) {
        if s.mode is Word {
            advance(LexState { text: s.text.push(c), ..s }, c, column0)
        } else {
            advance(
                LexState {
                    mode: Mode::Word,
                    text: seq![c],
                    start_line: s.line,
                    start_column: s.column,
                    ..s
                },
                c,
                column0,
            )
        }
    } else if is_blank(c) {
        advance(flush(s), c, column0)
    } else if is_quote_char(c) {
        advance(
            LexState {
                mode: Mode::Quoted { quote: c, escaping: false },
                text: Seq::empty(),
                start_line: s.line,
                start_column: s.column,
                ..flush(s)
            },
            c,
            column0,
        )
    } else if c == COMMENT_START {
        advance(LexState { mode: Mode::Comment, ..flush(s) }, c, column0)
    } else {
        let f = flush(s);
        advance(
            LexState {
                tokens: f.tokens.push(
                    TokenView { line: s.line, column: s.column, lexeme: Lexeme::SpecChar(c) },
                ),
                ..f
            },
            c,
            column0,
        )
    }
}

/// Reads one character.
pub open spec fn lex_step(s: LexState, c: char, column0: nat) -> Result<LexState, Fault> {
    match s.mode {
        Mode::Quoted { quote, escaping } => string_step(s, quote, escaping, c, column0),
        Mode::Comment => Ok(
            if is_line_break(c) {
                advance(LexState { mode: Mode::Idle, ..s }, c, column0)
            } else {
                advance(s, c, column0)
            },
        ),
        _ => Ok(plain_step(s, c, column0)),
    }
}

/// Reads the characters `cs` in order, stopping at the first error.
pub open spec fn lex_run(s: LexState, cs: Seq<char>, column0: nat) -> Result<LexState, Fault>
    decreases cs.len(),
{
    if cs.len() == 0 {
        Ok(s)
    } else {
        match lex_run(s, cs.drop_last(), column0) {
            Ok(t) => lex_step(t, cs.last(), column0),
            Err(e) => Err(e),
        }
    }
}

/// Ends the input: a string still open is an error, a pending identifier is
/// emitted.
pub open spec fn lex_finish(s: LexState) -> Result<Seq<TokenView>, Fault> {
    match s.mode {
        Mode::Quoted { .. } => Err(
            Fault { kind: ErrorKind::UnterminatedString, line: s.start_line, column: s.start_column },
        ),
        _ => Ok(flush(s).tokens),
    }
}

/// The tokens of the characters `cs`, read from line `line0` and column
/// `column0` on, or the first error.
pub open spec fn lex_spec(cs: Seq<char>, line0: nat, column0: nat) -> Result<Seq<TokenView>, Fault> {
    match lex_run(initial_state(line0, column0), cs, column0) {
        Ok(s) => lex_finish(s),
        Err(e) => Err(e),
    }
}

/// The executable lexer state.
struct Lexer {
    mode: Mode,
    text: String,
    start_line: usize,
    start_column: usize,
    line: usize,
    column: usize,
    tokens: Vec<Token>,
    filename: String,
    column0: usize,
}

impl View for Lexer {
    type V = LexState;

    closed spec fn view(&self) -> LexState {
        LexState {
            mode: self.mode,
            text: self.text@,
            start_line: self.start_line as nat,
            start_column: self.start_column as nat,
            line: self.line as nat,
            column: self.column as nat,
            tokens: views(self.tokens@),
        }
    }
}

impl Lexer {
    /// Every token carries the lexer's file name.
    closed spec fn wf(&self) -> bool {
        forall|i: int|
            0 <= i < self.tokens@.len() ==> (#[trigger] self.tokens@[i]).location.filename@
                == self.filename@
    }

    fn new(start: &Location) -> (r: Lexer)
        ensures
            r@ == initial_state(start.line_number as nat, start.column_number as nat),
            r.wf(),
            r.filename@ == start.filename@,
            r.column0 == start.column_number,
            r.line == start.line_number,
            r.column == start.column_number,
    {
        let r = Lexer {
            mode: Mode::Idle,
            text: String::new(),
            start_line: start.line_number,
            start_column: start.column_number,
            line: start.line_number,
            column: start.column_number,
            tokens: Vec::new(),
            filename: start.filename.clone(),
            column0: start.column_number,
        };
        assert(views(r.tokens@) =~= Seq::<TokenView>::empty());
        r
    }

    fn emit(&mut self, tok: Token)
        requires
            old(self).wf(),
            tok.location.filename@ == old(self).filename@,
        ensures
            final(self)@ == (LexState { tokens: old(self)@.tokens.push(tok@), ..old(self)@ }),
            final(self).wf(),
            final(self).filename == old(self).filename,
            final(self).column0 == old(self).column0,
            final(self).line == old(self).line,
            final(self).column == old(self).column,
    {
        let ghost before = self.tokens@;
        self.tokens.push(tok);
        assert(views(self.tokens@) =~= views(before).push(tok@));
    }

    fn flush(&mut self)
        requires
            old(self).wf(),
        ensures
            final(self)@ == flush(old(self)@),
            final(self).wf(),
            final(self).filename == old(self).filename,
            final(self).column0 == old(self).column0,
            final(self).line == old(self).line,
            final(self).column == old(self).column,
    {
        if let Mode::Word = self.mode {
            let loc = Location::new(&self.filename, self.start_line, self.start_column);
            let tok = Token { location: loc, value: TokenValue::Identifier(self.text.clone()) };
            self.emit(tok);
            self.text = String::new();
        }
        self.mode = Mode::Idle;
        assert(self@.text =~= flush(old(self)@).text);
    }

    fn advance(&mut self, c: char)
        requires
            old(self).line < usize::MAX,
            old(self).column < usize::MAX,
        ensures
            final(self)@ == advance(old(self)@, c, old(self).column0 as nat),
            final(self).tokens == old(self).tokens,
            final(self).filename == old(self).filename,
            final(self).column0 == old(self).column0,
            final(self).line <= old(self).line + 1,
            final(self).column <= old(self).column + 1 || final(self).column == old(self).column0,
    {
        if line_break(c) {
            self.line = self.line + 1;
            self.column = self.column0;
        } else {
            self.column = self.column + 1;
        }
    }

    fn error_here(&self, kind: ErrorKind) -> (e: Error)
        ensures
            e@ == (Fault { kind, line: self.line as nat, column: self.column as nat }),
            e.location.filename@ == self.filename@,
    {
        Error { kind, location: Location::new(&self.filename, self.line, self.column) }
    }
    fn plain_step(&mut self, c: char)
        requires
            old(self).wf(),
            old(self).line < usize::MAX,
            old(self).column < usize::MAX,
            !(old(self).mode is Quoted),
            !(old(self).mode is Comment),
        ensures
            final(self)@ == plain_step(old(self)@, c, old(self).column0 as nat),
            final(self).wf(),
            final(self).filename == old(self).filename,
            final(self).column0 == old(self).column0,
            final(self).line <= old(self).line + 1,
            final(self).column <= old(self).column + 1 || final(self).column == old(self).column0,
    {
        if line_break(c) {
            self.flush();
        } else if word_char(c) {
            if let Mode::Word = self.mode {
                self.text.push(c);
            } else {
                self.mode = Mode::Word;
                self.text = String::new();
                self.text.push(c);
                assert(self.text@ =~= seq![c]);
                self.start_line = self.line;
                self.start_column = self.column;
            }
        } else if blank(c) {
            self.flush();
        } else if quote_char(c) {
            self.flush();
            self.mode = Mode::Quoted { quote: c, escaping: false };
            self.text = String::new();
            self.start_line = self.line;
            self.start_column = self.column;
        } else if c == COMMENT_START {
            self.flush();
            self.mode = Mode::Comment;
        } else {
            self.flush();
            let loc = Location::new(&self.filename, self.line, self.column);
            self.emit(Token { location: loc, value: TokenValue::SpecChar(c) });
        }
        self.advance(c);
    }

    fn step(&mut self, c: char) -> (r: Result<(), Error>)
        requires
            old(self).wf(),
            old(self).line < usize::MAX,
            old(self).column < usize::MAX,
        ensures
            r is Ok ==> lex_step(old(self)@, c, old(self).column0 as nat) == Ok::<LexState, Fault>(
                final(self)@,
            ),
            r is Ok ==> final(self).wf(),
            r is Err ==> lex_step(old(self)@, c, old(self).column0 as nat) == Err::<LexState, Fault>(
                r->Err_0@,
            ),
            r is Err ==> r->Err_0.location.filename@ == old(self).filename@,
            final(self).filename == old(self).filename,
            final(self).column0 == old(self).column0,
            final(self).line <= old(self).line + 1,
            final(self).column <= old(self).column + 1 || final(self).column == old(self).column0,
    {
        match self.mode {
            Mode::Quoted { quote, escaping } => {
                if escaping {
                    match unescape_char(c) {
                        Some(d) => {
                            self.text.push(d);
                            self.mode = Mode::Quoted { quote, escaping: false };
                        },
                        None => {
                            return Err(self.error_here(ErrorKind::BadEscape));
                        },
                    }
                } else if c == '\\' {
                    self.mode = Mode::Quoted { quote, escaping: true };
                } else if c == quote {
                    let loc = Location::new(&self.filename, self.start_line, self.start_column);
                    self.emit(Token { location: loc, value: TokenValue::Quoted(self.text.clone(), quote) });
                    self.text = String::new();
                    self.mode = Mode::Idle;
                } else {
                    self.text.push(c);
                }
                self.advance(c);
            },
            Mode::Comment => {
                if line_break(c) {
                    self.mode = Mode::Idle;
                }
                self.advance(c);
            },
            _ => {
                self.plain_step(c);
            },
        }
        Ok(())
    }
}

/// Once reading stops at an error, more input leaves that error as it is.
pub proof fn lemma_run_keeps_error(s: LexState, cs: Seq<char>, k: int, column0: nat)
    requires
        0 <= k <= cs.len(),
        lex_run(s, cs.take(k), column0) is Err,
    ensures
        lex_run(s, cs, column0) == lex_run(s, cs.take(k), column0),
    decreases cs.len(),
{
    if k == cs.len() {
        assert(cs.take(k) =~= cs);
    } else {
        assert(cs.drop_last().take(k) =~= cs.take(k));
        lemma_run_keeps_error(s, cs.drop_last(), k, column0);
    }
}

/// Reading `a` and then `b` is reading `a + b`.
pub proof fn lemma_run_concat(s: LexState, a: Seq<char>, b: Seq<char>, column0: nat)
    ensures
        lex_run(s, a + b, column0) == match lex_run(s, a, column0) {
            Ok(t) => lex_run(t, b, column0),
            Err(e) => Err(e),
        },
    decreases b.len(),
{
    if b.len() == 0 {
        assert(a + b =~= a);
    } else {
        lemma_run_concat(s, a, b.drop_last(), column0);
        assert((a + b).drop_last() =~= a + b.drop_last());
        assert((a + b).last() == b.last());
    }
}

/// Reading a prefix and then one more character is reading the longer prefix.
pub proof fn lemma_run_extend(s: LexState, cs: Seq<char>, i: int, column0: nat)
    requires
        0 <= i < cs.len(),
    ensures
        lex_run(s, cs.take(i + 1), column0) == match lex_run(s, cs.take(i), column0) {
            Ok(t) => lex_step(t, cs[i], column0),
            Err(e) => Err(e),
        },
{
    assert(cs.take(i + 1).drop_last() =~= cs.take(i));
}

/// Splits the tokens of `source`, read from `start` on, or reports the first
/// error.
pub fn lex(source: &str, start: &Location) -> (r: Result<Vec<Token>, Error>)
    requires
        start.line_number + source@.len() <= usize::MAX,
        start.column_number + source@.len() <= usize::MAX,
    ensures
        r is Ok ==> lex_spec(source@, start.line_number as nat, start.column_number as nat) == Ok::<
            Seq<TokenView>,
            Fault,
        >(views(r->Ok_0@)),
        r is Ok ==> forall|i: int|
            0 <= i < r->Ok_0@.len() ==> (#[trigger] r->Ok_0@[i]).location.filename@
                == start.filename@,
        r is Ok ==> in_position_order(views(r->Ok_0@)),
        r is Err ==> lex_spec(source@, start.line_number as nat, start.column_number as nat) == Err::<
            Seq<TokenView>,
            Fault,
        >(r->Err_0@),
        r is Err ==> r->Err_0.location.filename@ == start.filename@,
{
    let ghost line0 = start.line_number as nat;
    let ghost column0 = start.column_number as nat;
    let mut lx = Lexer::new(start);
    assert(source@.take(0) =~= Seq::<char>::empty());
    for c in it: source.chars()
        invariant
            it.seq() == source@,
            lx.wf(),
            lx.filename@ == start.filename@,
            lx.column0 == start.column_number,
            lex_run(initial_state(line0, column0), source@.take(it.index() as int), column0) == Ok::<
                LexState,
                Fault,
            >(lx@),
            lx.line <= start.line_number + it.index(),
            lx.column <= start.column_number + it.index(),
            start.line_number + source@.len() <= usize::MAX,
            start.column_number + source@.len() <= usize::MAX,
            line0 == start.line_number,
            column0 == start.column_number,
    {
        let ghost i = it.index() as int;
        proof {
            lemma_run_extend(initial_state(line0, column0), source@, i, column0);
        }
        let r = lx.step(c);
        if let Err(e) = r {
            proof {
                lemma_run_keeps_error(initial_state(line0, column0), source@, i + 1, column0);
            }
            return Err(e);
        }
    }
    assert(source@.take(source@.len() as int) =~= source@);
    proof {
        lemma_lex_in_order(source@, line0, column0);
    }
    if let Mode::Quoted { .. } = lx.mode {
        let loc = Location::new(&lx.filename, lx.start_line, lx.start_column);
        return Err(Error { kind: ErrorKind::UnterminatedString, location: loc });
    }
    lx.flush();
    Ok(lx.tokens)
}

/// What stays true while reading: the tokens are in position order, and each
/// comes before the pending identifier or string, which comes before the
/// next character.
pub open spec fn ordered_state(s: LexState) -> bool {
    &&& in_position_order(s.tokens)
    &&& s.tokens.len() > 0 ==> pos_before(s.tokens.last().line, s.tokens.last().column, s.line, s.column)
    &&& (s.mode is Word || s.mode is Quoted) ==> {
        &&& pos_before(s.start_line, s.start_column, s.line, s.column)
        &&& s.tokens.len() > 0 ==> pos_before(s.tokens.last().line, s.tokens.last().column, s.start_line, s.start_column)
    }
}

proof fn lemma_push_in_order(ts: Seq<TokenView>, t: TokenView)
    requires
        in_position_order(ts),
        ts.len() > 0 ==> starts_before(ts.last(), t),
    ensures
        in_position_order(ts.push(t)),
{
    let us = ts.push(t);
    assert forall|i: int, j: int| 0 <= i < j < us.len() implies starts_before(#[trigger] us[i], #[trigger] us[j]) by {
        if j == ts.len() {
            if i < ts.len() - 1 {
                assert(starts_before(ts[i], ts[ts.len() - 1]));
            }
        } else {
            assert(starts_before(ts[i], ts[j]));
        }
    }
}

proof fn lemma_step_ordered(s: LexState, c: char, column0: nat)
    requires
        ordered_state(s),
        lex_step(s, c, column0) is Ok,
    ensures
        ordered_state(lex_step(s, c, column0)->Ok_0),
{
    let tok_word = TokenView { line: s.start_line, column: s.start_column, lexeme: Lexeme::Identifier(s.text) };
    if s.mode is Word {
        lemma_push_in_order(s.tokens, tok_word);
    }
    match s.mode {
        Mode::Quoted { quote, escaping } => {
            if !escaping && c != '\\' && c == quote {
                lemma_push_in_order(
                    s.tokens,
                    TokenView { line: s.start_line, column: s.start_column, lexeme: Lexeme::Quoted(s.text, quote) },
                );
            }
        },
        Mode::Comment => {},
        _ => {
            let f = flush(s);
            lemma_push_in_order(f.tokens, TokenView { line: s.line, column: s.column, lexeme: Lexeme::SpecChar(c) });
        },
    }
}

proof fn lemma_run_ordered(s: LexState, cs: Seq<char>, column0: nat)
    requires
        ordered_state(s),
        lex_run(s, cs, column0) is Ok,
    ensures
        ordered_state(lex_run(s, cs, column0)->Ok_0),
    decreases cs.len(),
{
    if cs.len() > 0 {
        lemma_run_ordered(s, cs.drop_last(), column0);
        lemma_step_ordered(lex_run(s, cs.drop_last(), column0)->Ok_0, cs.last(), column0);
    }
}

/// The tokens of any input stand in strictly increasing position: lines never
/// decrease, and columns strictly increase within a line.
pub proof fn lemma_lex_in_order(cs: Seq<char>, line0: nat, column0: nat)
    ensures
        lex_spec(cs, line0, column0) is Ok ==> in_position_order(lex_spec(cs, line0, column0)->Ok_0),
{
    let s0 = initial_state(line0, column0);
    if lex_run(s0, cs, column0) is Ok {
        lemma_run_ordered(s0, cs, column0);
        let s = lex_run(s0, cs, column0)->Ok_0;
        if s.mode is Word {
            lemma_push_in_order(
                s.tokens,
                TokenView { line: s.start_line, column: s.start_column, lexeme: Lexeme::Identifier(s.text) },
            );
        }
    }
}

} // verus!
