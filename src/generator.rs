//! The generator: a grammar state machine that folds tokens into a mapping.
use vstd::prelude::*;
use crate::classify::COMMENT_START;
use crate::error::{Error, ErrorKind, Fault};
use crate::mapping::{keys_unique, upsert, Entries, Item, Mapping};
use crate::lexer::{lex, lex_spec};
use crate::token::{views, Lexeme, Location, Token, TokenValue, TokenView};

verus! {

/// What the grammar expects next.
pub enum Grammar {
    /// A key.
    Key,
    /// The `:` after the key.
    Colon(Seq<char>),
    /// The quoted value of the key.
    Value(Seq<char>),
}

/// The mathematical state of the generator.
pub struct GenState {
    pub grammar: Grammar,
    /// The line of the comment being skipped, if any.
    pub comment_line: Option<nat>,
    pub entries: Entries,
}

pub open spec fn initial_gen_state() -> GenState {
    GenState { grammar: Grammar::Key, comment_line: None, entries: Seq::empty() }
}

/// One step of the key / `:` / value cycle on token `t`.
pub open spec fn grammar_step(gr: Grammar, es: Entries, t: TokenView) -> Result<(Grammar, Entries), Fault> {
    match gr {
        Grammar::Key => match t.lexeme {
            Lexeme::Identifier(w) => Ok((Grammar::Colon(w), es)),
            _ => Err(Fault { kind: ErrorKind::ExpectedIdentifier, line: t.line, column: t.column }),
        },
        Grammar::Colon(k) => if t.lexeme == Lexeme::SpecChar(':') {
            Ok((Grammar::Value(k), es))
        } else {
            Err(Fault { kind: ErrorKind::ExpectedColon, line: t.line, column: t.column })
        },
        Grammar::Value(k) => match t.lexeme {
            Lexeme::Quoted(v, _) => Ok((Grammar::Key, upsert(es, k, v))),
            _ => Err(Fault { kind: ErrorKind::ExpectedString, line: t.line, column: t.column }),
        },
    }
}

/// Reads token `t`: tokens on the line of a comment are skipped; a `#` starts
/// such a comment without moving the grammar; any other token moves it.
pub open spec fn gen_step(g: GenState, t: TokenView) -> Result<GenState, Fault> {
    if g.comment_line == Some(t.line) {
        Ok(g)
    } else if t.lexeme == Lexeme::SpecChar(COMMENT_START) {
        Ok(GenState { comment_line: Some(t.line), ..g })
    } else {
        match grammar_step(g.grammar, g.entries, t) {
            Ok((gr, es)) => Ok(GenState { grammar: gr, comment_line: None, entries: es }),
            Err(e) => Err(e),
        }
    }
}

/// Reads the tokens `ts` in order, stopping at the first error.
pub open spec fn gen_run(g: GenState, ts: Seq<TokenView>) -> Result<GenState, Fault>
    decreases ts.len(),
{
    if ts.len() == 0 {
        Ok(g)
    } else {
        match gen_run(g, ts.drop_last()) {
            Ok(h) => gen_step(h, ts.last()),
            Err(e) => Err(e),
        }
    }
}

/// The entries that the tokens `ts` give, or the first error; input that ends
/// inside a key/value pair is reported at the last token.
pub open spec fn generate_spec(ts: Seq<TokenView>) -> Result<Entries, Fault> {
    match gen_run(initial_gen_state(), ts) {
        Ok(g) => if g.grammar is Key {
            Ok(g.entries)
        } else {
            Err(Fault { kind: ErrorKind::IncompletePair, line: ts.last().line, column: ts.last().column })
        },
        Err(e) => Err(e),
    }
}

/// The executable form of `Grammar`.
enum Expect {
    Key,
    Colon(String),
    Value(String),
}

impl View for Expect {
    type V = Grammar;

    closed spec fn view(&self) -> Grammar {
        match self {
            Expect::Key => Grammar::Key,
            Expect::Colon(k) => Grammar::Colon(k@),
            Expect::Value(k) => Grammar::Value(k@),
        }
    }
}

pub open spec fn line_of(l: Option<usize>) -> Option<nat> {
    match l {
        Some(n) => Some(n as nat),
        None => None,
    }
}

fn error_at(kind: ErrorKind, tok: &Token) -> (e: Error)
    ensures
        e@ == (Fault { kind, line: tok@.line, column: tok@.column }),
        e.location.filename@ == tok.location.filename@,
{
    Error { kind, location: tok.location.duplicate() }
}

fn feed(expect: Expect, mapping: &mut Mapping, tok: &Token) -> (r: Result<Expect, Error>)
    ensures
        keys_unique(old(mapping)@) ==> keys_unique(final(mapping)@),
        r is Ok ==> grammar_step(expect@, old(mapping)@, tok@) == Ok::<(Grammar, Entries), Fault>(
            (r->Ok_0@, final(mapping)@),
        ),
        r is Err ==> grammar_step(expect@, old(mapping)@, tok@) == Err::<(Grammar, Entries), Fault>(
            r->Err_0@,
        ),
        r is Err ==> r->Err_0.location.filename@ == tok.location.filename@,
{
    match expect {
        Expect::Key => match &tok.value {
            TokenValue::Identifier(w) => Ok(Expect::Colon(w.clone())),
            _ => Err(error_at(ErrorKind::ExpectedIdentifier, tok)),
        },
        Expect::Colon(k) => match &tok.value {
            TokenValue::SpecChar(c) => {
                if *c == ':' {
                    Ok(Expect::Value(k))
                } else {
                    Err(error_at(ErrorKind::ExpectedColon, tok))
                }
            },
            _ => Err(error_at(ErrorKind::ExpectedColon, tok)),
        },
        Expect::Value(k) => match &tok.value {
            TokenValue::Quoted(v, _) => {
                mapping.insert(k, Item::Text(v.clone()));
                Ok(Expect::Key)
            },
            _ => Err(error_at(ErrorKind::ExpectedString, tok)),
        },
    }
}

proof fn lemma_gen_run_extend(g: GenState, ts: Seq<TokenView>, i: int)
    requires
        0 <= i < ts.len(),
    ensures
        gen_run(g, ts.take(i + 1)) == match gen_run(g, ts.take(i)) {
            Ok(h) => gen_step(h, ts[i]),
            Err(e) => Err(e),
        },
{
    assert(ts.take(i + 1).drop_last() =~= ts.take(i));
}

proof fn lemma_gen_run_keeps_error(g: GenState, ts: Seq<TokenView>, k: int)
    requires
        0 <= k <= ts.len(),
        gen_run(g, ts.take(k)) is Err,
    ensures
        gen_run(g, ts) == gen_run(g, ts.take(k)),
    decreases ts.len(),
{
    if k == ts.len() {
        assert(ts.take(k) =~= ts);
    } else {
        assert(ts.drop_last().take(k) =~= ts.take(k));
        lemma_gen_run_keeps_error(g, ts.drop_last(), k);
    }
}

/// Folds the tokens into a mapping along the key / `:` / quoted value
/// grammar, or reports the first token that breaks it.
pub fn generate_mapping(tokens: &Vec<Token>) -> (r: Result<Mapping, Error>)
    ensures
        r is Ok ==> generate_spec(views(tokens@)) == Ok::<Entries, Fault>(r->Ok_0@),
        r is Ok ==> keys_unique(r->Ok_0@),
        r is Err ==> generate_spec(views(tokens@)) == Err::<Entries, Fault>(r->Err_0@),
        r is Err ==> exists|i: int|
            0 <= i < tokens@.len() && r->Err_0.location.filename@ == (
            #[trigger] tokens@[i]).location.filename@,
{
    let ghost ts = views(tokens@);
    let mut expect = Expect::Key;
    let mut comment_line: Option<usize> = None;
    let mut mapping = Mapping::new();
    let mut i: usize = 0;
    assert(ts.take(0) =~= Seq::<TokenView>::empty());
    while i < tokens.len()
        invariant
            i <= tokens.len(),
            ts == views(tokens@),
            gen_run(initial_gen_state(), ts.take(i as int)) == Ok::<GenState, Fault>(
                GenState { grammar: expect@, comment_line: line_of(comment_line), entries: mapping@ },
            ),
            keys_unique(mapping@),
        decreases tokens.len() - i,
    {
        let tok = &tokens[i];
        proof {
            lemma_gen_run_extend(initial_gen_state(), ts, i as int);
        }
        let line = tok.location.line_number;
        let skip = match comment_line {
            Some(l) => l == line,
            None => false,
        };
        if !skip {
            let starts_comment = match &tok.value {
                TokenValue::SpecChar(c) => *c == COMMENT_START,
                _ => false,
            };
            if starts_comment {
                comment_line = Some(line);
            } else {
                match feed(expect, &mut mapping, tok) {
                    Ok(next) => {
                        expect = next;
                        comment_line = None;
                    },
                    Err(e) => {
                        proof {
                            lemma_gen_run_keeps_error(initial_gen_state(), ts, i + 1);
                        }
                        return Err(e);
                    },
                }
            }
        }
        i = i + 1;
    }
    assert(ts.take(i as int) =~= ts);
    match expect {
        Expect::Key => Ok(mapping),
        _ => {
            let last = &tokens[tokens.len() - 1];
            Err(error_at(ErrorKind::IncompletePair, last))
        },
    }
}

/// The entries of the text `cs`, read from line `line0` and column `column0`
/// on, or the first error of the lexer or of the grammar.
pub open spec fn parse_spec(cs: Seq<char>, line0: nat, column0: nat) -> Result<Entries, Fault> {
    match lex_spec(cs, line0, column0) {
        Ok(ts) => generate_spec(ts),
        Err(e) => Err(e),
    }
}

/// Reads the mapping that `source` holds, its text starting at `start`.
pub fn parse(source: &str, start: &Location) -> (r: Result<Mapping, Error>)
    requires
        start.line_number + source@.len() <= usize::MAX,
        start.column_number + source@.len() <= usize::MAX,
    ensures
        r is Ok ==> parse_spec(source@, start.line_number as nat, start.column_number as nat)
            == Ok::<Entries, Fault>(r->Ok_0@),
        r is Ok ==> keys_unique(r->Ok_0@),
        r is Err ==> parse_spec(source@, start.line_number as nat, start.column_number as nat)
            == Err::<Entries, Fault>(r->Err_0@),
        r is Err ==> r->Err_0.location.filename@ == start.filename@,
{
    let tokens = lex(source, start)?;
    generate_mapping(&tokens)
}

} // verus!
