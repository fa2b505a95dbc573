//! Properties that relate the lexer, the generator and the renderer.
use vstd::prelude::*;
use crate::classify::{is_line_break, is_word_char, unescape, COMMENT_START};
use crate::error::Fault;
use crate::generator::{gen_run, generate_spec, initial_gen_state, parse_spec};
use crate::mapping::{upsert, Entries};
use crate::lexer::{
    flush, initial_state, lemma_run_concat, lex_finish, lex_run, lex_spec, lex_step, LexState, Mode,
};
use crate::render::{escape, escape_char, escape_code};
use crate::token::{Lexeme, TokenView};

verus! {

/// Reading two characters is two steps.
proof fn lemma_run_two(s: LexState, x: char, y: char, column0: nat)
    ensures
        lex_run(s, seq![x, y], column0) == match lex_step(s, x, column0) {
            Ok(t) => lex_step(t, y, column0),
            Err(e) => Err(e),
        },
{
    assert(seq![x, y].drop_last() =~= seq![x]);
    lemma_run_one(s, x, column0);
}

/// Reading one character is one step.
proof fn lemma_run_one(s: LexState, x: char, column0: nat)
    ensures
        lex_run(s, seq![x], column0) == lex_step(s, x, column0),
{
    assert(seq![x].drop_last() =~= Seq::<char>::empty());
    assert(lex_run(s, Seq::<char>::empty(), column0) == Ok::<LexState, Fault>(s));
}

/// Inside a string opened by `q`, the escaped form of `s` adds `s` to the
/// contents and leaves the string open.
proof fn lemma_escaped_body(st: LexState, s: Seq<char>, q: char, column0: nat)
    requires
        q == '"' || q == '\'',
        st.mode == (Mode::Quoted { quote: q, escaping: false }),
    ensures
        lex_run(st, escape(s), column0) is Ok,
        ({
            let t = lex_run(st, escape(s), column0)->Ok_0;
            &&& t.mode == st.mode
            &&& t.text == st.text + s
            &&& t.tokens == st.tokens
            &&& t.start_line == st.start_line
            &&& t.start_column == st.start_column
        }),
    decreases s.len(),
{
    if s.len() == 0 {
        assert(st.text + s =~= st.text);
    } else {
        let x = s.last();
        lemma_escaped_body(st, s.drop_last(), q, column0);
        lemma_run_concat(st, escape(s.drop_last()), escape_char(x), column0);
        let t = lex_run(st, escape(s.drop_last()), column0)->Ok_0;
        match escape_code(x) {
            Some(e) => {
                lemma_run_two(t, '\\', e, column0);
                assert(unescape(e) == Some(x));
            },
            None => {
                lemma_run_one(t, x, column0);
            },
        }
        assert(st.text + s =~= (st.text + s.drop_last()).push(x));
    }
}

/// Quoting the escaped form of any string and reading it back gives one
/// string token that holds exactly that string.
pub proof fn lemma_escape_round_trip(s: Seq<char>, q: char, line0: nat, column0: nat)
    requires
        q == '"' || q == '\'',
    ensures
        lex_spec(seq![q] + escape(s) + seq![q], line0, column0) == Ok::<Seq<TokenView>, Fault>(
            seq![TokenView { line: line0, column: column0, lexeme: Lexeme::Quoted(s, q) }],
        ),
{
    let s0 = initial_state(line0, column0);
    lemma_run_concat(s0, seq![q] + escape(s), seq![q], column0);
    lemma_run_concat(s0, seq![q], escape(s), column0);
    lemma_run_one(s0, q, column0);
    let s1 = lex_run(s0, seq![q], column0)->Ok_0;
    assert(s1.mode == (Mode::Quoted { quote: q, escaping: false }));
    lemma_escaped_body(s1, s, q, column0);
    let s2 = lex_run(s1, escape(s), column0)->Ok_0;
    lemma_run_one(s2, q, column0);
    assert(s1.text + s =~= s);
    assert(Seq::<TokenView>::empty().push(
        TokenView { line: line0, column: column0, lexeme: Lexeme::Quoted(s, q) },
    ) =~= seq![TokenView { line: line0, column: column0, lexeme: Lexeme::Quoted(s, q) }]);
}

/// Identifier characters extend an identifier that has begun.
proof fn lemma_word_body(st: LexState, w: Seq<char>, column0: nat)
    requires
        st.mode == Mode::Word,
        forall|i: int| 0 <= i < w.len() ==> is_word_char(#[trigger] w[i]),
    ensures
        lex_run(st, w, column0) is Ok,
        ({
            let t = lex_run(st, w, column0)->Ok_0;
            &&& t.mode == Mode::Word
            &&& t.text == st.text + w
            &&& t.tokens == st.tokens
            &&& t.start_line == st.start_line
            &&& t.start_column == st.start_column
        }),
    decreases w.len(),
{
    if w.len() == 0 {
        assert(st.text + w =~= st.text);
    } else {
        lemma_word_body(st, w.drop_last(), column0);
        assert(is_word_char(w[w.len() - 1]));
        assert(st.text + w =~= (st.text + w.drop_last()).push(w.last()));
    }
}

/// Spaces and tabs end a pending identifier and emit nothing else.
proof fn lemma_blanks(st: LexState, b: Seq<char>, column0: nat)
    requires
        st.mode == Mode::Idle || st.mode == Mode::Word,
        forall|i: int| 0 <= i < b.len() ==> #[trigger] b[i] == ' ' || b[i] == '\t',
    ensures
        lex_run(st, b, column0) is Ok,
        ({
            let t = lex_run(st, b, column0)->Ok_0;
            &&& t.mode == Mode::Idle || t == st
            &&& flush(t).tokens == flush(st).tokens
        }),
    decreases b.len(),
{
    if b.len() > 0 {
        lemma_blanks(st, b.drop_last(), column0);
        assert(b[b.len() - 1] == ' ' || b[b.len() - 1] == '\t');
    }
}

/// Inside a string opened by `q`, characters that are neither `q` nor a
/// backslash are kept as they stand.
proof fn lemma_raw_body(st: LexState, v: Seq<char>, q: char, column0: nat)
    requires
        st.mode == (Mode::Quoted { quote: q, escaping: false }),
        forall|i: int| 0 <= i < v.len() ==> #[trigger] v[i] != q && v[i] != '\\',
    ensures
        lex_run(st, v, column0) is Ok,
        ({
            let t = lex_run(st, v, column0)->Ok_0;
            &&& t.mode == st.mode
            &&& t.text == st.text + v
            &&& t.tokens == st.tokens
            &&& t.start_line == st.start_line
            &&& t.start_column == st.start_column
        }),
    decreases v.len(),
{
    if v.len() == 0 {
        assert(st.text + v =~= st.text);
    } else {
        lemma_raw_body(st, v.drop_last(), q, column0);
        assert(v[v.len() - 1] != q);
        assert(st.text + v =~= (st.text + v.drop_last()).push(v.last()));
    }
}

/// A key, a `:` and a double-quoted value, with spaces or tabs around the `:`, give
/// exactly one entry: the key and the value.
pub proof fn lemma_single_pair(
    key: Seq<char>,
    blanks1: Seq<char>,
    blanks2: Seq<char>,
    value: Seq<char>,
    line0: nat,
    column0: nat,
)
    requires
        key.len() > 0,
        forall|i: int| 0 <= i < key.len() ==> is_word_char(#[trigger] key[i]),
        forall|i: int| 0 <= i < blanks1.len() ==> #[trigger] blanks1[i] == ' ' || blanks1[i] == '\t',
        forall|i: int| 0 <= i < blanks2.len() ==> #[trigger] blanks2[i] == ' ' || blanks2[i] == '\t',
        forall|i: int| 0 <= i < value.len() ==> #[trigger] value[i] != '"' && value[i] != '\\',
    ensures
        parse_spec(
            key + blanks1 + seq![':'] + blanks2 + seq!['"'] + value + seq!['"'],
            line0,
            column0,
        ) == Ok::<Seq<(Seq<char>, Seq<char>)>, Fault>(seq![(key, value)]),
{
    let s0 = initial_state(line0, column0);
    let x1 = key + blanks1;
    let x2 = x1 + seq![':'];
    let x3 = x2 + blanks2;
    let x4 = x3 + seq!['"'];
    let x5 = x4 + value;
    let x6 = x5 + seq!['"'];
    // the key
    let rest = key.drop_first();
    assert(key =~= seq![key[0]] + rest);
    assert(is_word_char(key[0]));
    lemma_run_concat(s0, seq![key[0]], rest, column0);
    lemma_run_one(s0, key[0], column0);
    let s1 = lex_run(s0, seq![key[0]], column0)->Ok_0;
    assert forall|i: int| 0 <= i < rest.len() implies is_word_char(#[trigger] rest[i]) by {
        assert(rest[i] == key[i + 1]);
    }
    lemma_word_body(s1, rest, column0);
    let sk = lex_run(s1, rest, column0)->Ok_0;
    assert(seq![key[0]] + rest == key);
    assert(sk.text == key);
    // blanks, `:`, blanks
    lemma_run_concat(s0, key, blanks1, column0);
    lemma_blanks(sk, blanks1, column0);
    let t1 = lex_run(sk, blanks1, column0)->Ok_0;
    lemma_run_concat(s0, x1, seq![':'], column0);
    lemma_run_one(t1, ':', column0);
    let t2 = lex_run(t1, seq![':'], column0)->Ok_0;
    lemma_run_concat(s0, x2, blanks2, column0);
    lemma_blanks(t2, blanks2, column0);
    let t3 = lex_run(t2, blanks2, column0)->Ok_0;
    // the quoted value
    lemma_run_concat(s0, x3, seq!['"'], column0);
    lemma_run_one(t3, '"', column0);
    let t4 = lex_run(t3, seq!['"'], column0)->Ok_0;
    lemma_run_concat(s0, x4, value, column0);
    lemma_raw_body(t4, value, '"', column0);
    let t5 = lex_run(t4, value, column0)->Ok_0;
    lemma_run_concat(s0, x5, seq!['"'], column0);
    lemma_run_one(t5, '"', column0);
    let t6 = lex_run(t5, seq!['"'], column0)->Ok_0;
    assert(t4.text + value =~= value);
    let ts = t6.tokens;
    assert(lex_spec(x6, line0, column0) == Ok::<Seq<TokenView>, Fault>(ts));
    assert(ts.len() == 3);
    assert(ts[0].lexeme == Lexeme::Identifier(key));
    assert(ts[1].lexeme == Lexeme::SpecChar(':'));
    assert(ts[2].lexeme == Lexeme::Quoted(value, '"'));
    // the grammar
    let g0 = initial_gen_state();
    assert(ts.drop_last().drop_last().drop_last() =~= Seq::<TokenView>::empty());
    assert(ts.drop_last().drop_last().last() == ts[0]);
    assert(ts.drop_last().last() == ts[1]);
    reveal_with_fuel(gen_run, 4);
    assert(upsert(Seq::empty(), key, value) =~= seq![(key, value)]);
}

/// Reading `a` does not leave the lexer inside a quoted string.
pub open spec fn outside_string(a: Seq<char>, line0: nat, column0: nat) -> bool {
    lex_run(initial_state(line0, column0), a, column0) is Ok ==> !(lex_run(
        initial_state(line0, column0),
        a,
        column0,
    )->Ok_0.mode is Quoted)
}

/// Inside a comment, characters other than line breaks change nothing but
/// the column.
proof fn lemma_comment_body(st: LexState, c: Seq<char>, column0: nat)
    requires
        st.mode == Mode::Comment,
        forall|i: int| 0 <= i < c.len() ==> !is_line_break(#[trigger] c[i]),
    ensures
        lex_run(st, c, column0) is Ok,
        (LexState { column: st.column, ..lex_run(st, c, column0)->Ok_0 }) == st,
    decreases c.len(),
{
    if c.len() > 0 {
        lemma_comment_body(st, c.drop_last(), column0);
        assert(!is_line_break(c[c.len() - 1]));
    }
}

/// A comment that ends a line leaves the same state as the bare line break.
proof fn lemma_comment_then_break(st: LexState, c: Seq<char>, lb: char, column0: nat)
    requires
        !(st.mode is Quoted),
        forall|i: int| 0 <= i < c.len() ==> !is_line_break(#[trigger] c[i]),
        is_line_break(lb),
    ensures
        lex_run(st, seq![COMMENT_START] + c + seq![lb], column0) == lex_run(st, seq![lb], column0),
{
    lemma_run_concat(st, seq![COMMENT_START] + c, seq![lb], column0);
    lemma_run_concat(st, seq![COMMENT_START], c, column0);
    lemma_run_one(st, COMMENT_START, column0);
    let sh = lex_run(st, seq![COMMENT_START], column0)->Ok_0;
    lemma_comment_body(sh, c, column0);
    let sc = lex_run(sh, c, column0)->Ok_0;
    lemma_run_one(sc, lb, column0);
    lemma_run_one(st, lb, column0);
}

/// A comment that runs to the end of the input emits what the end of the
/// input would.
proof fn lemma_comment_at_end(st: LexState, c: Seq<char>, column0: nat)
    requires
        !(st.mode is Quoted),
        forall|i: int| 0 <= i < c.len() ==> !is_line_break(#[trigger] c[i]),
    ensures
        lex_run(st, seq![COMMENT_START] + c, column0) is Ok,
        lex_finish(lex_run(st, seq![COMMENT_START] + c, column0)->Ok_0) == lex_finish(st),
{
    lemma_run_concat(st, seq![COMMENT_START], c, column0);
    lemma_run_one(st, COMMENT_START, column0);
    let sh = lex_run(st, seq![COMMENT_START], column0)->Ok_0;
    lemma_comment_body(sh, c, column0);
}

/// A comment added at the end of a line, outside any string, changes
/// neither the entries nor the error that the text gives.
pub proof fn lemma_trailing_comment(a: Seq<char>, c: Seq<char>, b: Seq<char>, line0: nat, column0: nat)
    requires
        outside_string(a, line0, column0),
        forall|i: int| 0 <= i < c.len() ==> !is_line_break(#[trigger] c[i]),
        b.len() == 0 || is_line_break(b[0]),
    ensures
        parse_spec(a + seq![COMMENT_START] + c + b, line0, column0) == parse_spec(a + b, line0, column0),
{
    let s0 = initial_state(line0, column0);
    let x = seq![COMMENT_START] + c;
    assert(a + seq![COMMENT_START] + c + b =~= a + (x + b));
    lemma_run_concat(s0, a, x + b, column0);
    lemma_run_concat(s0, a, b, column0);
    if lex_run(s0, a, column0) is Ok {
        let sa = lex_run(s0, a, column0)->Ok_0;
        if b.len() == 0 {
            assert(x + b =~= x);
            assert(a + b =~= a);
            lemma_comment_at_end(sa, c, column0);
        } else {
            let lb = b[0];
            let rest = b.drop_first();
            assert(x + b =~= (x + seq![lb]) + rest);
            assert(b =~= seq![lb] + rest);
            lemma_run_concat(sa, x + seq![lb], rest, column0);
            lemma_run_concat(sa, seq![lb], rest, column0);
            lemma_comment_then_break(sa, c, lb, column0);
        }
    }
}

/// The contents of the tokens, without their positions.
pub open spec fn lexemes(ts: Seq<TokenView>) -> Seq<Lexeme> {
    ts.map_values(|t: TokenView| t.lexeme)
}

/// Two results agree but for positions: the same entries, or errors of the
/// same kind.
pub open spec fn same_outcome(r1: Result<Entries, Fault>, r2: Result<Entries, Fault>) -> bool {
    match (r1, r2) {
        (Ok(x), Ok(y)) => x == y,
        (Err(e), Err(f)) => e.kind == f.kind,
        _ => false,
    }
}

/// Two lexer states that agree but for positions.
spec fn same_shape(s: LexState, t: LexState) -> bool {
    &&& s.mode == t.mode
    &&& s.text == t.text
    &&& lexemes(s.tokens) == lexemes(t.tokens)
}

/// No token is a comment mark.
spec fn no_comment_mark(ls: Seq<Lexeme>) -> bool {
    forall|i: int| 0 <= i < ls.len() ==> #[trigger] ls[i] != Lexeme::SpecChar(COMMENT_START)
}

proof fn lemma_lexemes_push(ts: Seq<TokenView>, t: TokenView)
    ensures
        lexemes(ts.push(t)) == lexemes(ts).push(t.lexeme),
{
    assert(lexemes(ts.push(t)) =~= lexemes(ts).push(t.lexeme));
}

proof fn lemma_step_shape(s: LexState, t: LexState, c: char, column0: nat)
    requires
        same_shape(s, t),
    ensures
        lex_step(s, c, column0) is Ok <==> lex_step(t, c, column0) is Ok,
        lex_step(s, c, column0) is Ok ==> same_shape(
            lex_step(s, c, column0)->Ok_0,
            lex_step(t, c, column0)->Ok_0,
        ),
        lex_step(s, c, column0) is Err ==> lex_step(s, c, column0)->Err_0.kind == lex_step(
            t,
            c,
            column0,
        )->Err_0.kind,
{
    let ws = TokenView { line: s.start_line, column: s.start_column, lexeme: Lexeme::Identifier(s.text) };
    let wt = TokenView { line: t.start_line, column: t.start_column, lexeme: Lexeme::Identifier(t.text) };
    lemma_lexemes_push(s.tokens, ws);
    lemma_lexemes_push(t.tokens, wt);
    assert(same_shape(flush(s), flush(t)));
    match s.mode {
        Mode::Quoted { quote, escaping } => {
            lemma_lexemes_push(
                s.tokens,
                TokenView { line: s.start_line, column: s.start_column, lexeme: Lexeme::Quoted(s.text, quote) },
            );
            lemma_lexemes_push(
                t.tokens,
                TokenView { line: t.start_line, column: t.start_column, lexeme: Lexeme::Quoted(t.text, quote) },
            );
        },
        Mode::Comment => {},
        _ => {
            lemma_lexemes_push(flush(s).tokens, TokenView { line: s.line, column: s.column, lexeme: Lexeme::SpecChar(c) });
            lemma_lexemes_push(flush(t).tokens, TokenView { line: t.line, column: t.column, lexeme: Lexeme::SpecChar(c) });
        },
    }
}

proof fn lemma_run_shape(s: LexState, t: LexState, cs: Seq<char>, column0: nat)
    requires
        same_shape(s, t),
    ensures
        lex_run(s, cs, column0) is Ok <==> lex_run(t, cs, column0) is Ok,
        lex_run(s, cs, column0) is Ok ==> same_shape(
            lex_run(s, cs, column0)->Ok_0,
            lex_run(t, cs, column0)->Ok_0,
        ),
        lex_run(s, cs, column0) is Err ==> lex_run(s, cs, column0)->Err_0.kind == lex_run(
            t,
            cs,
            column0,
        )->Err_0.kind,
    decreases cs.len(),
{
    if cs.len() > 0 {
        lemma_run_shape(s, t, cs.drop_last(), column0);
        if lex_run(s, cs.drop_last(), column0) is Ok {
            lemma_step_shape(
                lex_run(s, cs.drop_last(), column0)->Ok_0,
                lex_run(t, cs.drop_last(), column0)->Ok_0,
                cs.last(),
                column0,
            );
        }
    }
}

proof fn lemma_step_no_mark(s: LexState, c: char, column0: nat)
    requires
        no_comment_mark(lexemes(s.tokens)),
        lex_step(s, c, column0) is Ok,
    ensures
        no_comment_mark(lexemes(lex_step(s, c, column0)->Ok_0.tokens)),
{
    lemma_lexemes_push(
        s.tokens,
        TokenView { line: s.start_line, column: s.start_column, lexeme: Lexeme::Identifier(s.text) },
    );
    match s.mode {
        Mode::Quoted { quote, escaping } => {
            lemma_lexemes_push(
                s.tokens,
                TokenView { line: s.start_line, column: s.start_column, lexeme: Lexeme::Quoted(s.text, quote) },
            );
        },
        Mode::Comment => {},
        _ => {
            lemma_lexemes_push(flush(s).tokens, TokenView { line: s.line, column: s.column, lexeme: Lexeme::SpecChar(c) });
        },
    }
}

proof fn lemma_run_no_mark(s: LexState, cs: Seq<char>, column0: nat)
    requires
        no_comment_mark(lexemes(s.tokens)),
        lex_run(s, cs, column0) is Ok,
    ensures
        no_comment_mark(lexemes(lex_run(s, cs, column0)->Ok_0.tokens)),
    decreases cs.len(),
{
    if cs.len() > 0 {
        lemma_run_no_mark(s, cs.drop_last(), column0);
        lemma_step_no_mark(lex_run(s, cs.drop_last(), column0)->Ok_0, cs.last(), column0);
    }
}

/// The lexer never emits a comment mark as a token.
proof fn lemma_lex_no_mark(cs: Seq<char>, line0: nat, column0: nat)
    ensures
        lex_spec(cs, line0, column0) is Ok ==> no_comment_mark(lexemes(lex_spec(cs, line0, column0)->Ok_0)),
{
    let s0 = initial_state(line0, column0);
    assert(lexemes(s0.tokens) =~= Seq::<Lexeme>::empty());
    if lex_run(s0, cs, column0) is Ok {
        lemma_run_no_mark(s0, cs, column0);
        let s = lex_run(s0, cs, column0)->Ok_0;
        lemma_lexemes_push(
            s.tokens,
            TokenView { line: s.start_line, column: s.start_column, lexeme: Lexeme::Identifier(s.text) },
        );
    }
}

/// Without comment marks, the grammar goes by the tokens' contents alone.
proof fn lemma_gen_shape(ts: Seq<TokenView>, us: Seq<TokenView>)
    requires
        lexemes(ts) == lexemes(us),
        no_comment_mark(lexemes(ts)),
    ensures
        gen_run(initial_gen_state(), ts) is Ok <==> gen_run(initial_gen_state(), us) is Ok,
        gen_run(initial_gen_state(), ts) is Ok ==> ({
            let g = gen_run(initial_gen_state(), ts)->Ok_0;
            let h = gen_run(initial_gen_state(), us)->Ok_0;
            &&& g.grammar == h.grammar
            &&& g.entries == h.entries
            &&& g.comment_line is None
            &&& h.comment_line is None
        }),
        gen_run(initial_gen_state(), ts) is Err ==> gen_run(initial_gen_state(), ts)->Err_0.kind
            == gen_run(initial_gen_state(), us)->Err_0.kind,
    decreases ts.len(),
{
    assert(ts.len() == lexemes(ts).len() && us.len() == lexemes(us).len());
    if ts.len() > 0 {
        assert(lexemes(ts.drop_last()) =~= lexemes(ts).drop_last());
        assert(lexemes(us.drop_last()) =~= lexemes(us).drop_last());
        assert forall|i: int| 0 <= i < lexemes(ts.drop_last()).len() implies #[trigger] lexemes(ts.drop_last())[i]
            != Lexeme::SpecChar(COMMENT_START) by {
            assert(lexemes(ts.drop_last())[i] == lexemes(ts)[i]);
        }
        lemma_gen_shape(ts.drop_last(), us.drop_last());
        assert(lexemes(ts)[ts.len() - 1] == ts.last().lexeme);
        assert(lexemes(us)[us.len() - 1] == us.last().lexeme);
    }
}

/// Two token sequences with the same contents and no comment mark give the
/// same outcome.
proof fn lemma_generate_shape(ts: Seq<TokenView>, us: Seq<TokenView>)
    requires
        lexemes(ts) == lexemes(us),
        no_comment_mark(lexemes(ts)),
    ensures
        same_outcome(generate_spec(ts), generate_spec(us)),
{
    lemma_gen_shape(ts, us);
}

/// A comment on a line of its own, outside any string, changes neither the
/// entries nor the kind of error that the text gives.
pub proof fn lemma_comment_line(
    a: Seq<char>,
    c: Seq<char>,
    lb: char,
    b: Seq<char>,
    line0: nat,
    column0: nat,
)
    requires
        a.len() == 0 || is_line_break(a.last()),
        outside_string(a, line0, column0),
        forall|i: int| 0 <= i < c.len() ==> !is_line_break(#[trigger] c[i]),
        is_line_break(lb),
    ensures
        same_outcome(
            parse_spec(a + seq![COMMENT_START] + c + seq![lb] + b, line0, column0),
            parse_spec(a + b, line0, column0),
        ),
{
    let s0 = initial_state(line0, column0);
    let x = seq![COMMENT_START] + c + seq![lb];
    assert(a + seq![COMMENT_START] + c + seq![lb] + b =~= a + (x + b));
    lemma_run_concat(s0, a, x + b, column0);
    lemma_run_concat(s0, a, b, column0);
    if lex_run(s0, a, column0) is Ok {
        let sa = lex_run(s0, a, column0)->Ok_0;
        if a.len() > 0 {
            assert(a.drop_last() + seq![a.last()] =~= a);
            lemma_run_concat(s0, a.drop_last(), seq![a.last()], column0);
            lemma_run_one(lex_run(s0, a.drop_last(), column0)->Ok_0, a.last(), column0);
        } else {
            assert(lex_run(s0, a, column0) == Ok::<LexState, Fault>(s0));
        }
        assert(sa.mode == Mode::Idle);
        assert(sa.column == column0);
        // the comment line only moves to the next line
        lemma_run_concat(sa, seq![COMMENT_START] + c, seq![lb], column0);
        lemma_run_concat(sa, seq![COMMENT_START], c, column0);
        lemma_run_one(sa, COMMENT_START, column0);
        let sh = lex_run(sa, seq![COMMENT_START], column0)->Ok_0;
        lemma_comment_body(sh, c, column0);
        let sc = lex_run(sh, c, column0)->Ok_0;
        lemma_run_one(sc, lb, column0);
        let sx = lex_run(sa, x, column0)->Ok_0;
        assert(same_shape(sx, sa));
        lemma_run_concat(sa, x, b, column0);
        lemma_run_shape(sx, sa, b, column0);
        let r1 = lex_run(sx, b, column0);
        let r2 = lex_run(sa, b, column0);
        if r1 is Ok {
            let f1 = r1->Ok_0;
            let f2 = r2->Ok_0;
            let w1 = TokenView { line: f1.start_line, column: f1.start_column, lexeme: Lexeme::Identifier(f1.text) };
            let w2 = TokenView { line: f2.start_line, column: f2.start_column, lexeme: Lexeme::Identifier(f2.text) };
            lemma_lexemes_push(f1.tokens, w1);
            lemma_lexemes_push(f2.tokens, w2);
            lemma_lex_no_mark(a + b, line0, column0);
            if !(f1.mode is Quoted) {
                lemma_generate_shape(flush(f2).tokens, flush(f1).tokens);
                lemma_generate_shape(flush(f1).tokens, flush(f2).tokens);
            }
        }
    }
}

} // verus!
