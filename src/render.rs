//! Rendering a mapping as a Vim script dictionary or a JSON object.
use vstd::prelude::*;
use crate::mapping::{Entries, Mapping};

verus! {

/// The target syntax of rendering.
#[derive(Debug, Clone, Copy, PartialEq, Eq, Structural)]
pub enum Format {
    Vim,
    Json,
}

/// The letter that follows a backslash to stand for `c` in a quoted value,
/// for the characters that the escape table holds.
pub open spec fn escape_code(c: char) -> Option<char> {
    if c == '\\' {
        Some('\\')
    } else if c == '\n' {
        Some('n')
    } else if c == '\t' {
        Some('t')
    } else if c == '\r' {
        Some('r')
    } else if c == '\0' {
        Some('0')
    } else if c == '\x07' {
        Some('a')
    } else if c == '\x08' {
        Some('b')
    } else if c == '\x0B' {
        Some('v')
    } else if c == '\x0C' {
        Some('f')
    } else if c == '\'' {
        Some('\'')
    } else if c == '"' {
        Some('"')
    } else {
        None
    }
}

/// How character `c` is written inside a quoted value.
pub open spec fn escape_char(c: char) -> Seq<char> {
    match escape_code(c) {
        Some(e) => seq!['\\', e],
        None => seq![c],
    }
}

/// How the string `s` is written inside a quoted value.
pub open spec fn escape(s: Seq<char>) -> Seq<char>
    decreases s.len(),
{
    if s.len() == 0 {
        Seq::empty()
    } else {
        escape(s.drop_last()) + escape_char(s.last())
    }
}

fn escape_code_of(c: char) -> (r: Option<char>)
    ensures
        r == escape_code(c),
{
    match c {
        '\\' => Some('\\'),
        '\n' => Some('n'),
        '\t' => Some('t'),
        '\r' => Some('r'),
        '\0' => Some('0'),
        '\x07' => Some('a'),
        '\x08' => Some('b'),
        '\x0B' => Some('v'),
        '\x0C' => Some('f'),
        '\'' => Some('\''),
        '"' => Some('"'),
        _ => None,
    }
}

/// Writes `s` with a backslash escape for each character of the escape
/// table, ready to stand between quotes.
pub fn repr(s: &str) -> (r: String)
    ensures
        r@ == escape(s@),
{
    let mut out = String::new();
    assert(s@.take(0) =~= Seq::<char>::empty());
    for c in it: s.chars()
        invariant
            it.seq() == s@,
            out@ == escape(s@.take(it.index() as int)),
    {
        let ghost i = it.index() as int;
        assert(s@.take(i + 1).drop_last() =~= s@.take(i));
        match escape_code_of(c) {
            Some(e) => {
                out.push('\\');
                out.push(e);
                assert(out@ =~= escape(s@.take(i)) + seq!['\\', e]);
            },
            None => {
                out.push(c);
                assert(out@ =~= escape(s@.take(i)) + seq![c]);
            },
        }
    }
    assert(s@.take(s@.len() as int) =~= s@);
    out
}

/// Appends `s` to `out`.
pub fn push_str(out: &mut String, s: &str)
    ensures
        final(out)@ == old(out)@ + s@,
{
    let ghost start = out@;
    assert(s@.take(0) =~= Seq::<char>::empty());
    for c in it: s.chars()
        invariant
            it.seq() == s@,
            out@ == start + s@.take(it.index() as int),
    {
        let ghost i = it.index() as int;
        out.push(c);
        assert(s@.take(i + 1) =~= s@.take(i).push(c));
        assert(out@ =~= start + s@.take(i + 1));
    }
    assert(s@.take(s@.len() as int) =~= s@);
}

/// The opening line of the rendering.
pub open spec fn header(f: Format, name: Seq<char>) -> Seq<char> {
    match f {
        Format::Vim => "let g:"@ + name + " = {\n"@,
        Format::Json => "{\n"@,
    }
}

/// The line of one entry.
pub open spec fn entry_line(f: Format, k: Seq<char>, v: Seq<char>) -> Seq<char> {
    match f {
        Format::Vim => "\\    '"@ + k + "': \""@ + escape(v) + "\",\n"@,
        Format::Json => "    \""@ + k + "\": \""@ + escape(v) + "\",\n"@,
    }
}

/// The lines of the entries, in order.
pub open spec fn entry_lines(f: Format, es: Entries) -> Seq<char>
    decreases es.len(),
{
    if es.len() == 0 {
        Seq::empty()
    } else {
        entry_lines(f, es.drop_last()) + entry_line(f, es.last().0, es.last().1)
    }
}

/// The closing line of the rendering.
pub open spec fn footer(f: Format) -> Seq<char> {
    match f {
        Format::Vim => "\\}\n"@,
        Format::Json => "}\n"@,
    }
}

/// The whole rendering of the entries `es`, with variable name `name` for
/// Vim script.
pub open spec fn rendering(f: Format, name: Seq<char>, es: Entries) -> Seq<char> {
    header(f, name) + entry_lines(f, es) + footer(f)
}

/// Renders the mapping in `format`, one entry per line in the mapping's
/// order, each value escaped.
pub fn generate_output(mapping: &Mapping, format: Format, variable_name: &str) -> (r: String)
    ensures
        r@ == rendering(format, variable_name@, mapping@),
{
    let mut out = String::new();
    match format {
        Format::Vim => {
            push_str(&mut out, "let g:");
            push_str(&mut out, variable_name);
            push_str(&mut out, " = {\n");
        },
        Format::Json => {
            push_str(&mut out, "{\n");
        },
    }
    assert(out@ =~= header(format, variable_name@));
    let mut i: usize = 0;
    assert(mapping@.take(0) =~= Seq::<(Seq<char>, Seq<char>)>::empty());
    while i < mapping.len()
        invariant
            i <= mapping@.len(),
            out@ == header(format, variable_name@) + entry_lines(format, mapping@.take(i as int)),
        decreases mapping@.len() - i,
    {
        let key = mapping.key_at(i);
        let value = mapping.value_at(i).to_string();
        let escaped = repr(value.as_str());
        let ghost before = out@;
        match format {
            Format::Vim => {
                push_str(&mut out, "\\    '");
                push_str(&mut out, key.as_str());
                push_str(&mut out, "': \"");
                push_str(&mut out, escaped.as_str());
                push_str(&mut out, "\",\n");
            },
            Format::Json => {
                push_str(&mut out, "    \"");
                push_str(&mut out, key.as_str());
                push_str(&mut out, "\": \"");
                push_str(&mut out, escaped.as_str());
                push_str(&mut out, "\",\n");
            },
        }
        assert(mapping@.take(i + 1).drop_last() =~= mapping@.take(i as int));
        assert(out@ =~= before + entry_line(format, mapping@[i as int].0, mapping@[i as int].1));
        i = i + 1;
    }
    assert(mapping@.take(i as int) =~= mapping@);
    match format {
        Format::Vim => push_str(&mut out, "\\}\n"),
        Format::Json => push_str(&mut out, "}\n"),
    }
    out
}

} // verus!
