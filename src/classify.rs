//! Character classes of the configuration dialect, and the std functions
//! whose behaviour they rest on.
use vstd::prelude::*;

verus! {

/// Unicode's Lowercase property of a character.
pub uninterp spec fn lowercase_char(c: char) -> bool;

/// Unicode's Uppercase property of a character.
pub uninterp spec fn uppercase_char(c: char) -> bool;

/// Unicode's White_Space property of a character.
pub uninterp spec fn whitespace_char(c: char) -> bool;

/// Relies on `char::is_lowercase`: Unicode's Lowercase property; within ASCII
/// it holds of 'a' to 'z' alone.
pub assume_specification[ char::is_lowercase ](c: char) -> (r: bool)
    ensures
        r == lowercase_char(c),
        (c as u32) < 128 ==> (r <==> ('a' <= c && c <= 'z')),
;

/// Relies on `char::is_uppercase`: Unicode's Uppercase property; within ASCII
/// it holds of 'A' to 'Z' alone.
pub assume_specification[ char::is_uppercase ](c: char) -> (r: bool)
    ensures
        r == uppercase_char(c),
        (c as u32) < 128 ==> (r <==> ('A' <= c && c <= 'Z')),
;

/// Relies on `char::is_whitespace`: Unicode's White_Space property; within
/// ASCII it holds of the space and of U+0009 to U+000D alone.
pub assume_specification[ char::is_whitespace ](c: char) -> (r: bool)
    ensures
        r == whitespace_char(c),
        (c as u32) < 128 ==> (r <==> (c == ' ' || ('\t' <= c && c <= '\r'))),
;

/// Relies on `String::push`: appends one character at the end.
pub assume_specification[ String::push ](s: &mut String, ch: char)
    ensures
        final(s)@ == old(s)@.push(ch),
;

/// Characters that end a line: line feed, vertical tab and form feed.
pub open spec fn is_line_break(c: char) -> bool {
    c == '\n' || c == '\x0B' || c == '\x0C'
}

/// Characters of an identifier: letters (by case), ASCII digits, `-` and `_`.
pub open spec fn is_word_char(c: char) -> bool {
    if (c as u32) < 128 {
        ('a' <= c && c <= 'z') || ('A' <= c && c <= 'Z') || ('0' <= c && c <= '9') || c == '-'
            || c == '_'
    } else {
        lowercase_char(c) || uppercase_char(c)
    }
}

/// Whitespace characters: in ASCII the space and U+0009 to U+000D.
pub open spec fn is_blank(c: char) -> bool {
    if (c as u32) < 128 {
        c == ' ' || ('\t' <= c && c <= '\r')
    } else {
        whitespace_char(c)
    }
}

/// Characters that open and close a quoted string.
pub open spec fn is_quote_char(c: char) -> bool {
    c == '\'' || c == '"' || c == '`'
}

/// The character that starts a comment running to the end of its line.
pub const COMMENT_START: char = '#';

/// What the character after a backslash inside a quoted string stands for.
pub open spec fn unescape(c: char) -> Option<char> {
    if c == '\\' {
        Some('\\')
    } else if c == 'n' {
        Some('\n')
    } else if c == 't' {
        Some('\t')
    } else if c == 'r' {
        Some('\r')
    } else if c == '0' {
        Some('\0')
    } else if c == 'a' {
        Some('\x07')
    } else if c == 'b' {
        Some('\x08')
    } else if c == 'v' {
        Some('\x0B')
    } else if c == 'f' {
        Some('\x0C')
    } else if c == '\'' {
        Some('\'')
    } else if c == '"' {
        Some('"')
    } else {
        None
    }
}

pub fn line_break(c: char) -> (r: bool)
    ensures
        r == is_line_break(c),
{
    c == '\n' || c == '\x0B' || c == '\x0C'
}

pub fn word_char(c: char) -> (r: bool)
    ensures
        r == is_word_char(c),
{
    c.is_lowercase() || c.is_uppercase() || ('0' <= c && c <= '9') || c == '-' || c == '_'
}

pub fn blank(c: char) -> (r: bool)
    ensures
        r == is_blank(c),
{
    c.is_whitespace()
}

pub fn quote_char(c: char) -> (r: bool)
    ensures
        r == is_quote_char(c),
{
    c == '\'' || c == '"' || c == '`'
}

/// Decodes the character that follows a backslash in a quoted string.
pub fn unescape_char(c: char) -> (r: Option<char>)
    ensures
        r == unescape(c),
{
    match c {
        '\\' => Some('\\'),
        'n' => Some('\n'),
        't' => Some('\t'),
        'r' => Some('\r'),
        '0' => Some('\0'),
        'a' => Some('\x07'),
        'b' => Some('\x08'),
        'v' => Some('\x0B'),
        'f' => Some('\x0C'),
        '\'' => Some('\''),
        '"' => Some('"'),
        _ => None,
    }
}

} // verus!
