//! PGN tokens around the moves: tag pairs, move numbers and comments.
use vstd::prelude::*;
use vstd::string::StringExecFns;
use crate::fen::{str_chars, parse_number, number_field, digits_value};
use crate::text::{push_char, push_string, push_decimal, decimal, run_len, scan_run, is_ws, is_ws_char, string_from_chars};
use crate::pgn::error::PgnError;
use crate::pgn::move_info::{ws_class, digit_class, sub_chars};

verus! {

/// Characters of a tag name (letters, digits, underscore).
pub open spec fn word_class() -> spec_fn(char) -> bool {
    |c: char| ('a' <= c <= 'z') || ('A' <= c <= 'Z') || ('0' <= c <= '9') || c == '_'
}

/// Any character but a double quote.
pub open spec fn unquoted_class() -> spec_fn(char) -> bool {
    |c: char| c != '"'
}

/// Any character but a closing brace.
pub open spec fn unbraced_class() -> spec_fn(char) -> bool {
    |c: char| c != '}'
}

/// Periods.
pub open spec fn period_class() -> spec_fn(char) -> bool {
    |c: char| c == '.'
}

/// The end of the run of `class` starting at `i`.
pub open spec fn skip(s: Seq<char>, i: int, class: spec_fn(char) -> bool) -> int {
    i + run_len(s, i, class)
}

/// `s[i] == c`, within bounds.
pub open spec fn at(s: Seq<char>, i: int, c: char) -> bool {
    0 <= i < s.len() && s[i] == c
}

/// Start of a tag's name: after leading whitespace, `[` and whitespace.
pub open spec fn tag_name_start(s: Seq<char>) -> int {
    skip(s, skip(s, 0, ws_class()) + 1, ws_class())
}

/// End of a tag's name.
pub open spec fn tag_name_end(s: Seq<char>) -> int {
    skip(s, tag_name_start(s), word_class())
}

/// Position of the opening quote of a tag's value.
pub open spec fn tag_quote(s: Seq<char>) -> int {
    skip(s, tag_name_end(s), ws_class())
}

/// Position of the closing quote of a tag's value.
pub open spec fn tag_value_end(s: Seq<char>) -> int {
    skip(s, tag_quote(s) + 1, unquoted_class())
}

/// Position of the closing bracket of a tag.
pub open spec fn tag_bracket(s: Seq<char>) -> int {
    skip(s, tag_value_end(s) + 1, ws_class())
}

/// `s` is a tag pair: `[`, a name of letters, digits and underscores, a value in double quotes,
/// `]`, with whitespace allowed around the parts.
pub open spec fn tag_valid(s: Seq<char>) -> bool {
    &&& at(s, skip(s, 0, ws_class()), '[')
    &&& tag_name_end(s) > tag_name_start(s)
    &&& at(s, tag_quote(s), '"')
    &&& at(s, tag_value_end(s), '"')
    &&& at(s, tag_bracket(s), ']')
    &&& skip(s, tag_bracket(s) + 1, ws_class()) == s.len()
}

/// End of the digits of a move number.
pub open spec fn number_end(s: Seq<char>) -> int {
    skip(s, skip(s, 0, ws_class()), digit_class())
}

/// `s` is a move number: digits followed by one or more periods, with whitespace allowed
/// around.
pub open spec fn move_number_valid(s: Seq<char>) -> bool {
    &&& number_end(s) > skip(s, 0, ws_class())
    &&& skip(s, number_end(s), period_class()) > number_end(s)
    &&& skip(s, skip(s, number_end(s), period_class()), ws_class()) == s.len()
}

/// The digits of a move number.
pub open spec fn move_number_digits(s: Seq<char>) -> Seq<char> {
    s.subrange(skip(s, 0, ws_class()), number_end(s))
}

/// Position of the closing brace of a comment.
pub open spec fn comment_end(s: Seq<char>) -> int {
    skip(s, skip(s, 0, ws_class()) + 1, unbraced_class())
}

/// `s` is a comment: `{`, any text without `}`, `}`, with whitespace allowed around.
pub open spec fn comment_valid(s: Seq<char>) -> bool {
    &&& at(s, skip(s, 0, ws_class()), '{')
    &&& at(s, comment_end(s), '}')
    &&& skip(s, comment_end(s) + 1, ws_class()) == s.len()
}

/// A PGN tag pair such as `[Event "World Championship"]`.
#[derive(Clone, Debug, PartialEq)]
pub struct PgnTag {
    /// The tag's name.
    pub name: String,
    /// The tag's value.
    pub value: String,
}

/// A move number such as `12.` or `12...`.
#[derive(Clone, Copy, Debug, PartialEq, Eq, Structural)]
pub struct PgnMoveNumber {
    /// The number of the full move.
    pub fullmove_number: u16,
}

/// A comment such as `{a good move}`.
#[derive(Clone, Debug, PartialEq)]
pub struct PgnComment {
    /// The text between the braces.
    pub comment: String,
}

/// Whether `c` may be part of a tag name.
fn is_word_char(c: char) -> (r: bool)
    ensures
        r == word_class()(c),
{
    ('a' <= c && c <= 'z') || ('A' <= c && c <= 'Z') || ('0' <= c && c <= '9') || c == '_'
}

/// Skips whitespace from `i`.
fn skip_ws(v: &Vec<char>, i: usize) -> (j: usize)
    requires
        i <= v.len(),
    ensures
        j == skip(v@, i as int, ws_class()),
        j <= v.len(),
{
    scan_run(v, i, Ghost(ws_class()), |c: char| -> (b: bool)
        ensures
            b == ws_class()(c),
        { is_ws_char(c) })
}

impl PgnTag {
    /// Renders the tag as `[name "value"]`.
    pub fn render(&self) -> (r: String)
        ensures
            r@ == seq!['['] + self.name@ + seq![' ', '"'] + self.value@ + seq!['"', ']'],
    {
        let mut out = String::new();
        push_char(&mut out, '[');
        push_string(&mut out, &self.name);
        push_char(&mut out, ' ');
        push_char(&mut out, '"');
        push_string(&mut out, &self.value);
        push_char(&mut out, '"');
        push_char(&mut out, ']');
        proof {
            assert(out@ =~= seq!['['] + self.name@ + seq![' ', '"'] + self.value@ + seq!['"', ']']);
        }
        out
    }

    /// Reads a tag pair from `text`.
    pub fn parse(text: &str) -> (r: Result<PgnTag, PgnError>)
        ensures
            match r {
                Ok(t) => tag_valid(text@) && t.name@ == text@.subrange(tag_name_start(text@), tag_name_end(text@))
                    && t.value@ == text@.subrange(tag_quote(text@) + 1, tag_value_end(text@)),
                Err(e) => !tag_valid(text@) && (e matches PgnError::InvalidTag(t) && t@ == text@),
            },
    {
        let v = str_chars(text);
        let n = v.len();
        let b = skip_ws(&v, 0);
        if b >= n || v[b] != '[' {
            return Err(PgnError::InvalidTag(String::from_str(text)));
        }
        let ns = skip_ws(&v, b + 1);
        let ne = scan_run(&v, ns, Ghost(word_class()), |c: char| -> (r: bool)
            ensures
                r == word_class()(c),
            { is_word_char(c) });
        if ne == ns {
            return Err(PgnError::InvalidTag(String::from_str(text)));
        }
        let q = skip_ws(&v, ne);
        if q >= n || v[q] != '"' {
            return Err(PgnError::InvalidTag(String::from_str(text)));
        }
        let ve = scan_run(&v, q + 1, Ghost(unquoted_class()), |c: char| -> (r: bool)
            ensures
                r == unquoted_class()(c),
            { c != '"' });
        if ve >= n || v[ve] != '"' {
            return Err(PgnError::InvalidTag(String::from_str(text)));
        }
        let cb = skip_ws(&v, ve + 1);
        if cb >= n || v[cb] != ']' {
            return Err(PgnError::InvalidTag(String::from_str(text)));
        }
        let end = skip_ws(&v, cb + 1);
        if end != n {
            return Err(PgnError::InvalidTag(String::from_str(text)));
        }
        let name_chars = sub_chars(&v, ns, ne);
        let value_chars = sub_chars(&v, q + 1, ve);
        Ok(PgnTag {
            name: string_from_chars(name_chars.as_slice()),
            value: string_from_chars(value_chars.as_slice()),
        })
    }
}

impl PgnMoveNumber {
    /// Renders the number followed by `num_periods` periods.
    pub fn render(&self, num_periods: usize) -> (r: String)
        ensures
            r@ == decimal(self.fullmove_number as nat) + Seq::new(num_periods as nat, |i: int| '.'),
    {
        let mut out = String::new();
        push_decimal(&mut out, self.fullmove_number);
        let ghost d = out@;
        let mut k: usize = 0;
        while k < num_periods
            invariant
                k <= num_periods,
                out@ == d + Seq::new(k as nat, |i: int| '.'),
            decreases num_periods - k,
        {
            push_char(&mut out, '.');
            k = k + 1;
            proof {
                assert(out@ =~= d + Seq::new(k as nat, |i: int| '.'));
            }
        }
        out
    }

    /// Reads a move number from `text`; one that does not fit in 16 bits is invalid.
    pub fn parse(text: &str) -> (r: Result<PgnMoveNumber, PgnError>)
        ensures
            match r {
                Ok(m) => move_number_valid(text@) && m.fullmove_number == digits_value(
                    move_number_digits(text@),
                    move_number_digits(text@).len() as int,
                ),
                Err(e) => !(move_number_valid(text@) && digits_value(
                    move_number_digits(text@),
                    move_number_digits(text@).len() as int,
                ) <= 65535) && (e matches PgnError::InvalidMoveNumber(t) && t@ == text@),
            },
    {
        let v = str_chars(text);
        let n = v.len();
        let ds = skip_ws(&v, 0);
        let de = scan_run(&v, ds, Ghost(digit_class()), |c: char| -> (r: bool)
            ensures
                r == digit_class()(c),
            { '0' <= c && c <= '9' });
        let pe = scan_run(&v, de, Ghost(period_class()), |c: char| -> (r: bool)
            ensures
                r == period_class()(c),
            { c == '.' });
        let end = skip_ws(&v, pe);
        if de == ds || pe == de || end != n {
            return Err(PgnError::InvalidMoveNumber(String::from_str(text)));
        }
        let digits = sub_chars(&v, ds, de);
        proof {
            assert forall|k: int| 0 <= k < digits@.len() implies '0' <= #[trigger] digits@[k] <= '9' by {
                crate::text::lemma_run_members(v@, ds as int, digit_class(), ds + k);
            }
        }
        match parse_number(&digits, 65535) {
            Some(value) => Ok(PgnMoveNumber { fullmove_number: value as u16 }),
            None => Err(PgnError::InvalidMoveNumber(String::from_str(text))),
        }
    }
}

impl PgnComment {
    /// Renders the comment in braces.
    pub fn render(&self) -> (r: String)
        ensures
            r@ == seq!['{'] + self.comment@ + seq!['}'],
    {
        let mut out = String::new();
        push_char(&mut out, '{');
        push_string(&mut out, &self.comment);
        push_char(&mut out, '}');
        proof {
            assert(out@ =~= seq!['{'] + self.comment@ + seq!['}']);
        }
        out
    }

    /// Reads a comment from `text`.
    pub fn parse(text: &str) -> (r: Result<PgnComment, PgnError>)
        ensures
            match r {
                Ok(c) => comment_valid(text@) && c.comment@ == text@.subrange(
                    skip(text@, 0, ws_class()) + 1,
                    comment_end(text@),
                ),
                Err(e) => !comment_valid(text@) && (e matches PgnError::InvalidComment(t) && t@ == text@),
            },
    {
        let v = str_chars(text);
        let n = v.len();
        let b = skip_ws(&v, 0);
        if b >= n || v[b] != '{' {
            return Err(PgnError::InvalidComment(String::from_str(text)));
        }
        let ce = scan_run(&v, b + 1, Ghost(unbraced_class()), |c: char| -> (r: bool)
            ensures
                r == unbraced_class()(c),
            { c != '}' });
        if ce >= n {
            return Err(PgnError::InvalidComment(String::from_str(text)));
        }
        proof {
            crate::text::lemma_run_stop(v@, b + 1, unbraced_class());
        }
        let end = skip_ws(&v, ce + 1);
        if end != n {
            return Err(PgnError::InvalidComment(String::from_str(text)));
        }
        let inner = sub_chars(&v, b + 1, ce);
        Ok(PgnComment { comment: string_from_chars(inner.as_slice()) })
    }
}

} // verus!
