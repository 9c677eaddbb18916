//! What PGN writes after a move: check mark, annotation and NAG.
use vstd::prelude::*;
use crate::fen::{parse_number, number_field, digits_value};
use crate::text::{push_char, push_string, push_decimal, decimal, run_len, scan_run, is_ws, is_ws_char, is_digit, string_from_chars, lemma_run_members, lemma_run_stop};

verus! {

/// Check or checkmate, annotation and NAG of a move in PGN.
#[derive(Clone, Debug, PartialEq)]
pub struct PgnCommonMoveInfo {
    /// The move gives check (`+` or `#`).
    pub is_check: bool,
    /// The move gives checkmate (`#`).
    pub is_checkmate: bool,
    /// Textual annotation such as `!?`.
    pub annotation: Option<String>,
    /// Numeric Annotation Glyph, when it fits in a byte.
    pub nag: Option<u8>,
}

/// A check or checkmate mark.
pub open spec fn is_check_mark(c: char) -> bool {
    c == '+' || c == '#'
}

/// The characters annotations are made of.
pub open spec fn annotation_class() -> spec_fn(char) -> bool {
    |c: char| c == '?' || c == '!'
}

/// Whitespace.
pub open spec fn ws_class() -> spec_fn(char) -> bool {
    |c: char| is_ws(c)
}

/// Decimal digits.
pub open spec fn digit_class() -> spec_fn(char) -> bool {
    |c: char| is_digit(c)
}

/// Where the check mark of a suffix starting at `i` ends.
pub open spec fn check_end(s: Seq<char>, i: int) -> int {
    if 0 <= i < s.len() && is_check_mark(s[i]) {
        i + 1
    } else {
        i
    }
}

/// Where the annotation of a suffix starting at `i` ends.
pub open spec fn annotation_end(s: Seq<char>, i: int) -> int {
    check_end(s, i) + run_len(s, check_end(s, i), annotation_class())
}

/// Where the whitespace after the annotation of a suffix starting at `i` ends.
pub open spec fn blank_end(s: Seq<char>, i: int) -> int {
    annotation_end(s, i) + run_len(s, annotation_end(s, i), ws_class())
}

/// The NAG digits of a suffix starting at `i` (after its `$`).
pub open spec fn nag_digits(s: Seq<char>, i: int) -> Seq<char> {
    s.subrange(blank_end(s, i) + 1, s.len() as int)
}

/// From `i` on, `s` is a move suffix: an optional check mark, an optional run of `?` and `!`,
/// whitespace, and optionally `$` followed by digits, up to the end.
pub open spec fn suffix_valid(s: Seq<char>, i: int) -> bool {
    blank_end(s, i) == s.len() || (s[blank_end(s, i)] == '$' && number_field(nag_digits(s, i)) is Some)
}

/// The NAG value a suffix gives: its number when it fits in a byte.
pub open spec fn nag_value(s: Seq<char>, i: int) -> Option<u8> {
    if blank_end(s, i) < s.len() && digits_value(nag_digits(s, i), nag_digits(s, i).len() as int) <= 255 {
        Some(digits_value(nag_digits(s, i), nag_digits(s, i).len() as int) as u8)
    } else {
        None
    }
}

/// `info` is what the valid suffix of `s` starting at `i` says.
pub open spec fn suffix_describes(s: Seq<char>, i: int, info: PgnCommonMoveInfo) -> bool {
    &&& info.is_check == (check_end(s, i) == i + 1)
    &&& info.is_checkmate == (check_end(s, i) == i + 1 && s[i] == '#')
    &&& (if annotation_end(s, i) > check_end(s, i) {
        info.annotation matches Some(a) && a@ == s.subrange(check_end(s, i), annotation_end(s, i))
    } else {
        info.annotation is None
    })
    &&& info.nag == nag_value(s, i)
}

/// The text of a check mark: `#` for checkmate, `+` for check, nothing otherwise.
pub open spec fn check_text(is_check: bool, is_checkmate: bool) -> Seq<char> {
    if is_checkmate {
        seq!['#']
    } else if is_check {
        seq!['+']
    } else {
        Seq::empty()
    }
}

/// The rendering of `info`: check mark, then the annotation and " $" with the NAG when they
/// are present and included.
pub open spec fn info_text(info: PgnCommonMoveInfo, include_annotation: bool, include_nag: bool) -> Seq<char> {
    check_text(info.is_check, info.is_checkmate) + (if include_annotation && info.annotation is Some {
        info.annotation->0@
    } else {
        Seq::empty()
    }) + (if include_nag && info.nag is Some {
        seq![' ', '$'] + decimal(info.nag->0 as nat)
    } else {
        Seq::empty()
    })
}

/// Whether `c` is an annotation character.
fn is_annotation_char(c: char) -> (r: bool)
    ensures
        r == annotation_class()(c),
{
    c == '?' || c == '!'
}

/// Whether `c` is a digit.
fn is_digit_char(c: char) -> (r: bool)
    ensures
        r == digit_class()(c),
{
    '0' <= c && c <= '9'
}

/// The characters `v[i..j]`.
pub(crate) fn sub_chars(v: &Vec<char>, i: usize, j: usize) -> (r: Vec<char>)
    requires
        i <= j <= v.len(),
    ensures
        r@ == v@.subrange(i as int, j as int),
{
    let mut r: Vec<char> = Vec::new();
    let mut k = i;
    while k < j
        invariant
            i <= k <= j <= v.len(),
            r@ == v@.subrange(i as int, k as int),
        decreases j - k,
    {
        r.push(v[k]);
        proof {
            assert(v@.subrange(i as int, k + 1) == v@.subrange(i as int, k as int).push(v@[k as int]));
        }
        k = k + 1;
    }
    r
}

impl PgnCommonMoveInfo {
    /// Builds the move information from the parts of a move's text: the check mark, if any,
    /// the annotation, if any, and the NAG digits, if any (a NAG that does not fit in a byte is
    /// dropped).
    pub fn from(check_or_checkmate: Option<char>, annotation: Option<String>, nag: Option<&Vec<char>>) -> (r: PgnCommonMoveInfo)
        ensures
            r.is_check == check_or_checkmate is Some,
            r.is_checkmate == (check_or_checkmate == Some('#')),
            r.annotation == annotation,
            r.nag == (match nag {
                Some(d) => match number_field(d@) {
                    Some(v) => if v <= 255 {
                        Some(v as u8)
                    } else {
                        None
                    },
                    None => None,
                },
                None => None,
            }),
    {
        let (is_check, is_checkmate) = match check_or_checkmate {
            Some(c) => (true, c == '#'),
            None => (false, false),
        };
        let nag = match nag {
            Some(d) => match parse_number(d, 255) {
                Some(v) => Some(v as u8),
                None => None,
            },
            None => None,
        };
        PgnCommonMoveInfo { is_check, is_checkmate, annotation, nag }
    }

    /// Reads the move suffix of `v` starting at `i`, if it is one.
    pub fn parse_suffix(v: &Vec<char>, i: usize) -> (r: Option<PgnCommonMoveInfo>)
        requires
            i <= v.len(),
        ensures
            r is Some == suffix_valid(v@, i as int),
            r matches Some(info) ==> suffix_describes(v@, i as int, info),
    {
        let s = Ghost(v@);
        let check = if i < v.len() && (v[i] == '+' || v[i] == '#') {
            Some(v[i])
        } else {
            None
        };
        let c = if check.is_some() {
            i + 1
        } else {
            i
        };
        let a = scan_run(v, c, Ghost(annotation_class()), |ch: char| -> (b: bool)
            ensures
                b == annotation_class()(ch),
            { is_annotation_char(ch) });
        let w = scan_run(v, a, Ghost(ws_class()), |ch: char| -> (b: bool)
            ensures
                b == ws_class()(ch),
            { is_ws_char(ch) });
        assert(c == check_end(v@, i as int));
        assert(a == annotation_end(v@, i as int));
        assert(w == blank_end(v@, i as int));
        let annotation = if a > c {
            let chars = sub_chars(v, c, a);
            Some(string_from_chars(chars.as_slice()))
        } else {
            None
        };
        if w == v.len() {
            let r = PgnCommonMoveInfo::from(check, annotation, None);
            return Some(r);
        }
        if v[w] != '$' {
            return None;
        }
        let digits = sub_chars(v, w + 1, v.len());
        assert(digits@ == nag_digits(v@, i as int));
        let d = scan_run(&digits, 0, Ghost(digit_class()), |ch: char| -> (b: bool)
            ensures
                b == digit_class()(ch),
            { is_digit_char(ch) });
        if digits.len() == 0 || d != digits.len() {
            proof {
                if digits.len() > 0 {
                    lemma_run_stop(digits@, 0, digit_class());
                    assert(!('0' <= digits@[d as int] <= '9'));
                }
            }
            return None;
        }
        proof {
            assert forall|k: int| 0 <= k < digits@.len() implies '0' <= #[trigger] digits@[k] <= '9' by {
                lemma_run_members(digits@, 0, digit_class(), k);
            }
        }
        let r = PgnCommonMoveInfo::from(check, annotation, Some(&digits));
        Some(r)
    }

    /// Renders the check mark, then the annotation and the NAG as far as they are included.
    pub fn render(&self, include_annotation: bool, include_nag: bool) -> (r: String)
        ensures
            r@ == info_text(*self, include_annotation, include_nag),
    {
        let mut out = String::new();
        if self.is_checkmate {
            push_char(&mut out, '#');
        } else if self.is_check {
            push_char(&mut out, '+');
        }
        let ghost e1 = out@;
        if include_annotation {
            match &self.annotation {
                Some(a) => push_string(&mut out, a),
                None => {},
            }
        }
        let ghost e2 = out@;
        if include_nag {
            match self.nag {
                Some(n) => {
                    push_char(&mut out, ' ');
                    push_char(&mut out, '$');
                    push_decimal(&mut out, n as u16);
                },
                None => {},
            }
        }
        proof {
            assert(e1 =~= check_text(self.is_check, self.is_checkmate));
            assert(e2 =~= e1 + (if include_annotation && self.annotation is Some {
                self.annotation->0@
            } else {
                Seq::<char>::empty()
            }));
            assert(out@ =~= e2 + (if include_nag && self.nag is Some {
                seq![' ', '$'] + decimal(self.nag->0 as nat)
            } else {
                Seq::<char>::empty()
            }));
        }
        out
    }
}

} // verus!
