//! Character-level helpers for building and scanning text.
use vstd::prelude::*;
use vstd::string::StringExecFns;

verus! {

/// Appends `c` to `s` (`String::push`).
#[verifier::external_body]
pub(crate) fn push_char(s: &mut String, c: char)
    ensures
        final(s)@ == old(s)@.push(c),
{
    s.push(c);
}

/// Appends the characters of `t` to `s`.
pub(crate) fn push_str(s: &mut String, t: &str)
    ensures
        final(s)@ == old(s)@ + t@,
{
    s.append(t);
}

/// Appends the characters of `t` to `s`.
pub(crate) fn push_string(s: &mut String, t: &String)
    ensures
        final(s)@ == old(s)@ + t@,
{
    s.append(t.as_str());
}

/// A string holding the characters of `v`.
pub(crate) fn string_from_chars(v: &[char]) -> (s: String)
    ensures
        s@ == v@,
{
    let mut s = String::new();
    let mut i: usize = 0;
    while i < v.len()
        invariant
            i <= v.len(),
            s@ == v@.subrange(0, i as int),
        decreases v.len() - i,
    {
        push_char(&mut s, v[i]);
        proof {
            assert(v@.subrange(0, i + 1) == v@.subrange(0, i as int).push(v@[i as int]));
        }
        i = i + 1;
    }
    proof {
        assert(v@.subrange(0, v@.len() as int) == v@);
    }
    s
}

/// The decimal digits of `n`, most significant first ("0" for zero).
pub open spec fn decimal(n: nat) -> Seq<char>
    decreases n,
{
    if n < 10 {
        seq![(48 + n) as char]
    } else {
        decimal(n / 10).push((48 + n % 10) as char)
    }
}

/// Appends the decimal digits of `n` to `s`.
pub(crate) fn push_decimal(s: &mut String, n: u16)
    ensures
        final(s)@ == old(s)@ + decimal(n as nat),
    decreases n,
{
    if n >= 10 {
        push_decimal(s, n / 10);
    }
    let d = (48u8 + (n % 10) as u8) as char;
    push_char(s, d);
    proof {
        if n >= 10 {
            assert(decimal(n as nat) == decimal((n / 10) as nat).push(d));
        } else {
            assert(decimal(n as nat) == seq![d]);
        }
    }
}

/// Length of the run of characters in `class` starting at `i`.
pub open spec fn run_len(s: Seq<char>, i: int, class: spec_fn(char) -> bool) -> nat
    decreases s.len() - i,
{
    if 0 <= i < s.len() && class(s[i]) {
        1 + run_len(s, i + 1, class)
    } else {
        0
    }
}

/// A run of characters in `class` from `i` up to `j`, where one not in it (or the end) stands,
/// has length `j - i`.
pub proof fn lemma_run_len(s: Seq<char>, i: int, j: int, class: spec_fn(char) -> bool)
    requires
        0 <= i <= j <= s.len(),
        forall|k: int| i <= k < j ==> class(#[trigger] s[k]),
        j == s.len() || !class(s[j]),
    ensures
        run_len(s, i, class) == j - i,
    decreases j - i,
{
    if i < j {
        lemma_run_len(s, i + 1, j, class);
    }
}

/// The character that ends a run (when the text goes on) is not in the run's class.
pub proof fn lemma_run_stop(s: Seq<char>, i: int, class: spec_fn(char) -> bool)
    requires
        0 <= i,
        i + run_len(s, i, class) < s.len(),
    ensures
        !class(s[i + run_len(s, i, class)]),
    decreases s.len() - i,
{
    if 0 <= i < s.len() && class(s[i]) {
        lemma_run_stop(s, i + 1, class);
    }
}

/// Every character of a run is in its class.
pub proof fn lemma_run_members(s: Seq<char>, i: int, class: spec_fn(char) -> bool, k: int)
    requires
        0 <= i <= k < i + run_len(s, i, class),
    ensures
        class(s[k]),
        k < s.len(),
    decreases k - i,
{
    if k > i {
        lemma_run_members(s, i + 1, class, k);
    }
}

/// A decimal digit.
pub open spec fn is_digit(c: char) -> bool {
    '0' <= c <= '9'
}

/// A whitespace character (space, tab, line feed, carriage return).
pub open spec fn is_ws(c: char) -> bool {
    c == ' ' || c == '\t' || c == '\n' || c == '\r'
}

/// Whether `c` is whitespace.
pub(crate) fn is_ws_char(c: char) -> (r: bool)
    ensures
        r == is_ws(c),
{
    c == ' ' || c == '\t' || c == '\n' || c == '\r'
}

/// The end of the run of characters of `v` starting at `i` in the class `class` that `test`
/// decides.
pub(crate) fn scan_run(v: &Vec<char>, i: usize, class: Ghost<spec_fn(char) -> bool>, test: impl Fn(char) -> bool) -> (j: usize)
    requires
        i <= v.len(),
        forall|c: char| #[trigger] test.requires((c,)),
        forall|c: char, b: bool| test.ensures((c,), b) ==> b == class@(c),
    ensures
        i <= j <= v.len(),
        j == i + run_len(v@, i as int, class@),
{
    let mut j = i;
    while j < v.len() && test(v[j])
        invariant
            i <= j <= v.len(),
            forall|c: char| #[trigger] test.requires((c,)),
            forall|c: char, b: bool| test.ensures((c,), b) ==> b == class@(c),
            forall|k: int| i <= k < j ==> class@(#[trigger] v@[k]),
        decreases v.len() - j,
    {
        j = j + 1;
    }
    proof {
        lemma_run_len(v@, i as int, j as int, class@);
    }
    j
}

} // verus!
