use vstd::prelude::*;

verus! {

/// Relies on `String::push`: appends one character at the end.
#[verifier::external_body]
fn push_char(s: &mut String, c: char)
    ensures
        final(s)@ == old(s)@.push(c),
{
    s.push(c)
}

/// Whether `regex::Regex::new` accepts `pattern`.
pub uninterp spec fn regex_compiles(pattern: Seq<char>) -> bool;

/// How many non-overlapping matches of the regular expression `pattern` in
/// `text` `regex::Regex::find_iter` yields.
pub uninterp spec fn regex_match_count(pattern: Seq<char>, text: Seq<char>) -> nat;

/// Relies on `regex::Regex::new` to compile `pattern`, and on
/// `regex::Regex::find_iter` to walk the matches in `text`. The outcome depends
/// on the pattern and the text alone.
#[verifier::external_body]
fn count_regex_matches(text: &str, pattern: &str) -> (r: Option<usize>)
    ensures
        r.is_some() == regex_compiles(pattern@),
        r matches Some(n) ==> n == regex_match_count(pattern@, text@),
{
    match regex::Regex::new(pattern) {
        Ok(re) => Some(re.find_iter(text).count()),
        Err(_) => None,
    }
}

/// `s` with its characters in reverse order.
pub open spec fn reversed(s: Seq<char>) -> Seq<char> {
    Seq::new(s.len(), |i: int| s[s.len() - 1 - i])
}

/// The characters of `s`, in order.
fn chars_of(s: &str) -> (r: Vec<char>)
    ensures
        r@ == s@,
{
    let mut out: Vec<char> = Vec::new();
    for c in iter: s.chars()
        invariant
            iter.seq() == s@,
            out@ == iter.seq().take(iter.index() as int),
    {
        out.push(c);
    }
    assert(out@ == s@.take(s@.len() as int));
    out
}

/// Reverses a string character by character.
pub fn reverse_string(s: &str) -> (r: String)
    ensures
        r@ == reversed(s@),
{
    let chars = chars_of(s);
    let mut out = String::new();
    let mut i: usize = chars.len();
    while i > 0
        invariant
            i <= chars@.len(),
            chars@ == s@,
            out@ == reversed(s@).subrange(0, s@.len() - i),
        decreases i,
    {
        i = i - 1;
        push_char(&mut out, chars[i]);
        assert(out@ == reversed(s@).subrange(0, s@.len() - i));
    }
    assert(reversed(s@).subrange(0, s@.len() as int) == reversed(s@));
    out
}

/// The decimal digit `d < 10` as a character.
pub open spec fn digit_char(d: nat) -> char {
    ((d + 48) as u8) as char
}

/// `n` written in decimal, without leading zeros.
pub open spec fn decimal(n: nat) -> Seq<char>
    decreases n,
{
    if n < 10 {
        seq![digit_char(n)]
    } else {
        decimal(n / 10).push(digit_char(n % 10))
    }
}

/// `0`, `1`, ..., `n - 1` written in decimal one after another.
pub open spec fn counted(n: nat) -> Seq<char>
    decreases n,
{
    if n == 0 {
        seq![]
    } else {
        counted((n - 1) as nat) + decimal((n - 1) as nat)
    }
}

/// Appends `n` in decimal to `s`.
fn push_decimal(s: &mut String, n: usize)
    ensures
        final(s)@ == old(s)@ + decimal(n as nat),
    decreases n,
{
    if n >= 10 {
        push_decimal(s, n / 10);
    }
    let d = (n % 10) as u8;
    push_char(s, (d + 48) as char);
    if n >= 10 {
        assert(decimal(n as nat) == decimal((n / 10) as nat).push(digit_char((n % 10) as nat)));
    }
}

/// The numbers `0 .. iterations` written in decimal and joined.
pub fn concatenate_strings(iterations: usize) -> (r: String)
    ensures
        r@ == counted(iterations as nat),
{
    let mut result = String::new();
    let mut i: usize = 0;
    while i < iterations
        invariant
            i <= iterations,
            result@ == counted(i as nat),
        decreases iterations - i,
    {
        push_decimal(&mut result, i);
        i = i + 1;
    }
    result
}

/// How many non-overlapping matches of the regular expression `pattern` occur
/// in `text`; `None` when `pattern` is not a valid regular expression.
pub fn pattern_search(text: &str, pattern: &str) -> (r: Option<usize>)
    ensures
        r.is_some() == regex_compiles(pattern@),
        r matches Some(n) ==> n == regex_match_count(pattern@, text@),
{
    count_regex_matches(text, pattern)
}

} // verus!
