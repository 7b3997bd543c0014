//! Walking over the characters of a text.
use vstd::prelude::*;

verus! {

/// `String::push` appends the character to the end of the string.
pub assume_specification[ String::push ](s: &mut String, c: char)
    ensures
        final(s)@ == old(s)@.push(c),
;

/// The characters of `input`, in order.
pub fn to_chars(input: &str) -> (chars: Vec<char>)
    ensures
        chars@ == input@,
{
    let mut chars: Vec<char> = Vec::new();
    for c in it: input.chars()
        invariant
            it.seq() == input@,
            chars@ == input@.take(it.index()),
    {
        assert(input@.take(it.index()).push(c) =~= input@.take(it.index() + 1));
        chars.push(c);
    }
    assert(input@.take(input@.len() as int) =~= input@);
    chars
}

/// The characters of `s` from `from` up to `to`, as a string.
pub fn collect(s: &[char], from: usize, to: usize) -> (text: String)
    requires
        from <= to <= s@.len(),
    ensures
        text@ == s@.subrange(from as int, to as int),
{
    let mut text = String::new();
    let mut i: usize = from;
    while i < to
        invariant
            from <= i <= to <= s@.len(),
            text@ == s@.subrange(from as int, i as int),
        decreases to - i,
    {
        text.push(s[i]);
        assert(s@.subrange(from as int, i as int).push(s@[i as int]) =~= s@.subrange(
            from as int,
            i + 1,
        ));
        i = i + 1;
    }
    assert(s@.subrange(from as int, from as int) =~= Seq::<char>::empty());
    text
}

/// Whether `c` is a space or a tab.
pub fn is_space(c: char) -> (b: bool)
    ensures
        b == crate::grammar::is_space(c),
{
    c == ' ' || c == '\t'
}

/// Whether `c` ends an unquoted name.
pub fn is_delimiter(c: char) -> (b: bool)
    ensures
        b == crate::grammar::is_delimiter(c),
{
    c == ' ' || c == '(' || c == ')' || c == '[' || c == ']' || c == '\'' || c == ':' || c == ';'
        || c == ','
}

/// Whether `c` is a decimal digit.
pub fn is_digit(c: char) -> (b: bool)
    ensures
        b == crate::grammar::is_digit(c),
{
    '0' <= c && c <= '9'
}

/// The position behind the blanks at `i`.
pub fn skip_spaces(s: &[char], i: usize) -> (j: usize)
    requires
        i <= s@.len(),
    ensures
        j == crate::grammar::spaces_end(s@, i as int),
        i <= j <= s@.len(),
{
    let mut j: usize = i;
    while j < s.len() && is_space(s[j])
        invariant
            i <= j <= s@.len(),
            crate::grammar::spaces_end(s@, j as int) == crate::grammar::spaces_end(s@, i as int),
        decreases s@.len() - j,
    {
        j = j + 1;
    }
    j
}

/// The position behind the characters at `i` that may stand in an unquoted name.
pub fn skip_bare(s: &[char], i: usize) -> (j: usize)
    requires
        i <= s@.len(),
    ensures
        j == crate::grammar::bare_end(s@, i as int),
        i <= j <= s@.len(),
{
    let mut j: usize = i;
    while j < s.len() && !is_delimiter(s[j])
        invariant
            i <= j <= s@.len(),
            crate::grammar::bare_end(s@, j as int) == crate::grammar::bare_end(s@, i as int),
        decreases s@.len() - j,
    {
        j = j + 1;
    }
    j
}

/// The position behind the digits at `i`.
pub fn skip_digits(s: &[char], i: usize) -> (j: usize)
    requires
        i <= s@.len(),
    ensures
        j == crate::grammar::digits_end(s@, i as int),
        i <= j <= s@.len(),
{
    let mut j: usize = i;
    while j < s.len() && is_digit(s[j])
        invariant
            i <= j <= s@.len(),
            crate::grammar::digits_end(s@, j as int) == crate::grammar::digits_end(s@, i as int),
        decreases s@.len() - j,
    {
        j = j + 1;
    }
    j
}

/// The position of the first quote at or behind `i`, or the end of the text.
pub fn find_quote(s: &[char], i: usize) -> (j: usize)
    requires
        i <= s@.len(),
    ensures
        j == crate::grammar::quote_at_or_end(s@, i as int),
        i <= j <= s@.len(),
{
    let mut j: usize = i;
    while j < s.len() && s[j] != '\''
        invariant
            i <= j <= s@.len(),
            crate::grammar::quote_at_or_end(s@, j as int) == crate::grammar::quote_at_or_end(
                s@,
                i as int,
            ),
        decreases s@.len() - j,
    {
        j = j + 1;
    }
    j
}

/// The position behind an optional sign at `i`.
pub fn skip_sign(s: &[char], i: usize) -> (j: usize)
    requires
        i <= s@.len(),
    ensures
        j == crate::grammar::sign_end(s@, i as int),
        i <= j <= s@.len(),
{
    if i < s.len() && (s[i] == '+' || s[i] == '-') {
        i + 1
    } else {
        i
    }
}

} // verus!
