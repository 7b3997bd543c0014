//! Reading and writing Newick text.
//!
//! For every rule of the grammar there are two functions. The one whose name
//! begins with `read_` works at a position inside a text that is held as
//! characters; the one that bears the name of the rule takes a string, applies
//! the rule at its start and gives back what is left of the string. A rule that
//! always matches still answers with `Ok`, so that all rules are used alike.
use crate::grammar::SyntaxErrorKind;
use crate::text::{
    collect, find_quote, skip_bare, skip_digits, skip_sign, skip_spaces, to_chars,
};
use crate::tree::{FromNewick, ToNewick};
use vstd::prelude::*;

verus! {

/// Why a text is not Newick: what was missed, and at which character, counted
/// from zero.
#[derive(Clone, Copy, Debug, PartialEq, Eq)]
pub struct SyntaxError {
    /// What was missed.
    pub kind: SyntaxErrorKind,
    /// The number of characters in front of the place where it was missed.
    pub position: usize,
}

impl View for SyntaxError {
    type V = crate::grammar::Failure;

    open spec fn view(&self) -> crate::grammar::Failure {
        crate::grammar::Failure { kind: self.kind, position: self.position as int }
    }
}

/// What a reader of text found, as the grammar states it.
pub open spec fn text_outcome(r: Result<(String, usize), SyntaxError>) -> Result<
    (Seq<char>, int),
    crate::grammar::Failure,
> {
    match r {
        Ok((text, end)) => Ok((text@, end as int)),
        Err(error) => Err(error@),
    }
}

/// What a reader of trees found, as the grammar states it.
pub open spec fn tree_outcome<T: FromNewick>(r: Result<(T, usize), SyntaxError>) -> Result<
    (crate::tree::Node, int),
    crate::grammar::Failure,
> {
    match r {
        Ok((tree, end)) => Ok((tree.node(), end as int)),
        Err(error) => Err(error@),
    }
}

/// A position as the grammar states it.
pub open spec fn position_of(r: Option<usize>) -> Option<int> {
    match r {
        Some(end) => Some(end as int),
        None => None,
    }
}

/// Reads an unquoted name at `i`.
pub fn read_string(s: &[char], i: usize) -> (r: (String, usize))
    requires
        i <= s@.len(),
    ensures
        (r.0@, r.1 as int) == crate::grammar::string_at(s@, i as int),
        i <= r.1 <= s@.len(),
{
    let end = skip_bare(s, i);
    (collect(s, i, end), end)
}

/// Reads a quoted name at `i`.
pub fn read_quoted_string(s: &[char], i: usize) -> (r: Result<(String, usize), SyntaxError>)
    requires
        i <= s@.len(),
    ensures
        text_outcome(r) == crate::grammar::quoted_string_at(s@, i as int),
        r matches Ok((_, end)) ==> i + 2 <= end <= s@.len(),
{
    if i < s.len() && s[i] == '\'' {
        let close = find_quote(s, i + 1);
        if close < s.len() {
            Ok((collect(s, i + 1, close), close + 1))
        } else {
            Err(SyntaxError { kind: SyntaxErrorKind::ExpectedQuote, position: close })
        }
    } else {
        Err(SyntaxError { kind: SyntaxErrorKind::ExpectedQuote, position: i })
    }
}

/// Reads a name at `i`: blanks, then a quoted name or else an unquoted one.
pub fn read_name(s: &[char], i: usize) -> (r: (String, usize))
    requires
        i <= s@.len(),
    ensures
        (r.0@, r.1 as int) == crate::grammar::name_at(s@, i as int),
        i <= r.1 <= s@.len(),
{
    let start = skip_spaces(s, i);
    match read_quoted_string(s, start) {
        Ok(found) => found,
        Err(_) => read_string(s, start),
    }
}

/// The position behind the digits of a number at `i`, with their point.
pub fn read_mantissa(s: &[char], i: usize) -> (r: Option<usize>)
    requires
        i <= s@.len(),
    ensures
        position_of(r) == crate::grammar::mantissa_end(s@, i as int),
        r matches Some(end) ==> i < end <= s@.len(),
{
    let digits = skip_digits(s, i);
    if digits > i {
        if digits < s.len() && s[digits] == '.' {
            Some(skip_digits(s, digits + 1))
        } else {
            Some(digits)
        }
    } else if i < s.len() && s[i] == '.' {
        let fraction = skip_digits(s, i + 1);
        if fraction > i + 1 {
            Some(fraction)
        } else {
            None
        }
    } else {
        None
    }
}

/// The position behind an optional exponent at `i`.
pub fn read_exponent(s: &[char], i: usize) -> (end: usize)
    requires
        i <= s@.len(),
    ensures
        end == crate::grammar::exponent_end(s@, i as int),
        i <= end <= s@.len(),
{
    if i < s.len() && (s[i] == 'e' || s[i] == 'E') {
        let digits = skip_sign(s, i + 1);
        let end = skip_digits(s, digits);
        if end > digits {
            end
        } else {
            i
        }
    } else {
        i
    }
}

/// The position behind the number at `i`, if one stands there.
pub fn read_number(s: &[char], i: usize) -> (r: Option<usize>)
    requires
        i <= s@.len(),
    ensures
        position_of(r) == crate::grammar::number_end(s@, i as int),
        r matches Some(end) ==> i < end <= s@.len(),
{
    let unsigned = skip_sign(s, i);
    match read_mantissa(s, unsigned) {
        Some(mantissa) => Some(read_exponent(s, mantissa)),
        None => None,
    }
}

/// Reads an optional length at `i`: blanks, a colon, blanks and a number.
pub fn read_length(s: &[char], i: usize) -> (r: (Option<String>, usize))
    requires
        i <= s@.len(),
    ensures
        (crate::tree::text_of(r.0), r.1 as int) == crate::grammar::length_at(s@, i as int),
        i <= r.1 <= s@.len(),
{
    let colon = skip_spaces(s, i);
    if colon < s.len() && s[colon] == ':' {
        let start = skip_spaces(s, colon + 1);
        match read_number(s, start) {
            Some(end) => (Some(collect(s, start, end)), end),
            None => (None, i),
        }
    } else {
        (None, i)
    }
}

/// The failure of a rule that misses `kind` at position `e`.
pub fn fail_at(s: &[char], e: usize, kind: SyntaxErrorKind) -> (error: SyntaxError)
    requires
        e <= s@.len(),
    ensures
        error@ == crate::grammar::failure_at(s@, e as int, kind),
{
    let colon = skip_spaces(s, e);
    if colon < s.len() && s[colon] == ':' {
        let number = skip_spaces(s, colon + 1);
        if read_number(s, number).is_none() {
            return SyntaxError { kind: SyntaxErrorKind::ExpectedNumber, position: number };
        }
    }
    if e < s.len() && s[e] == '\'' && find_quote(s, e + 1) >= s.len() {
        SyntaxError { kind: SyntaxErrorKind::ExpectedQuote, position: s.len() }
    } else {
        SyntaxError { kind, position: e }
    }
}

/// Reads a leaf at `i`.
pub fn read_leaf<T: FromNewick>(s: &[char], i: usize) -> (r: (T, usize))
    requires
        i <= s@.len(),
    ensures
        (r.0.node(), r.1 as int) == crate::grammar::leaf_at(s@, i as int),
        i <= r.1 <= s@.len(),
{
    let (name, end) = read_name(s, i);
    (T::leaf(name), end)
}

/// Reads an internal node at `i`.
pub fn read_internal<T: FromNewick>(s: &[char], i: usize) -> (r: Result<(T, usize), SyntaxError>)
    requires
        i <= s@.len(),
    ensures
        tree_outcome(r) == crate::grammar::internal_at(s@, i as int),
        r matches Ok((_, end)) ==> i < end <= s@.len(),
    decreases s@.len() - i, 0int,
{
    let open = skip_spaces(s, i);
    if open < s.len() && s[open] == '(' {
        let (children, close) = read_branch_set::<T>(s, open + 1);
        if close < s.len() && s[close] == ')' {
            let ghost nodes = crate::tree::nodes_of(children@);
            let (name, end) = read_name(s, close + 1);
            let tree = T::internal(name, children);
            assert(tree.node().children =~= nodes);
            Ok((tree, end))
        } else {
            Err(fail_at(s, close, SyntaxErrorKind::ExpectedClose))
        }
    } else {
        Err(SyntaxError { kind: SyntaxErrorKind::ExpectedOpen, position: open })
    }
}

/// Reads a sub-tree at `i`: an internal node, or else a leaf.
pub fn read_sub_tree<T: FromNewick>(s: &[char], i: usize) -> (r: (T, usize))
    requires
        i <= s@.len(),
    ensures
        (r.0.node(), r.1 as int) == crate::grammar::sub_tree_at(s@, i as int),
        i <= r.1 <= s@.len(),
    decreases s@.len() - i, 1int,
{
    match read_internal::<T>(s, i) {
        Ok(found) => found,
        Err(_) => read_leaf::<T>(s, i),
    }
}

/// Reads a branch at `i`: a sub-tree and its optional length.
pub fn read_branch<T: FromNewick>(s: &[char], i: usize) -> (r: (T, usize))
    requires
        i <= s@.len(),
    ensures
        (r.0.node(), r.1 as int) == crate::grammar::branch_at(s@, i as int),
        i <= r.1 <= s@.len(),
    decreases s@.len() - i, 2int,
{
    let (tree, end) = read_sub_tree::<T>(s, i);
    let (length, end) = read_length(s, end);
    (tree.update_length(length), end)
}

/// Reads the branches of an internal node at `i`, at least one.
pub fn read_branch_set<T: FromNewick>(s: &[char], i: usize) -> (r: (Vec<T>, usize))
    requires
        i <= s@.len(),
    ensures
        (crate::tree::nodes_of(r.0@), r.1 as int) == crate::grammar::branch_set_at(s@, i as int),
        r.0@.len() > 0,
        i <= r.1 <= s@.len(),
    decreases s@.len() - i, 3int,
{
    let mut branches: Vec<T> = Vec::new();
    let mut at: usize = i;
    assert(crate::tree::nodes_of(branches@) + crate::grammar::branch_set_at(s@, at as int).0
        =~= crate::grammar::branch_set_at(s@, i as int).0);
    loop
        invariant
            i <= at <= s@.len(),
            crate::grammar::branch_set_at(s@, i as int).1 == crate::grammar::branch_set_at(
                s@,
                at as int,
            ).1,
            crate::grammar::branch_set_at(s@, i as int).0 == crate::tree::nodes_of(branches@)
                + crate::grammar::branch_set_at(s@, at as int).0,
        decreases s@.len() - at,
    {
        let ghost before = crate::tree::nodes_of(branches@);
        let start = skip_spaces(s, at);
        let (branch, end) = read_branch::<T>(s, start);
        let ghost first = branch.node();
        branches.push(branch);
        assert(crate::tree::nodes_of(branches@) =~= before.push(first));
        let comma = skip_spaces(s, end);
        if comma < s.len() && s[comma] == ',' {
            assert(before + (seq![first] + crate::grammar::branch_set_at(s@, comma + 1).0)
                =~= before.push(first) + crate::grammar::branch_set_at(s@, comma + 1).0);
            at = comma + 1;
        } else {
            assert(before + seq![first] =~= before.push(first));
            return (branches, end);
        }
    }
}

/// Reads a tree at the start of `s`: a branch and a semicolon.
pub fn read_tree<T: FromNewick>(s: &[char]) -> (r: Result<(T, usize), SyntaxError>)
    ensures
        tree_outcome(r) == crate::grammar::tree_at(s@),
        r matches Ok((_, end)) ==> 0 < end <= s@.len(),
{
    let (tree, end) = match read_internal::<T>(s, 0) {
        Ok(found) => found,
        Err(error) => {
            if error.kind != SyntaxErrorKind::ExpectedOpen {
                proof {
                    crate::grammar::lemma_unclosed(s@, 0);
                }
                return Err(error);
            }
            read_leaf::<T>(s, 0)
        },
    };
    let (length, end) = read_length(s, end);
    let tree = tree.update_length(length);
    if end < s.len() && s[end] == ';' {
        Ok((tree, end + 1))
    } else {
        Err(fail_at(s, end, SyntaxErrorKind::ExpectedSemicolon))
    }
}

/// What is left of `input` behind its first `end` characters.
fn rest_of<'a>(input: &'a str, s: &[char], end: usize) -> (rest: &'a str)
    requires
        s@ == input@,
        end <= s@.len(),
    ensures
        rest@ == input@.skip(end as int),
{
    input.substring_char(end, s.len())
}

/// The rule for an unquoted name, applied at the start of `input`: the name and
/// what is left of the input behind it.
pub fn string<'a>(input: &'a str) -> (r: Result<(&'a str, &'a str), SyntaxError>)
    ensures
        r matches Ok((rest, name)) && name@ == crate::grammar::string_at(input@, 0).0 && rest@
            == input@.skip(crate::grammar::string_at(input@, 0).1),
{
    let chars = to_chars(input);
    let s = chars.as_slice();
    let end = skip_bare(s, 0);
    Ok((rest_of(input, s, end), input.substring_char(0, end)))
}

/// The rule for a quoted name, applied at the start of `input`: what stands
/// between the quotes, and what is left of the input behind them.
pub fn quoted_string<'a>(input: &'a str) -> (r: Result<(&'a str, &'a str), SyntaxError>)
    ensures
        match r {
            Ok((rest, name)) => crate::grammar::quoted_string_at(input@, 0) matches Ok(found)
                && name@ == found.0 && rest@ == input@.skip(found.1),
            Err(error) => crate::grammar::quoted_string_at(input@, 0) == Err::<
                (Seq<char>, int),
                crate::grammar::Failure,
            >(error@),
        },
{
    let chars = to_chars(input);
    let s = chars.as_slice();
    if 0 < s.len() && s[0] == '\'' {
        let close = find_quote(s, 1);
        if close < s.len() {
            Ok((rest_of(input, s, close + 1), input.substring_char(1, close)))
        } else {
            Err(SyntaxError { kind: SyntaxErrorKind::ExpectedQuote, position: close })
        }
    } else {
        Err(SyntaxError { kind: SyntaxErrorKind::ExpectedQuote, position: 0 })
    }
}

/// The rule for a name, applied at the start of `input`: the name, empty where
/// none stands, and what is left of the input behind it.
pub fn name<'a>(input: &'a str) -> (r: Result<(&'a str, String), SyntaxError>)
    ensures
        r matches Ok((rest, name)) && name@ == crate::grammar::name_at(input@, 0).0 && rest@
            == input@.skip(crate::grammar::name_at(input@, 0).1),
{
    let chars = to_chars(input);
    let s = chars.as_slice();
    let (name, end) = read_name(s, 0);
    Ok((rest_of(input, s, end), name))
}

/// The rule for a length, applied at the start of `input`: the number behind the
/// colon, if both stand there, and what is left of the input behind it.
pub fn length<'a>(input: &'a str) -> (r: Result<(&'a str, Option<String>), SyntaxError>)
    ensures
        r matches Ok((rest, length)) && crate::tree::text_of(length) == crate::grammar::length_at(
            input@,
            0,
        ).0 && rest@ == input@.skip(crate::grammar::length_at(input@, 0).1),
{
    let chars = to_chars(input);
    let s = chars.as_slice();
    let (length, end) = read_length(s, 0);
    Ok((rest_of(input, s, end), length))
}

/// The rule for a leaf, applied at the start of `input`.
pub fn leaf<'a, T: FromNewick>(input: &'a str) -> (r: Result<(&'a str, T), SyntaxError>)
    ensures
        r matches Ok((rest, tree)) && tree.node() == crate::grammar::leaf_at(input@, 0).0 && rest@
            == input@.skip(crate::grammar::leaf_at(input@, 0).1),
{
    let chars = to_chars(input);
    let s = chars.as_slice();
    let (tree, end) = read_leaf::<T>(s, 0);
    Ok((rest_of(input, s, end), tree))
}

/// The rule for an internal node, applied at the start of `input`.
pub fn internal<'a, T: FromNewick>(input: &'a str) -> (r: Result<(&'a str, T), SyntaxError>)
    ensures
        match r {
            Ok((rest, tree)) => crate::grammar::internal_at(input@, 0) matches Ok(found)
                && tree.node() == found.0 && rest@ == input@.skip(found.1),
            Err(error) => crate::grammar::internal_at(input@, 0) == Err::<
                (crate::tree::Node, int),
                crate::grammar::Failure,
            >(error@),
        },
{
    let chars = to_chars(input);
    let s = chars.as_slice();
    match read_internal::<T>(s, 0) {
        Ok((tree, end)) => Ok((rest_of(input, s, end), tree)),
        Err(error) => Err(error),
    }
}

/// The rule for a sub-tree, applied at the start of `input`.
pub fn sub_tree<'a, T: FromNewick>(input: &'a str) -> (r: Result<(&'a str, T), SyntaxError>)
    ensures
        r matches Ok((rest, tree)) && tree.node() == crate::grammar::sub_tree_at(input@, 0).0
            && rest@ == input@.skip(crate::grammar::sub_tree_at(input@, 0).1),
{
    let chars = to_chars(input);
    let s = chars.as_slice();
    let (tree, end) = read_sub_tree::<T>(s, 0);
    Ok((rest_of(input, s, end), tree))
}

/// The rule for a branch, applied at the start of `input`.
pub fn branch<'a, T: FromNewick>(input: &'a str) -> (r: Result<(&'a str, T), SyntaxError>)
    ensures
        r matches Ok((rest, tree)) && tree.node() == crate::grammar::branch_at(input@, 0).0
            && rest@ == input@.skip(crate::grammar::branch_at(input@, 0).1),
{
    let chars = to_chars(input);
    let s = chars.as_slice();
    let (tree, end) = read_branch::<T>(s, 0);
    Ok((rest_of(input, s, end), tree))
}

/// The rule for the branches of an internal node, applied at the start of
/// `input`.
pub fn branch_set<'a, T: FromNewick>(input: &'a str) -> (r: Result<
    (&'a str, Vec<T>),
    SyntaxError,
>)
    ensures
        r matches Ok((rest, trees)) && crate::tree::nodes_of(trees@)
            == crate::grammar::branch_set_at(input@, 0).0 && rest@ == input@.skip(
            crate::grammar::branch_set_at(input@, 0).1,
        ),
{
    let chars = to_chars(input);
    let s = chars.as_slice();
    let (trees, end) = read_branch_set::<T>(s, 0);
    Ok((rest_of(input, s, end), trees))
}

/// The rule for a tree, applied at the start of `input`: the tree, and what is
/// left of the input behind the semicolon.
pub fn tree<'a, T: FromNewick>(input: &'a str) -> (r: Result<(&'a str, T), SyntaxError>)
    ensures
        match r {
            Ok((rest, tree)) => crate::grammar::tree_at(input@) matches Ok(found) && tree.node()
                == found.0 && rest@ == input@.skip(found.1),
            Err(error) => crate::grammar::tree_at(input@) == Err::<
                (crate::tree::Node, int),
                crate::grammar::Failure,
            >(error@),
        },
{
    let chars = to_chars(input);
    let s = chars.as_slice();
    match read_tree::<T>(s) {
        Ok((tree, end)) => Ok((rest_of(input, s, end), tree)),
        Err(error) => Err(error),
    }
}

/// Reads a tree from Newick text.
///
/// The text is a tree with its closing semicolon; blanks, and nothing else, may
/// follow the semicolon.
pub fn from_newick<T: FromNewick>(input: &str) -> (r: Result<T, SyntaxError>)
    ensures
        match r {
            Ok(tree) => crate::grammar::parse(input@) == Ok::<
                crate::tree::Node,
                crate::grammar::Failure,
            >(tree.node()),
            Err(error) => crate::grammar::parse(input@) == Err::<
                crate::tree::Node,
                crate::grammar::Failure,
            >(error@),
        },
{
    let chars = to_chars(input);
    let s = chars.as_slice();
    match read_tree::<T>(s) {
        Ok((tree, end)) => {
            let rest = skip_spaces(s, end);
            if rest == s.len() {
                Ok(tree)
            } else {
                Err(SyntaxError { kind: SyntaxErrorKind::TrailingInput, position: rest })
            }
        },
        Err(error) => Err(error),
    }
}

/// Writes a tree as Newick text.
pub fn to_newick<T: ToNewick>(tree: &T) -> (text: String)
    ensures
        text@ == crate::grammar::render_tree(tree.node()),
{
    format_tree(tree)
}

/// The text of the root followed by a semicolon.
pub fn format_tree<T: ToNewick>(tree: &T) -> (text: String)
    ensures
        text@ == crate::grammar::render_tree(tree.node()),
{
    let mut text = format_sub_tree(tree);
    text.push(';');
    text
}

/// The text of one node with everything below it.
pub fn format_sub_tree<T: ToNewick>(tree: &T) -> (text: String)
    ensures
        text@ == crate::grammar::render(tree.node()),
    decreases tree.node(),
{
    let children = tree.get_children();
    let mut text = String::new();
    let n: usize = children.len();
    if n > 0 {
        let ghost parts = crate::grammar::render_children(tree.node());
        text.push('(');
        let mut i: usize = 0;
        while i < n
            invariant
                n == children@.len(),
                n == tree.node().children.len(),
                i <= n,
                parts == crate::grammar::render_children(tree.node()),
                forall|k: int|
                    0 <= k < n ==> (#[trigger] children@[k]).node() == tree.node().children[k],
                text@ == seq!['('] + crate::grammar::join(parts.take(i as int)),
            decreases n - i,
        {
            if i > 0 {
                text.push(',');
            }
            let piece = format_sub_tree(children[i]);
            text.append(piece.as_str());
            proof {
                let before = parts.take(i as int);
                let after = parts.take(i + 1);
                assert(after.drop_last() =~= before);
                assert(after.last() == piece@);
                if i > 0 {
                    assert(text@ =~= seq!['('] + crate::grammar::join(after));
                } else {
                    assert(before.len() == 0);
                    assert(text@ =~= seq!['('] + crate::grammar::join(after));
                }
            }
            i = i + 1;
        }
        assert(parts.take(n as int) =~= parts);
        text.push(')');
    }
    let name = tree.get_name();
    text.append(name.as_str());
    match tree.get_length() {
        Some(length) => {
            text.push(':');
            text.append(length.as_str());
            assert(text@ =~= crate::grammar::render(tree.node()));
        },
        None => {
            assert(text@ =~= crate::grammar::render(tree.node()));
        },
    }
    text
}

} // verus!
