//! The Newick grammar on sequences of characters.
//!
//! Every rule is a function of a text and a position in it. A rule that always
//! matches gives its value and the position behind what it took; a rule that
//! can fail gives a `Result`. Where a rule offers two alternatives the first one
//! that matches is taken. Positions count characters.
use vstd::prelude::*;

verus! {

/// What a rule missed at the place where it could not go on.
#[derive(Clone, Copy, Debug, PartialEq, Eq, Structural)]
pub enum SyntaxErrorKind {
    /// An opening parenthesis.
    ExpectedOpen,
    /// A comma and another branch, or the closing parenthesis.
    ExpectedClose,
    /// The quote that opens a quoted name, or the one that closes it.
    ExpectedQuote,
    /// A number behind a colon.
    ExpectedNumber,
    /// The semicolon behind the root.
    ExpectedSemicolon,
    /// Nothing but blanks behind the semicolon.
    TrailingInput,
}

/// The failure of a rule: what it missed, and at which position.
pub struct Failure {
    /// What was missed.
    pub kind: SyntaxErrorKind,
    /// The position at which it was missed.
    pub position: int,
}

/// A blank: a space or a tab.
pub open spec fn is_space(c: char) -> bool {
    c == ' ' || c == '\t'
}

/// A character that ends an unquoted name.
pub open spec fn is_delimiter(c: char) -> bool {
    c == ' ' || c == '(' || c == ')' || c == '[' || c == ']' || c == '\'' || c == ':' || c == ';'
        || c == ','
}

/// A decimal digit.
pub open spec fn is_digit(c: char) -> bool {
    '0' <= c && c <= '9'
}

/// A sign in front of a number or of an exponent.
pub open spec fn is_sign(c: char) -> bool {
    c == '+' || c == '-'
}

/// The position behind the longest run of characters that satisfy `p` and start
/// at `i`.
pub open spec fn run_end(s: Seq<char>, i: int, p: spec_fn(char) -> bool) -> int
    decreases s.len() - i,
{
    if 0 <= i < s.len() && p(s[i]) {
        run_end(s, i + 1, p)
    } else {
        i
    }
}

/// The position behind the blanks at `i`.
pub open spec fn spaces_end(s: Seq<char>, i: int) -> int {
    run_end(s, i, |c: char| is_space(c))
}

/// The position behind the characters at `i` that may stand in an unquoted name.
pub open spec fn bare_end(s: Seq<char>, i: int) -> int {
    run_end(s, i, |c: char| !is_delimiter(c))
}

/// The position behind the digits at `i`.
pub open spec fn digits_end(s: Seq<char>, i: int) -> int {
    run_end(s, i, |c: char| is_digit(c))
}

/// The position of the first quote at or behind `i`, or the end of the text.
pub open spec fn quote_at_or_end(s: Seq<char>, i: int) -> int {
    run_end(s, i, |c: char| c != '\'')
}

/// An unquoted name: every character up to the next delimiter, possibly none.
pub open spec fn string_at(s: Seq<char>, i: int) -> (Seq<char>, int) {
    (s.subrange(i, bare_end(s, i)), bare_end(s, i))
}

/// A quoted name: a quote, any characters but a quote, and a quote. The value is
/// what stands between the quotes.
pub open spec fn quoted_string_at(s: Seq<char>, i: int) -> Result<(Seq<char>, int), Failure> {
    if 0 <= i < s.len() && s[i] == '\'' {
        let k = quote_at_or_end(s, i + 1);
        if k < s.len() {
            Ok((s.subrange(i + 1, k), k + 1))
        } else {
            Err(Failure { kind: SyntaxErrorKind::ExpectedQuote, position: k })
        }
    } else {
        Err(Failure { kind: SyntaxErrorKind::ExpectedQuote, position: i })
    }
}

/// A name: blanks, then a quoted name or else an unquoted one. Where no name
/// stands the value is the empty name.
pub open spec fn name_at(s: Seq<char>, i: int) -> (Seq<char>, int) {
    let j = spaces_end(s, i);
    match quoted_string_at(s, j) {
        Ok(found) => found,
        Err(_) => string_at(s, j),
    }
}

/// The position behind an optional sign at `i`.
pub open spec fn sign_end(s: Seq<char>, i: int) -> int {
    if 0 <= i < s.len() && is_sign(s[i]) {
        i + 1
    } else {
        i
    }
}

/// The digits of a number without sign and exponent: digits with an optional
/// point and optional digits behind it, or else a point and digits.
pub open spec fn mantissa_end(s: Seq<char>, i: int) -> Option<int> {
    let d = digits_end(s, i);
    if d > i {
        if d < s.len() && s[d] == '.' {
            Some(digits_end(s, d + 1))
        } else {
            Some(d)
        }
    } else if 0 <= i < s.len() && s[i] == '.' && digits_end(s, i + 1) > i + 1 {
        Some(digits_end(s, i + 1))
    } else {
        None
    }
}

/// The position behind an optional exponent at `i`: `e` or `E`, an optional sign,
/// and digits. Without digits there is no exponent.
pub open spec fn exponent_end(s: Seq<char>, i: int) -> int {
    if 0 <= i < s.len() && (s[i] == 'e' || s[i] == 'E') && digits_end(s, sign_end(s, i + 1))
        > sign_end(s, i + 1) {
        digits_end(s, sign_end(s, i + 1))
    } else {
        i
    }
}

/// The position behind the number at `i`, if one stands there: an optional sign,
/// the digits, and an optional exponent.
pub open spec fn number_end(s: Seq<char>, i: int) -> Option<int> {
    match mantissa_end(s, sign_end(s, i)) {
        Some(m) => Some(exponent_end(s, m)),
        None => None,
    }
}

/// Whether the whole of `t` is one number.
pub open spec fn is_number(t: Seq<char>) -> bool {
    number_end(t, 0) == Some(t.len() as int)
}

/// A length: blanks, a colon, blanks and a number. Where one of them is missing
/// there is no length and nothing is taken.
pub open spec fn length_at(s: Seq<char>, i: int) -> (Option<Seq<char>>, int) {
    let j = spaces_end(s, i);
    if 0 <= j < s.len() && s[j] == ':' {
        let k = spaces_end(s, j + 1);
        match number_end(s, k) {
            Some(e) => (Some(s.subrange(k, e)), e),
            None => (None, i),
        }
    } else {
        (None, i)
    }
}

/// The failure of a rule that misses `kind` at position `e`, told more exactly
/// where the cause is plain: a colon with no number behind it, or a quote that
/// is never closed.
pub open spec fn failure_at(s: Seq<char>, e: int, kind: SyntaxErrorKind) -> Failure {
    let colon = spaces_end(s, e);
    if 0 <= colon < s.len() && s[colon] == ':' && number_end(s, spaces_end(s, colon + 1)) is None {
        Failure { kind: SyntaxErrorKind::ExpectedNumber, position: spaces_end(s, colon + 1) }
    } else if 0 <= e < s.len() && s[e] == '\'' && quote_at_or_end(s, e + 1) >= s.len() {
        Failure { kind: SyntaxErrorKind::ExpectedQuote, position: s.len() as int }
    } else {
        Failure { kind, position: e }
    }
}

/// A leaf: a name.
pub open spec fn leaf_at(s: Seq<char>, i: int) -> (crate::tree::Node, int) {
    (
        crate::tree::Node { name: name_at(s, i).0, length: None, children: Seq::empty() },
        name_at(s, i).1,
    )
}

/// An internal node: blanks, the branches between parentheses, and a name.
pub open spec fn internal_at(s: Seq<char>, i: int) -> Result<(crate::tree::Node, int), Failure>
    decreases s.len() - i, 0int,
{
    let j = spaces_end(s, i);
    if 0 <= i <= j < s.len() && s[j] == '(' {
        let (children, e) = branch_set_at(s, j + 1);
        if 0 <= e < s.len() && s[e] == ')' {
            Ok(
                (
                    crate::tree::Node { name: name_at(s, e + 1).0, length: None, children },
                    name_at(s, e + 1).1,
                ),
            )
        } else {
            Err(failure_at(s, e, SyntaxErrorKind::ExpectedClose))
        }
    } else {
        Err(Failure { kind: SyntaxErrorKind::ExpectedOpen, position: j })
    }
}

/// A sub-tree: an internal node, or else a leaf.
pub open spec fn sub_tree_at(s: Seq<char>, i: int) -> (crate::tree::Node, int)
    decreases s.len() - i, 1int,
{
    match internal_at(s, i) {
        Ok(found) => found,
        Err(_) => leaf_at(s, i),
    }
}

/// A branch: a sub-tree and its optional length.
pub open spec fn branch_at(s: Seq<char>, i: int) -> (crate::tree::Node, int)
    decreases s.len() - i, 2int,
{
    let (node, e) = sub_tree_at(s, i);
    (
        crate::tree::Node { name: node.name, length: length_at(s, e).0, children: node.children },
        length_at(s, e).1,
    )
}

/// The branches of an internal node: one branch, or a branch, a comma and more
/// branches. Blanks may stand in front of each branch and of each comma.
pub open spec fn branch_set_at(s: Seq<char>, i: int) -> (Seq<crate::tree::Node>, int)
    decreases s.len() - i, 3int,
{
    let j = spaces_end(s, i);
    if 0 <= i <= j <= s.len() {
        let (first, e) = branch_at(s, j);
        let k = spaces_end(s, e);
        if j <= k < s.len() && s[k] == ',' {
            let (more, end) = branch_set_at(s, k + 1);
            (seq![first] + more, end)
        } else {
            (seq![first], e)
        }
    } else {
        (Seq::empty(), i)
    }
}

/// A tree: a branch and a semicolon.
///
/// Where the text opens a parenthesis and the internal node there fails, the
/// failure is that of the internal node; else it is that of the semicolon.
pub open spec fn tree_at(s: Seq<char>) -> Result<(crate::tree::Node, int), Failure> {
    let (root, e) = branch_at(s, 0);
    if 0 <= e < s.len() && s[e] == ';' {
        Ok((root, e + 1))
    } else {
        match internal_at(s, 0) {
            Err(failure) if failure.kind != SyntaxErrorKind::ExpectedOpen => Err(failure),
            _ => Err(failure_at(s, e, SyntaxErrorKind::ExpectedSemicolon)),
        }
    }
}

/// The tree that a whole text stands for: a tree, and nothing but blanks behind it.
pub open spec fn parse(s: Seq<char>) -> Result<crate::tree::Node, Failure> {
    match tree_at(s) {
        Ok((root, e)) => {
            if spaces_end(s, e) == s.len() {
                Ok(root)
            } else {
                Err(Failure { kind: SyntaxErrorKind::TrailingInput, position: spaces_end(s, e) })
            }
        },
        Err(failure) => Err(failure),
    }
}

/// The pieces joined with a comma between each two neighbours.
pub open spec fn join(parts: Seq<Seq<char>>) -> Seq<char>
    decreases parts.len(),
{
    if parts.len() == 0 {
        Seq::empty()
    } else if parts.len() == 1 {
        parts[0]
    } else {
        join(parts.drop_last()) + seq![','] + parts.last()
    }
}

/// The text of each child of `n`, in order.
pub open spec fn render_children(n: crate::tree::Node) -> Seq<Seq<char>>
    decreases n, 0int,
{
    Seq::new(
        n.children.len(),
        |i: int|
            if 0 <= i < n.children.len() {
                render(n.children[i])
            } else {
                Seq::empty()
            },
    )
}

/// The text that stands for a length: nothing, or a colon and the number.
pub open spec fn render_length(length: Option<Seq<char>>) -> Seq<char> {
    match length {
        Some(l) => seq![':'] + l,
        None => Seq::empty(),
    }
}

/// The children of `n` between parentheses; nothing for a leaf.
pub open spec fn render_group(n: crate::tree::Node) -> Seq<char>
    decreases n, 1int,
{
    if n.children.len() == 0 {
        Seq::empty()
    } else {
        seq!['('] + join(render_children(n)) + seq![')']
    }
}

/// The text of the node `n` with everything below it: its children, its name, its
/// length.
pub open spec fn render(n: crate::tree::Node) -> Seq<char>
    decreases n, 2int,
{
    render_group(n) + n.name + render_length(n.length)
}

/// The text of a whole tree: the root and a closing semicolon.
pub open spec fn render_tree(n: crate::tree::Node) -> Seq<char> {
    render(n) + seq![';']
}

/// A run ends at or behind its start and inside the text; every character of the
/// run satisfies `p`, and the character behind it, if there is one, does not.
pub proof fn lemma_run_end(s: Seq<char>, i: int, p: spec_fn(char) -> bool)
    requires
        0 <= i <= s.len(),
    ensures
        i <= run_end(s, i, p) <= s.len(),
        forall|k: int| i <= k < run_end(s, i, p) ==> p(#[trigger] s[k]),
        run_end(s, i, p) < s.len() ==> !p(s[run_end(s, i, p)]),
    decreases s.len() - i,
{
    if i < s.len() && p(s[i]) {
        lemma_run_end(s, i + 1, p);
    }
}

/// A stretch of characters that satisfy `p`, with none behind it, is the run.
pub proof fn lemma_run_end_is(s: Seq<char>, i: int, e: int, p: spec_fn(char) -> bool)
    requires
        0 <= i <= e <= s.len(),
        forall|k: int| i <= k < e ==> p(#[trigger] s[k]),
        e < s.len() ==> !p(s[e]),
    ensures
        run_end(s, i, p) == e,
    decreases e - i,
{
    if i < e {
        lemma_run_end_is(s, i + 1, e, p);
    }
}

/// Where a parenthesis is opened and the internal node fails, the sub-tree is the
/// unnamed leaf in front of the parenthesis, and the branch has no length.
pub proof fn lemma_unclosed(s: Seq<char>, i: int)
    requires
        0 <= i <= s.len(),
        internal_at(s, i) matches Err(failure) && failure.kind != SyntaxErrorKind::ExpectedOpen,
    ensures
        spaces_end(s, i) < s.len(),
        s[spaces_end(s, i)] == '(',
        branch_at(s, i) == (
            crate::tree::Node { name: Seq::empty(), length: None, children: Seq::empty() },
            spaces_end(s, i),
        ),
{
    let j = spaces_end(s, i);
    lemma_run_end(s, i, |c: char| is_space(c));
    assert(s.subrange(j, j) =~= Seq::<char>::empty());
}

} // verus!
