//! How reading and writing relate.
//!
//! Each law is a proof function: its parameters are the values the law speaks
//! of, and its contract is the law. The words in which the laws are stated come
//! first.
use vstd::prelude::*;

verus! {

/// Whether the text `t` stands in `s` at position `i`.
pub open spec fn stands_at(s: Seq<char>, i: int, t: Seq<char>) -> bool {
    &&& 0 <= i
    &&& i + t.len() <= s.len()
    &&& forall|a: int| 0 <= a < t.len() ==> #[trigger] t[a] == s[i + a]
}

/// A name that can stand without quotes: no delimiter is in it, and no blank
/// stands at its start.
pub open spec fn is_bare_name(name: Seq<char>) -> bool {
    &&& forall|k: int| 0 <= k < name.len() ==> !crate::grammar::is_delimiter(#[trigger] name[k])
    &&& name.len() > 0 ==> !crate::grammar::is_space(name[0])
}

/// Whether every name in the tree can stand without quotes.
pub open spec fn has_bare_names(n: crate::tree::Node) -> bool
    decreases n,
{
    &&& is_bare_name(n.name)
    &&& forall|k: int| 0 <= k < n.children.len() ==> has_bare_names(#[trigger] n.children[k])
}

/// Whether every length in the tree is a number.
pub open spec fn has_number_lengths(n: crate::tree::Node) -> bool
    decreases n,
{
    &&& n.length matches Some(length) ==> crate::grammar::is_number(length)
    &&& forall|k: int| 0 <= k < n.children.len() ==> has_number_lengths(#[trigger] n.children[k])
}

/// Whether no quote stands in any name of the tree.
pub open spec fn has_quote_free_names(n: crate::tree::Node) -> bool
    decreases n,
{
    &&& has_no_quote(n.name)
    &&& forall|k: int|
        0 <= k < n.children.len() ==> has_quote_free_names(#[trigger] n.children[k])
}

/// Whether no quote stands in the text.
pub open spec fn has_no_quote(s: Seq<char>) -> bool {
    forall|k: int| 0 <= k < s.len() ==> #[trigger] s[k] != '\''
}

/// Whether no blank stands in the text.
pub open spec fn has_no_blank(s: Seq<char>) -> bool {
    forall|k: int| 0 <= k < s.len() ==> !crate::grammar::is_space(#[trigger] s[k])
}

/// The text of each of the trees, in order.
pub open spec fn render_all(trees: Seq<crate::tree::Node>) -> Seq<Seq<char>> {
    Seq::new(trees.len(), |k: int| crate::grammar::render(trees[k]))
}

/// The position in the text of `n` at which the text of its child `k` begins:
/// behind the opening parenthesis, the texts of the children in front of it, and
/// the commas between them.
pub open spec fn child_start(n: crate::tree::Node, k: int) -> int {
    if k == 0 {
        1
    } else {
        crate::grammar::join(render_all(n.children.take(k))).len() as int + 2
    }
}

/// Writing and reading give the tree back: the text of a tree whose names need
/// no quotes and whose lengths are numbers is read as that tree.
pub proof fn law_read_what_was_written(n: crate::tree::Node)
    requires
        has_bare_names(n),
        has_number_lengths(n),
    ensures
        crate::grammar::parse(crate::grammar::render_tree(n)) == Ok::<
            crate::tree::Node,
            crate::grammar::Failure,
        >(n),
{
    let body = crate::grammar::render(n);
    let s = crate::grammar::render_tree(n);
    assert(stands_at(s, 0, body));
    assert(s[body.len() as int] == ';');
    crate::lemmas::lemma_branch_read_back(s, 0, n);
    crate::lemmas::lemma_no_blank(s, (body.len() + 1) as int);
}

/// Every length of a tree that was read is a number.
pub proof fn law_lengths_are_numbers(s: Seq<char>)
    requires
        crate::grammar::parse(s) is Ok,
    ensures
        has_number_lengths(crate::grammar::parse(s)->Ok_0),
{
    crate::lemmas::lemma_branch_lengths(s, 0);
}

/// Reading, writing and reading again gives the tree of the first reading,
/// where its names need no quotes.
///
/// A name that was read between quotes and holds a delimiter, or begins with a
/// blank, is written without the quotes; such a text is not read back as the
/// same tree.
pub proof fn law_round_trip(s: Seq<char>)
    requires
        crate::grammar::parse(s) is Ok,
        has_bare_names(crate::grammar::parse(s)->Ok_0),
    ensures
        crate::grammar::parse(crate::grammar::render_tree(crate::grammar::parse(s)->Ok_0))
            == crate::grammar::parse(s),
{
    law_lengths_are_numbers(s);
    law_read_what_was_written(crate::grammar::parse(s)->Ok_0);
}

/// Only a tree whose names need no quotes is read back from its own text.
pub proof fn law_round_trip_needs_bare_names(s: Seq<char>)
    requires
        crate::grammar::parse(s) is Ok,
        crate::grammar::parse(crate::grammar::render_tree(crate::grammar::parse(s)->Ok_0))
            == crate::grammar::parse(s),
    ensures
        has_bare_names(crate::grammar::parse(s)->Ok_0),
{
    law_written_text_has_no_quote(s);
    law_plain_text_gives_bare_names(crate::grammar::render_tree(crate::grammar::parse(s)->Ok_0));
}

/// A tree that was read from a text without quotes has names that need no
/// quotes.
pub proof fn law_plain_text_gives_bare_names(s: Seq<char>)
    requires
        has_no_quote(s),
        crate::grammar::parse(s) is Ok,
    ensures
        has_bare_names(crate::grammar::parse(s)->Ok_0),
{
    crate::lemmas::lemma_branch_plain(s, 0);
}

/// The text of a tree that was read is stable: reading it and writing it again
/// gives the same text, where the names of the tree need no quotes.
pub proof fn law_stable_text(s: Seq<char>)
    requires
        crate::grammar::parse(s) is Ok,
        has_bare_names(crate::grammar::parse(s)->Ok_0),
    ensures
        crate::grammar::parse(crate::grammar::render_tree(crate::grammar::parse(s)->Ok_0)) is Ok,
        crate::grammar::render_tree(
            crate::grammar::parse(
                crate::grammar::render_tree(crate::grammar::parse(s)->Ok_0),
            )->Ok_0,
        ) == crate::grammar::render_tree(crate::grammar::parse(s)->Ok_0),
{
    law_round_trip(s);
}

/// The text of a tree that was read is stable where it holds no blank and can
/// be read: reading it and writing it again gives the same text.
pub proof fn law_stable_text_without_blanks(s: Seq<char>)
    requires
        crate::grammar::parse(s) is Ok,
        has_no_blank(crate::grammar::render_tree(crate::grammar::parse(s)->Ok_0)),
        crate::grammar::parse(crate::grammar::render_tree(crate::grammar::parse(s)->Ok_0)) is Ok,
    ensures
        crate::grammar::render_tree(
            crate::grammar::parse(
                crate::grammar::render_tree(crate::grammar::parse(s)->Ok_0),
            )->Ok_0,
        ) == crate::grammar::render_tree(crate::grammar::parse(s)->Ok_0),
{
    law_written_text_has_no_quote(s);
    law_plain_text_is_written_back(crate::grammar::render_tree(crate::grammar::parse(s)->Ok_0));
}

/// The text of a tree that was read, read back and written again, is stable
/// whatever the names: reading and writing it once more gives the same text.
pub proof fn law_second_text_is_stable(s: Seq<char>)
    requires
        crate::grammar::parse(s) is Ok,
        crate::grammar::parse(crate::grammar::render_tree(crate::grammar::parse(s)->Ok_0)) is Ok,
    ensures
        ({
            let first = crate::grammar::render_tree(crate::grammar::parse(s)->Ok_0);
            let second = crate::grammar::render_tree(crate::grammar::parse(first)->Ok_0);
            &&& crate::grammar::parse(second) is Ok
            &&& crate::grammar::render_tree(crate::grammar::parse(second)->Ok_0) == second
        }),
{
    let first = crate::grammar::render_tree(crate::grammar::parse(s)->Ok_0);
    law_written_text_has_no_quote(s);
    law_plain_text_gives_bare_names(first);
    law_stable_text(first);
}

/// A text without blanks and quotes is written back as it stood.
pub proof fn law_plain_text_is_written_back(s: Seq<char>)
    requires
        has_no_quote(s),
        has_no_blank(s),
        crate::grammar::parse(s) is Ok,
    ensures
        crate::grammar::render_tree(crate::grammar::parse(s)->Ok_0) == s,
{
    crate::lemmas::lemma_branch_plain(s, 0);
    crate::lemmas::lemma_branch_lengths(s, 0);
    let e = crate::grammar::branch_at(s, 0).1;
    crate::grammar::lemma_run_end(s, e + 1, |c: char| crate::grammar::is_space(c));
    crate::lemmas::lemma_no_blank(s, e + 1);
    assert(s.subrange(0, e) + seq![';'] =~= s);
}

/// The text of a tree that was read holds no quote.
pub proof fn law_written_text_has_no_quote(s: Seq<char>)
    requires
        crate::grammar::parse(s) is Ok,
    ensures
        has_no_quote(crate::grammar::render_tree(crate::grammar::parse(s)->Ok_0)),
{
    crate::lemmas::lemma_branch_names(s, 0);
    crate::lemmas::lemma_branch_lengths(s, 0);
    let n = crate::grammar::parse(s)->Ok_0;
    crate::lemmas::lemma_render_has_no_quote(n);
    crate::lemmas::lemma_no_quote_in_both(crate::grammar::render(n), seq![';']);
}

/// The children keep their order: in the text of a node the texts of its
/// children stand one behind the other, in the order of the children, with one
/// comma between each two.
pub proof fn law_children_in_order(n: crate::tree::Node, k: int)
    requires
        0 <= k < n.children.len(),
    ensures
        stands_at(crate::grammar::render(n), child_start(n, k), crate::grammar::render(n.children[k])),
        k + 1 < n.children.len() ==> child_start(n, k + 1) == child_start(n, k)
            + crate::grammar::render(n.children[k]).len() + 1,
        k + 1 < n.children.len() ==> crate::grammar::render(n)[child_start(n, k + 1) - 1] == ',',
{
    crate::lemmas::lemma_child_stands(n, k);
}

/// Where no name stands the name is empty, and so it is for two quotes with
/// nothing between them.
pub proof fn law_missing_name_is_empty(s: Seq<char>, i: int)
    requires
        0 <= i <= s.len(),
    ensures
        ({
            let j = crate::grammar::spaces_end(s, i);
            &&& (j == s.len() || (crate::grammar::is_delimiter(s[j]) && s[j] != '\''))
                ==> crate::grammar::name_at(s, i) == (Seq::<char>::empty(), j)
            &&& (j + 1 < s.len() && s[j] == '\'' && s[j + 1] == '\'') ==> crate::grammar::name_at(
                s,
                i,
            ) == (Seq::<char>::empty(), j + 2)
        }),
{
    crate::grammar::lemma_run_end(s, i, |c: char| crate::grammar::is_space(c));
    let j = crate::grammar::spaces_end(s, i);
    assert(s.subrange(j, j) =~= Seq::<char>::empty());
    if j + 1 < s.len() {
        assert(s.subrange(j + 1, j + 1) =~= Seq::<char>::empty());
    }
}

/// Where no colon stands there is no length and nothing is taken; where a colon
/// and a number stand the length is that number, whatever its sign or value.
pub proof fn law_length_or_none(s: Seq<char>, i: int)
    requires
        0 <= i <= s.len(),
    ensures
        ({
            let j = crate::grammar::spaces_end(s, i);
            let k = crate::grammar::spaces_end(s, j + 1);
            &&& (j == s.len() || s[j] != ':') ==> crate::grammar::length_at(s, i) == (
                None::<Seq<char>>,
                i,
            )
            &&& (j < s.len() && s[j] == ':' && crate::grammar::number_end(s, k) is Some) ==> {
                &&& crate::grammar::length_at(s, i).0 == Some(
                    s.subrange(k, crate::grammar::number_end(s, k)->0),
                )
                &&& crate::grammar::is_number(s.subrange(k, crate::grammar::number_end(s, k)->0))
                &&& crate::grammar::length_at(s, i).1 == crate::grammar::number_end(s, k)->0
            }
        }),
{
    crate::lemmas::lemma_length_is_number(s, i);
    crate::grammar::lemma_run_end(s, i, |c: char| crate::grammar::is_space(c));
}

} // verus!
