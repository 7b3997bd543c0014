//! The steps on which the laws rest.
use vstd::prelude::*;

verus! {

/// Whether a branch can end at position `e`: the text ends there, or a comma, a
/// closing parenthesis or a semicolon stands there.
pub open spec fn ends_branch(s: Seq<char>, e: int) -> bool {
    e == s.len() || (0 <= e < s.len() && (s[e] == ',' || s[e] == ')' || s[e] == ';'))
}

/// Both halves of a text that stands at `i` stand where they are.
pub(crate) proof fn lemma_halves_stand(s: Seq<char>, i: int, a: Seq<char>, b: Seq<char>)
    requires
        crate::laws::stands_at(s, i, a + b),
    ensures
        crate::laws::stands_at(s, i, a),
        crate::laws::stands_at(s, i + a.len(), b),
{
    let t = a + b;
    assert forall|x: int| 0 <= x < a.len() implies #[trigger] a[x] == s[i + x] by {
        assert(t[x] == a[x]);
    }
    assert forall|x: int| 0 <= x < b.len() implies #[trigger] b[x] == s[i + a.len() + x] by {
        assert(t[a.len() + x] == b[x]);
    }
}

/// A run inside a text that stands at `i` is the run of the whole, cut off at the
/// end of the text.
pub(crate) proof fn lemma_run_in_piece(s: Seq<char>, i: int, t: Seq<char>, a: int, p: spec_fn(char) -> bool)
    requires
        crate::laws::stands_at(s, i, t),
        0 <= a <= t.len(),
    ensures
        i + a <= crate::grammar::run_end(s, i + a, p) <= s.len(),
        a <= crate::grammar::run_end(t, a, p) <= t.len(),
        crate::grammar::run_end(t, a, p) == if crate::grammar::run_end(s, i + a, p) <= i
            + t.len() {
            crate::grammar::run_end(s, i + a, p) - i
        } else {
            t.len() as int
        },
    decreases t.len() - a,
{
    crate::grammar::lemma_run_end(s, i + a, p);
    crate::grammar::lemma_run_end(t, a, p);
    if a < t.len() {
        assert(t[a] == s[i + a]);
        if p(t[a]) {
            lemma_run_in_piece(s, i, t, a + 1, p);
        }
    } else {
        if i + a < s.len() && p(s[i + a]) {
            crate::grammar::lemma_run_end(s, i + a + 1, p);
        }
    }
}

/// The digits inside a text that stands at `i`.
pub(crate) proof fn lemma_digits_in_piece(s: Seq<char>, i: int, t: Seq<char>, a: int)
    requires
        crate::laws::stands_at(s, i, t),
        0 <= a <= t.len(),
    ensures
        i + a <= crate::grammar::digits_end(s, i + a) <= s.len(),
        a <= crate::grammar::digits_end(t, a) <= t.len(),
        crate::grammar::digits_end(t, a) == if crate::grammar::digits_end(s, i + a) <= i
            + t.len() {
            crate::grammar::digits_end(s, i + a) - i
        } else {
            t.len() as int
        },
        i + t.len() < s.len() && !crate::grammar::is_digit(s[i + t.len()])
            ==> crate::grammar::digits_end(s, i + a) <= i + t.len(),
        i + t.len() == s.len() ==> crate::grammar::digits_end(s, i + a) <= i + t.len(),
{
    let p = |c: char| crate::grammar::is_digit(c);
    lemma_run_in_piece(s, i, t, a, p);
    crate::grammar::lemma_run_end(s, i + a, p);
    if i + t.len() < s.len() && !crate::grammar::is_digit(s[i + t.len()]) {
        if crate::grammar::digits_end(s, i + a) > i + t.len() {
            assert(p(s[i + t.len()]));
        }
    }
}

/// A number that stands at `i` is read back whole where the branch ends behind it.
pub(crate) proof fn lemma_number_read_back(s: Seq<char>, i: int, t: Seq<char>)
    requires
        crate::laws::stands_at(s, i, t),
        crate::grammar::is_number(t),
        ends_branch(s, i + t.len()),
    ensures
        crate::grammar::number_end(s, i) == Some(i + t.len()),
        t.len() > 0,
        !crate::grammar::is_space(t[0]),
{
    let n = t.len() as int;
    lemma_digits_in_piece(s, i, t, 0);
    if n > 0 {
        assert(t[0] == s[i]);
        lemma_digits_in_piece(s, i, t, 1);
    }
    let sign = crate::grammar::sign_end(t, 0);
    assert(crate::grammar::sign_end(s, i) == i + sign);
    lemma_digits_in_piece(s, i, t, sign);
    let digits = crate::grammar::digits_end(t, sign);
    if sign < n {
        assert(t[sign] == s[i + sign]);
        lemma_digits_in_piece(s, i, t, sign + 1);
    }
    if digits < n {
        assert(t[digits] == s[i + digits]);
        lemma_digits_in_piece(s, i, t, digits + 1);
    }
    let mantissa = crate::grammar::mantissa_end(t, sign)->0;
    assert(crate::grammar::mantissa_end(s, i + sign) == Some(i + mantissa));
    assert(sign < mantissa <= n);
    if mantissa < n {
        assert(t[mantissa] == s[i + mantissa]);
        let exponent = crate::grammar::sign_end(t, mantissa + 1);
        if mantissa + 1 < n {
            assert(t[mantissa + 1] == s[i + mantissa + 1]);
        }
        assert(crate::grammar::sign_end(s, i + mantissa + 1) == i + exponent);
        lemma_digits_in_piece(s, i, t, exponent);
    }
}

/// What is read as a number is a number when it stands alone.
pub proof fn lemma_number_alone(s: Seq<char>, i: int)
    requires
        0 <= i <= s.len(),
        crate::grammar::number_end(s, i) is Some,
    ensures
        i < crate::grammar::number_end(s, i)->0 <= s.len(),
        crate::grammar::is_number(s.subrange(i, crate::grammar::number_end(s, i)->0)),
{
    let p = |c: char| crate::grammar::is_digit(c);
    let sign = crate::grammar::sign_end(s, i);
    crate::grammar::lemma_run_end(s, sign, p);
    let digits = crate::grammar::digits_end(s, sign);
    if digits < s.len() {
        crate::grammar::lemma_run_end(s, digits + 1, p);
    }
    if sign < s.len() {
        crate::grammar::lemma_run_end(s, sign + 1, p);
    }
    let mantissa = crate::grammar::mantissa_end(s, sign)->0;
    assert(sign < mantissa <= s.len());
    if mantissa < s.len() {
        crate::grammar::lemma_run_end(s, crate::grammar::sign_end(s, mantissa + 1), p);
    }
    let e = crate::grammar::number_end(s, i)->0;
    assert(mantissa <= e <= s.len());
    let t = s.subrange(i, e);
    let n = t.len() as int;
    assert(crate::laws::stands_at(s, i, t));
    assert(t[0] == s[i]);
    assert(crate::grammar::sign_end(t, 0) == sign - i);
    lemma_digits_in_piece(s, i, t, sign - i);
    if sign < e {
        assert(t[sign - i] == s[sign]);
        lemma_digits_in_piece(s, i, t, sign - i + 1);
    }
    if digits < e {
        assert(t[digits - i] == s[digits]);
        lemma_digits_in_piece(s, i, t, digits - i + 1);
    }
    assert(crate::grammar::mantissa_end(t, sign - i) == Some(mantissa - i));
    if mantissa < e {
        assert(t[mantissa - i] == s[mantissa]);
        assert(mantissa + 1 < e);
        assert(t[mantissa + 1 - i] == s[mantissa + 1]);
        assert(crate::grammar::sign_end(t, mantissa - i + 1) == crate::grammar::sign_end(
            s,
            mantissa + 1,
        ) - i);
        lemma_digits_in_piece(s, i, t, crate::grammar::sign_end(t, mantissa - i + 1));
    }
}

/// No blanks are skipped where none stands.
pub(crate) proof fn lemma_no_blank(s: Seq<char>, i: int)
    requires
        0 <= i <= s.len(),
        i < s.len() ==> !crate::grammar::is_space(s[i]),
    ensures
        crate::grammar::spaces_end(s, i) == i,
{
}

/// A name without quotes that stands at `i` is read back where a colon or the
/// end of the branch follows it.
pub(crate) proof fn lemma_name_read_back(s: Seq<char>, i: int, name: Seq<char>)
    requires
        crate::laws::stands_at(s, i, name),
        crate::laws::is_bare_name(name),
        ends_branch(s, i + name.len()) || s[i + name.len()] == ':',
    ensures
        crate::grammar::name_at(s, i) == (name, i + name.len()),
        crate::grammar::spaces_end(s, i) == i,
        i < s.len() ==> s[i] != '(',
{
    let e = i + name.len();
    if name.len() > 0 {
        assert(name[0] == s[i]);
    }
    lemma_no_blank(s, i);
    assert forall|k: int| i <= k < e implies !crate::grammar::is_delimiter(#[trigger] s[k]) by {
        assert(name[k - i] == s[k]);
    }
    crate::grammar::lemma_run_end_is(s, i, e, |c: char| !crate::grammar::is_delimiter(c));
    assert(s.subrange(i, e) =~= name);
}

/// A length that stands at `i` is read back where the branch ends behind it.
pub(crate) proof fn lemma_length_read_back(s: Seq<char>, i: int, length: Option<Seq<char>>)
    requires
        crate::laws::stands_at(s, i, crate::grammar::render_length(length)),
        ends_branch(s, i + crate::grammar::render_length(length).len()),
        length matches Some(number) ==> crate::grammar::is_number(number),
    ensures
        crate::grammar::length_at(s, i) == (length, i + crate::grammar::render_length(length).len()),
{
    match length {
        Some(number) => {
            lemma_halves_stand(s, i, seq![':'], number);
            assert(seq![':'][0] == s[i]);
            lemma_no_blank(s, i);
            lemma_number_read_back(s, i + 1, number);
            assert(number[0] == s[i + 1]);
            lemma_no_blank(s, i + 1);
            assert(s.subrange(i + 1, i + 1 + number.len()) =~= number);
        },
        None => {
            lemma_no_blank(s, i);
        },
    }
}

/// The text of a tree with names that need no quotes does not begin with a blank.
pub(crate) proof fn lemma_render_start(n: crate::tree::Node)
    requires
        crate::laws::is_bare_name(n.name),
    ensures
        crate::grammar::render(n).len() > 0 ==> !crate::grammar::is_space(
            crate::grammar::render(n)[0],
        ),
{
}

/// Joined pieces begin with the first piece.
pub(crate) proof fn lemma_join_front(parts: Seq<Seq<char>>)
    requires
        parts.len() >= 2,
    ensures
        crate::grammar::join(parts) == parts[0] + seq![','] + crate::grammar::join(
            parts.drop_first(),
        ),
    decreases parts.len(),
{
    let front = parts.drop_last();
    let back = parts.drop_first();
    if parts.len() == 2 {
        assert(crate::grammar::join(front) == parts[0]);
        assert(crate::grammar::join(back) == parts[1]);
    } else {
        lemma_join_front(front);
        assert(front.drop_first() =~= back.drop_last());
        assert(crate::grammar::join(parts) =~= parts[0] + seq![','] + crate::grammar::join(back));
    }
}

/// The text of a tree, standing where a branch may stand, is read back as the
/// tree.
pub(crate) proof fn lemma_branch_read_back(s: Seq<char>, i: int, n: crate::tree::Node)
    requires
        crate::laws::stands_at(s, i, crate::grammar::render(n)),
        ends_branch(s, i + crate::grammar::render(n).len()),
        crate::laws::has_bare_names(n),
        crate::laws::has_number_lengths(n),
    ensures
        crate::grammar::branch_at(s, i) == (n, i + crate::grammar::render(n).len()),
    decreases n,
{
    let group = crate::grammar::render_group(n);
    let length = crate::grammar::render_length(n.length);
    lemma_halves_stand(s, i, group + n.name, length);
    lemma_halves_stand(s, i, group, n.name);
    let name_start = i + group.len();
    let name_end = name_start + n.name.len();
    if length.len() > 0 {
        assert(length[0] == s[name_end]);
    }
    lemma_name_read_back(s, name_start, n.name);
    lemma_length_read_back(s, name_end, n.length);
    if n.children.len() == 0 {
        assert(n.children =~= Seq::empty());
    } else {
        let inner = crate::grammar::join(crate::grammar::render_children(n));
        lemma_halves_stand(s, i, seq!['('] + inner, seq![')']);
        lemma_halves_stand(s, i, seq!['('], inner);
        assert(seq!['('][0] == s[i]);
        assert(seq![')'][0] == s[i + 1 + inner.len()]);
        lemma_no_blank(s, i);
        assert(crate::grammar::render_children(n) =~= crate::laws::render_all(n.children));
        lemma_branch_set_read_back(s, i + 1, n.children);
    }
}

/// The joined texts of trees, standing in front of a closing parenthesis, are
/// read back as the trees.
pub(crate) proof fn lemma_branch_set_read_back(s: Seq<char>, i: int, trees: Seq<crate::tree::Node>)
    requires
        trees.len() > 0,
        forall|k: int| 0 <= k < trees.len() ==> crate::laws::has_bare_names(#[trigger] trees[k]),
        forall|k: int| 0 <= k < trees.len() ==> crate::laws::has_number_lengths(#[trigger] trees[k]),
        crate::laws::stands_at(s, i, crate::grammar::join(crate::laws::render_all(trees))),
        i + crate::grammar::join(crate::laws::render_all(trees)).len() < s.len(),
        s[i + crate::grammar::join(crate::laws::render_all(trees)).len()] == ')',
    ensures
        crate::grammar::branch_set_at(s, i) == (
            trees,
            i + crate::grammar::join(crate::laws::render_all(trees)).len(),
        ),
    decreases trees,
{
    let parts = crate::laws::render_all(trees);
    let first = crate::grammar::render(trees[0]);
    lemma_render_start(trees[0]);
    if trees.len() == 1 {
        assert(crate::grammar::join(parts) == first);
        if first.len() > 0 {
            assert(first[0] == s[i]);
        }
        lemma_no_blank(s, i);
        lemma_branch_read_back(s, i, trees[0]);
        lemma_no_blank(s, i + first.len());
        assert(seq![trees[0]] =~= trees);
    } else {
        let more = trees.drop_first();
        lemma_join_front(parts);
        assert(crate::laws::render_all(more) =~= parts.drop_first());
        let rest = crate::grammar::join(crate::laws::render_all(more));
        lemma_halves_stand(s, i, first + seq![','], rest);
        lemma_halves_stand(s, i, first, seq![',']);
        let comma = i + first.len();
        assert(seq![','][0] == s[comma]);
        if first.len() > 0 {
            assert(first[0] == s[i]);
        }
        lemma_no_blank(s, i);
        lemma_branch_read_back(s, i, trees[0]);
        lemma_no_blank(s, comma);
        assert forall|k: int| 0 <= k < more.len() implies crate::laws::has_bare_names(#[trigger] more[k]) by {
            assert(more[k] == trees[k + 1]);
        }
        assert forall|k: int| 0 <= k < more.len() implies crate::laws::has_number_lengths(
            #[trigger] more[k],
        ) by {
            assert(more[k] == trees[k + 1]);
        }
        lemma_branch_set_read_back(s, comma + 1, more);
        assert(seq![trees[0]] + more =~= trees);
    }
}

/// A name ends at or behind its start and inside the text.
pub proof fn lemma_name_bounds(s: Seq<char>, i: int)
    requires
        0 <= i <= s.len(),
    ensures
        i <= crate::grammar::name_at(s, i).1 <= s.len(),
{
    crate::grammar::lemma_run_end(s, i, |c: char| crate::grammar::is_space(c));
    let j = crate::grammar::spaces_end(s, i);
    crate::grammar::lemma_run_end(s, j, |c: char| !crate::grammar::is_delimiter(c));
    if j < s.len() {
        crate::grammar::lemma_run_end(s, j + 1, |c: char| c != '\'');
    }
}

/// A length ends at or behind its start and inside the text, and it is a number.
pub proof fn lemma_length_is_number(s: Seq<char>, i: int)
    requires
        0 <= i <= s.len(),
    ensures
        i <= crate::grammar::length_at(s, i).1 <= s.len(),
        crate::grammar::length_at(s, i).0 matches Some(number) ==> crate::grammar::is_number(
            number,
        ),
{
    crate::grammar::lemma_run_end(s, i, |c: char| crate::grammar::is_space(c));
    let j = crate::grammar::spaces_end(s, i);
    if j < s.len() && s[j] == ':' {
        crate::grammar::lemma_run_end(s, j + 1, |c: char| crate::grammar::is_space(c));
        let k = crate::grammar::spaces_end(s, j + 1);
        if crate::grammar::number_end(s, k) is Some {
            lemma_number_alone(s, k);
        }
    }
}

/// An internal node that is read ends behind its start and inside the text, and
/// its lengths are numbers.
pub proof fn lemma_internal_lengths(s: Seq<char>, i: int)
    requires
        0 <= i <= s.len(),
    ensures
        crate::grammar::internal_at(s, i) matches Ok(found) ==> i < found.1 <= s.len()
            && crate::laws::has_number_lengths(found.0),
    decreases s.len() - i, 0int,
{
    crate::grammar::lemma_run_end(s, i, |c: char| crate::grammar::is_space(c));
    let j = crate::grammar::spaces_end(s, i);
    if j < s.len() && s[j] == '(' {
        lemma_branch_set_lengths(s, j + 1);
        let e = crate::grammar::branch_set_at(s, j + 1).1;
        if e < s.len() && s[e] == ')' {
            lemma_name_bounds(s, e + 1);
        }
    }
}

/// A sub-tree ends at or behind its start and inside the text, and its lengths
/// are numbers.
pub proof fn lemma_sub_tree_lengths(s: Seq<char>, i: int)
    requires
        0 <= i <= s.len(),
    ensures
        i <= crate::grammar::sub_tree_at(s, i).1 <= s.len(),
        crate::laws::has_number_lengths(crate::grammar::sub_tree_at(s, i).0),
    decreases s.len() - i, 1int,
{
    lemma_internal_lengths(s, i);
    lemma_name_bounds(s, i);
}

/// A branch ends at or behind its start and inside the text, and its lengths are
/// numbers.
pub proof fn lemma_branch_lengths(s: Seq<char>, i: int)
    requires
        0 <= i <= s.len(),
    ensures
        i <= crate::grammar::branch_at(s, i).1 <= s.len(),
        crate::laws::has_number_lengths(crate::grammar::branch_at(s, i).0),
    decreases s.len() - i, 2int,
{
    lemma_sub_tree_lengths(s, i);
    lemma_length_is_number(s, crate::grammar::sub_tree_at(s, i).1);
}

/// The branches of an internal node are at least one; they end at or behind
/// their start and inside the text, and their lengths are numbers.
pub proof fn lemma_branch_set_lengths(s: Seq<char>, i: int)
    requires
        0 <= i <= s.len(),
    ensures
        crate::grammar::branch_set_at(s, i).0.len() > 0,
        i <= crate::grammar::branch_set_at(s, i).1 <= s.len(),
        forall|k: int|
            0 <= k < crate::grammar::branch_set_at(s, i).0.len() ==> crate::laws::has_number_lengths(
                #[trigger] crate::grammar::branch_set_at(s, i).0[k],
            ),
    decreases s.len() - i, 3int,
{
    crate::grammar::lemma_run_end(s, i, |c: char| crate::grammar::is_space(c));
    let j = crate::grammar::spaces_end(s, i);
    lemma_branch_lengths(s, j);
    let e = crate::grammar::branch_at(s, j).1;
    crate::grammar::lemma_run_end(s, e, |c: char| crate::grammar::is_space(c));
    let k = crate::grammar::spaces_end(s, e);
    if k < s.len() && s[k] == ',' {
        lemma_branch_set_lengths(s, k + 1);
    }
}

/// The first pieces, joined, stand at the start of all pieces, joined.
pub(crate) proof fn lemma_join_prefix(parts: Seq<Seq<char>>, j: int)
    requires
        1 <= j <= parts.len(),
    ensures
        crate::laws::stands_at(crate::grammar::join(parts), 0, crate::grammar::join(parts.take(j))),
    decreases parts.len() - j,
{
    if j == parts.len() {
        assert(parts.take(j) =~= parts);
    } else {
        lemma_join_prefix(parts, j + 1);
        let longer = parts.take(j + 1);
        assert(longer.drop_last() =~= parts.take(j));
        assert(crate::grammar::join(longer) == crate::grammar::join(parts.take(j)) + seq![',']
            + parts[j]);
        lemma_halves_stand(
            crate::grammar::join(parts),
            0,
            crate::grammar::join(parts.take(j)) + seq![','],
            parts[j],
        );
        lemma_halves_stand(
            crate::grammar::join(parts),
            0,
            crate::grammar::join(parts.take(j)),
            seq![','],
        );
    }
}

/// A text that stands in a text that stands in a third stands in the third.
pub(crate) proof fn lemma_stands_within(r: Seq<char>, i: int, t: Seq<char>, j: int, u: Seq<char>)
    requires
        crate::laws::stands_at(r, i, t),
        crate::laws::stands_at(t, j, u),
    ensures
        crate::laws::stands_at(r, i + j, u),
{
    assert forall|a: int| 0 <= a < u.len() implies #[trigger] u[a] == r[i + j + a] by {
        assert(t[j + a] == r[i + j + a]);
    }
}

/// In a text without quotes a name that is read needs no quotes; where the
/// text has no blanks either, the name is the text that was taken.
pub(crate) proof fn lemma_name_plain(s: Seq<char>, i: int)
    requires
        0 <= i <= s.len(),
        crate::laws::has_no_quote(s),
    ensures
        crate::laws::is_bare_name(crate::grammar::name_at(s, i).0),
        crate::laws::has_no_blank(s) ==> crate::grammar::name_at(s, i).0 == s.subrange(
            i,
            crate::grammar::name_at(s, i).1,
        ),
{
    crate::grammar::lemma_run_end(s, i, |c: char| crate::grammar::is_space(c));
    let j = crate::grammar::spaces_end(s, i);
    crate::grammar::lemma_run_end(s, j, |c: char| !crate::grammar::is_delimiter(c));
    let e = crate::grammar::bare_end(s, j);
    let name = s.subrange(j, e);
    assert forall|k: int| 0 <= k < name.len() implies !crate::grammar::is_delimiter(
        #[trigger] name[k],
    ) by {
        assert(name[k] == s[j + k]);
    }
    if crate::laws::has_no_blank(s) {
        lemma_no_blank(s, i);
    }
}

/// In a text without blanks a length is written as the text that was taken.
pub(crate) proof fn lemma_length_plain(s: Seq<char>, i: int)
    requires
        0 <= i <= s.len(),
        crate::laws::has_no_blank(s),
    ensures
        crate::grammar::render_length(crate::grammar::length_at(s, i).0) == s.subrange(
            i,
            crate::grammar::length_at(s, i).1,
        ),
{
    lemma_no_blank(s, i);
    lemma_length_is_number(s, i);
    let e = crate::grammar::length_at(s, i).1;
    if i < s.len() && s[i] == ':' {
        lemma_no_blank(s, i + 1);
        if crate::grammar::number_end(s, i + 1) is Some {
            lemma_number_alone(s, i + 1);
            assert(seq![':'] + s.subrange(i + 1, e) =~= s.subrange(i, e));
        }
    }
    assert(s.subrange(i, i) =~= Seq::<char>::empty());
}

/// A node with another length has the same children, written the same way.
pub(crate) proof fn lemma_render_with_length(n: crate::tree::Node, length: Option<Seq<char>>)
    requires
        n.length is None,
    ensures
        crate::grammar::render(
            crate::tree::Node { name: n.name, length, children: n.children },
        ) == crate::grammar::render(n) + crate::grammar::render_length(length),
        crate::laws::has_bare_names(n) ==> crate::laws::has_bare_names(
            crate::tree::Node { name: n.name, length, children: n.children },
        ),
{
    let m = crate::tree::Node { name: n.name, length, children: n.children };
    assert(crate::grammar::render_children(m) =~= crate::grammar::render_children(n));
    assert(crate::grammar::render(m) =~= crate::grammar::render(n) + crate::grammar::render_length(
        length,
    ));
}

/// In a text without quotes the names of an internal node that is read need no
/// quotes; where the text has no blanks either, the node is written as the text
/// that was taken.
pub(crate) proof fn lemma_internal_plain(s: Seq<char>, i: int)
    requires
        0 <= i <= s.len(),
        crate::laws::has_no_quote(s),
    ensures
        crate::grammar::internal_at(s, i) matches Ok(found) ==> {
            &&& found.0.length is None
            &&& crate::laws::has_bare_names(found.0)
            &&& crate::laws::has_no_blank(s) ==> crate::grammar::render(found.0) == s.subrange(i, found.1)
        },
    decreases s.len() - i, 0int,
{
    crate::grammar::lemma_run_end(s, i, |c: char| crate::grammar::is_space(c));
    let j = crate::grammar::spaces_end(s, i);
    if j < s.len() && s[j] == '(' {
        lemma_branch_set_lengths(s, j + 1);
        lemma_branch_set_plain(s, j + 1);
        let (children, close) = crate::grammar::branch_set_at(s, j + 1);
        if close < s.len() && s[close] == ')' {
            lemma_name_bounds(s, close + 1);
            lemma_name_plain(s, close + 1);
            let (name, e) = crate::grammar::name_at(s, close + 1);
            let n = crate::tree::Node { name, length: None, children };
            if crate::laws::has_no_blank(s) {
                lemma_no_blank(s, i);
                assert(crate::grammar::render_children(n) =~= crate::laws::render_all(children));
                assert(crate::grammar::render(n) =~= s.subrange(i, e));
            }
        }
    }
}

/// The same of a sub-tree.
pub(crate) proof fn lemma_sub_tree_plain(s: Seq<char>, i: int)
    requires
        0 <= i <= s.len(),
        crate::laws::has_no_quote(s),
    ensures
        crate::grammar::sub_tree_at(s, i).0.length is None,
        crate::laws::has_bare_names(crate::grammar::sub_tree_at(s, i).0),
        crate::laws::has_no_blank(s) ==> crate::grammar::render(crate::grammar::sub_tree_at(s, i).0)
            == s.subrange(i, crate::grammar::sub_tree_at(s, i).1),
    decreases s.len() - i, 1int,
{
    lemma_internal_plain(s, i);
    lemma_name_plain(s, i);
    if crate::grammar::internal_at(s, i) is Err {
        let leaf = crate::grammar::leaf_at(s, i).0;
        assert(crate::grammar::render(leaf) =~= leaf.name);
    }
}

/// The same of a branch.
pub(crate) proof fn lemma_branch_plain(s: Seq<char>, i: int)
    requires
        0 <= i <= s.len(),
        crate::laws::has_no_quote(s),
    ensures
        crate::laws::has_bare_names(crate::grammar::branch_at(s, i).0),
        crate::laws::has_no_blank(s) ==> crate::grammar::render(crate::grammar::branch_at(s, i).0)
            == s.subrange(i, crate::grammar::branch_at(s, i).1),
    decreases s.len() - i, 2int,
{
    lemma_sub_tree_plain(s, i);
    lemma_sub_tree_lengths(s, i);
    let (n, e) = crate::grammar::sub_tree_at(s, i);
    let (length, end) = crate::grammar::length_at(s, e);
    lemma_length_is_number(s, e);
    lemma_render_with_length(n, length);
    if crate::laws::has_no_blank(s) {
        lemma_length_plain(s, e);
        assert(s.subrange(i, e) + s.subrange(e, end) =~= s.subrange(i, end));
    }
}

/// The same of the branches of an internal node.
pub(crate) proof fn lemma_branch_set_plain(s: Seq<char>, i: int)
    requires
        0 <= i <= s.len(),
        crate::laws::has_no_quote(s),
    ensures
        forall|k: int|
            0 <= k < crate::grammar::branch_set_at(s, i).0.len() ==> crate::laws::has_bare_names(
                #[trigger] crate::grammar::branch_set_at(s, i).0[k],
            ),
        crate::laws::has_no_blank(s) ==> crate::grammar::join(
            crate::laws::render_all(crate::grammar::branch_set_at(s, i).0),
        ) == s.subrange(i, crate::grammar::branch_set_at(s, i).1),
    decreases s.len() - i, 3int,
{
    crate::grammar::lemma_run_end(s, i, |c: char| crate::grammar::is_space(c));
    let j = crate::grammar::spaces_end(s, i);
    lemma_branch_lengths(s, j);
    lemma_branch_plain(s, j);
    let (first, e) = crate::grammar::branch_at(s, j);
    crate::grammar::lemma_run_end(s, e, |c: char| crate::grammar::is_space(c));
    let k = crate::grammar::spaces_end(s, e);
    if k < s.len() && s[k] == ',' {
        lemma_branch_set_lengths(s, k + 1);
        lemma_branch_set_plain(s, k + 1);
        let (more, end) = crate::grammar::branch_set_at(s, k + 1);
        let all = seq![first] + more;
        assert forall|x: int| 0 <= x < all.len() implies crate::laws::has_bare_names(#[trigger] all[x]) by {
            if x > 0 {
                assert(all[x] == more[x - 1]);
            }
        }
        if crate::laws::has_no_blank(s) {
            lemma_no_blank(s, i);
            lemma_no_blank(s, e);
            let parts = crate::laws::render_all(all);
            lemma_join_front(parts);
            assert(parts.drop_first() =~= crate::laws::render_all(more));
            assert(s.subrange(i, e) + seq![','] + s.subrange(e + 1, end) =~= s.subrange(i, end));
        }
    } else {
        if crate::laws::has_no_blank(s) {
            lemma_no_blank(s, i);
        }
    }
}

/// No quote stands in a name that is read.
pub(crate) proof fn lemma_name_has_no_quote(s: Seq<char>, i: int)
    requires
        0 <= i <= s.len(),
    ensures
        crate::laws::has_no_quote(crate::grammar::name_at(s, i).0),
{
    crate::grammar::lemma_run_end(s, i, |c: char| crate::grammar::is_space(c));
    let j = crate::grammar::spaces_end(s, i);
    crate::grammar::lemma_run_end(s, j, |c: char| !crate::grammar::is_delimiter(c));
    let bare = s.subrange(j, crate::grammar::bare_end(s, j));
    assert forall|k: int| 0 <= k < bare.len() implies #[trigger] bare[k] != '\'' by {
        assert(!crate::grammar::is_delimiter(s[j + k]));
    }
    if j < s.len() {
        crate::grammar::lemma_run_end(s, j + 1, |c: char| c != '\'');
        let close = crate::grammar::quote_at_or_end(s, j + 1);
        let quoted = s.subrange(j + 1, close);
        assert forall|k: int| 0 <= k < quoted.len() implies #[trigger] quoted[k] != '\'' by {
            assert(s[j + 1 + k] != '\'');
        }
    }
}

/// No quote stands in the names of an internal node that is read.
pub(crate) proof fn lemma_internal_names(s: Seq<char>, i: int)
    requires
        0 <= i <= s.len(),
    ensures
        crate::grammar::internal_at(s, i) matches Ok(found) ==> crate::laws::has_quote_free_names(found.0),
    decreases s.len() - i, 0int,
{
    crate::grammar::lemma_run_end(s, i, |c: char| crate::grammar::is_space(c));
    let j = crate::grammar::spaces_end(s, i);
    if j < s.len() && s[j] == '(' {
        lemma_branch_set_lengths(s, j + 1);
        lemma_branch_set_names(s, j + 1);
        let close = crate::grammar::branch_set_at(s, j + 1).1;
        if close < s.len() && s[close] == ')' {
            lemma_name_has_no_quote(s, close + 1);
        }
    }
}

/// No quote stands in the names of a sub-tree that is read.
pub(crate) proof fn lemma_sub_tree_names(s: Seq<char>, i: int)
    requires
        0 <= i <= s.len(),
    ensures
        crate::laws::has_quote_free_names(crate::grammar::sub_tree_at(s, i).0),
    decreases s.len() - i, 1int,
{
    lemma_internal_names(s, i);
    lemma_name_has_no_quote(s, i);
}

/// No quote stands in the names of a branch that is read.
pub(crate) proof fn lemma_branch_names(s: Seq<char>, i: int)
    requires
        0 <= i <= s.len(),
    ensures
        crate::laws::has_quote_free_names(crate::grammar::branch_at(s, i).0),
    decreases s.len() - i, 2int,
{
    lemma_sub_tree_names(s, i);
}

/// No quote stands in the names of the branches of an internal node that are
/// read.
pub(crate) proof fn lemma_branch_set_names(s: Seq<char>, i: int)
    requires
        0 <= i <= s.len(),
    ensures
        forall|k: int|
            0 <= k < crate::grammar::branch_set_at(s, i).0.len() ==> crate::laws::has_quote_free_names(
                #[trigger] crate::grammar::branch_set_at(s, i).0[k],
            ),
    decreases s.len() - i, 3int,
{
    crate::grammar::lemma_run_end(s, i, |c: char| crate::grammar::is_space(c));
    let j = crate::grammar::spaces_end(s, i);
    lemma_branch_lengths(s, j);
    lemma_branch_names(s, j);
    let (first, e) = crate::grammar::branch_at(s, j);
    crate::grammar::lemma_run_end(s, e, |c: char| crate::grammar::is_space(c));
    let k = crate::grammar::spaces_end(s, e);
    if k < s.len() && s[k] == ',' {
        lemma_branch_set_names(s, k + 1);
        let more = crate::grammar::branch_set_at(s, k + 1).0;
        let all = seq![first] + more;
        assert forall|x: int| 0 <= x < all.len() implies crate::laws::has_quote_free_names(
            #[trigger] all[x],
        ) by {
            if x > 0 {
                assert(all[x] == more[x - 1]);
            }
        }
    }
}

/// No quote stands in a number.
pub(crate) proof fn lemma_number_has_no_quote(t: Seq<char>)
    requires
        crate::grammar::is_number(t),
    ensures
        crate::laws::has_no_quote(t),
{
    let p = |c: char| crate::grammar::is_digit(c);
    let n = t.len() as int;
    let sign = crate::grammar::sign_end(t, 0);
    crate::grammar::lemma_run_end(t, sign, p);
    let digits = crate::grammar::digits_end(t, sign);
    if digits < n {
        crate::grammar::lemma_run_end(t, digits + 1, p);
    }
    if sign < n {
        crate::grammar::lemma_run_end(t, sign + 1, p);
    }
    let mantissa = crate::grammar::mantissa_end(t, sign)->0;
    if mantissa < n {
        crate::grammar::lemma_run_end(t, crate::grammar::sign_end(t, mantissa + 1), p);
    }
    assert forall|k: int| 0 <= k < n implies #[trigger] t[k] != '\'' by {
        if t[k] == '\'' {
            assert(!p(t[k]));
        }
    }
}

/// No quote stands in two texts put together if none stands in either.
pub(crate) proof fn lemma_no_quote_in_both(a: Seq<char>, b: Seq<char>)
    requires
        crate::laws::has_no_quote(a),
        crate::laws::has_no_quote(b),
    ensures
        crate::laws::has_no_quote(a + b),
{
    let t = a + b;
    assert forall|k: int| 0 <= k < t.len() implies #[trigger] t[k] != '\'' by {
        if k < a.len() {
            assert(t[k] == a[k]);
        } else {
            assert(t[k] == b[k - a.len()]);
        }
    }
}

/// No quote stands in the text of a tree whose names hold none and whose lengths
/// are numbers.
pub(crate) proof fn lemma_render_has_no_quote(n: crate::tree::Node)
    requires
        crate::laws::has_quote_free_names(n),
        crate::laws::has_number_lengths(n),
    ensures
        crate::laws::has_no_quote(crate::grammar::render(n)),
    decreases n,
{
    let group = crate::grammar::render_group(n);
    if n.children.len() > 0 {
        assert(crate::grammar::render_children(n) =~= crate::laws::render_all(n.children));
        lemma_join_has_no_quote(n.children);
        let inner = crate::grammar::join(crate::laws::render_all(n.children));
        lemma_no_quote_in_both(seq!['('], inner);
        lemma_no_quote_in_both(seq!['('] + inner, seq![')']);
    }
    lemma_no_quote_in_both(group, n.name);
    match n.length {
        Some(number) => {
            lemma_number_has_no_quote(number);
            lemma_no_quote_in_both(seq![':'], number);
        },
        None => {},
    }
    lemma_no_quote_in_both(group + n.name, crate::grammar::render_length(n.length));
}

/// No quote stands in the joined texts of such trees.
pub(crate) proof fn lemma_join_has_no_quote(trees: Seq<crate::tree::Node>)
    requires
        forall|k: int| 0 <= k < trees.len() ==> crate::laws::has_quote_free_names(#[trigger] trees[k]),
        forall|k: int| 0 <= k < trees.len() ==> crate::laws::has_number_lengths(#[trigger] trees[k]),
    ensures
        crate::laws::has_no_quote(crate::grammar::join(crate::laws::render_all(trees))),
    decreases trees,
{
    let parts = crate::laws::render_all(trees);
    if trees.len() == 1 {
        lemma_render_has_no_quote(trees[0]);
    } else if trees.len() > 1 {
        let front = trees.drop_last();
        assert(crate::laws::render_all(front) =~= parts.drop_last());
        assert forall|k: int| 0 <= k < front.len() implies crate::laws::has_quote_free_names(
            #[trigger] front[k],
        ) by {
            assert(front[k] == trees[k]);
        }
        assert forall|k: int| 0 <= k < front.len() implies crate::laws::has_number_lengths(
            #[trigger] front[k],
        ) by {
            assert(front[k] == trees[k]);
        }
        lemma_join_has_no_quote(front);
        lemma_render_has_no_quote(trees.last());
        lemma_no_quote_in_both(crate::grammar::join(parts.drop_last()), seq![',']);
        lemma_no_quote_in_both(crate::grammar::join(parts.drop_last()) + seq![','], parts.last());
    }
}

/// The text of a child stands in the text of its node, behind the children in
/// front of it.
pub(crate) proof fn lemma_child_stands(n: crate::tree::Node, k: int)
    requires
        0 <= k < n.children.len(),
    ensures
        crate::laws::stands_at(crate::grammar::render(n), crate::laws::child_start(n, k), crate::grammar::render(n.children[k])),
        k + 1 < n.children.len() ==> crate::laws::child_start(n, k + 1) == crate::laws::child_start(n, k)
            + crate::grammar::render(n.children[k]).len() + 1,
        k + 1 < n.children.len() ==> crate::grammar::render(n)[crate::laws::child_start(n, k + 1) - 1] == ',',
{
    let parts = crate::laws::render_all(n.children);
    assert(crate::grammar::render_children(n) =~= parts);
    let inner = crate::grammar::join(parts);
    let text = crate::grammar::render(n);
    let tail = seq![')'] + n.name + crate::grammar::render_length(n.length);
    assert(text =~= seq!['('] + inner + tail);
    lemma_halves_stand(text, 0, seq!['('] + inner, tail);
    lemma_halves_stand(text, 0, seq!['('], inner);
    let upto = parts.take(k + 1);
    assert(crate::laws::render_all(n.children.take(k + 1)) =~= upto);
    lemma_join_prefix(parts, k + 1);
    if k == 0 {
        assert(crate::grammar::join(upto) == parts[0]);
        lemma_stands_within(text, 1, inner, 0, parts[0]);
    } else {
        assert(upto.drop_last() =~= parts.take(k));
        assert(crate::laws::render_all(n.children.take(k)) =~= parts.take(k));
        let front = crate::grammar::join(parts.take(k));
        assert(crate::grammar::join(upto) == front + seq![','] + parts[k]);
        lemma_halves_stand(inner, 0, front + seq![','], parts[k]);
        lemma_stands_within(text, 1, inner, front.len() as int + 1, parts[k]);
    }
    if k + 1 < n.children.len() {
        let next = parts.take(k + 2);
        assert(crate::laws::render_all(n.children.take(k + 2)) =~= next);
        assert(next.drop_last() =~= upto);
        lemma_join_prefix(parts, k + 2);
        assert(crate::grammar::join(next) == crate::grammar::join(upto) + seq![','] + parts[k + 1]);
        lemma_halves_stand(inner, 0, crate::grammar::join(upto) + seq![','], parts[k + 1]);
        lemma_halves_stand(inner, 0, crate::grammar::join(upto), seq![',']);
        let comma = crate::grammar::join(upto).len() as int;
        assert(seq![','][0] == inner[comma]);
        assert(inner[comma] == text[1 + comma]);
    }
}

} // verus!
