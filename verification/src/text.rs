//! Dotted names and separated lists, as sequences of characters.

use vstd::prelude::*;
use vstd::std_specs::iter::IteratorSpec;

verus! {

/// The pieces of `s` between its dots. There is always at least one piece; a
/// dot at either end, or two in a row, leave an empty piece.
pub open spec fn dot_pieces(s: Seq<char>) -> Seq<Seq<char>>
    decreases s.len(),
{
    if s.len() == 0 {
        seq![Seq::empty()]
    } else {
        let before = dot_pieces(s.drop_last());
        if s.last() == '.' {
            before.push(Seq::empty())
        } else {
            before.drop_last().push(before.last().push(s.last()))
        }
    }
}

/// The segments of a dotted name: none for the empty name, else its pieces.
pub open spec fn dot_segments(s: Seq<char>) -> Seq<Seq<char>> {
    if s.len() == 0 {
        Seq::empty()
    } else {
        dot_pieces(s)
    }
}

/// `parts` written one after another with `sep` between neighbours.
pub open spec fn joined(parts: Seq<Seq<char>>, sep: Seq<char>) -> Seq<char>
    decreases parts.len(),
{
    if parts.len() == 0 {
        Seq::empty()
    } else if parts.len() == 1 {
        parts[0]
    } else {
        joined(parts.drop_last(), sep) + sep + parts.last()
    }
}

/// `unit` written `n` times.
pub open spec fn repeated(unit: Seq<char>, n: nat) -> Seq<char>
    decreases n,
{
    if n == 0 {
        Seq::empty()
    } else {
        repeated(unit, (n - 1) as nat) + unit
    }
}

/// `text` without `prefix` at its start; `text` itself where it does not start
/// with `prefix`.
pub open spec fn stripped(text: Seq<char>, prefix: Seq<char>) -> Seq<char> {
    if prefix.is_prefix_of(text) {
        text.skip(prefix.len() as int)
    } else {
        text
    }
}

/// Splitting at dots always yields a piece.
pub proof fn lemma_dot_pieces_len(s: Seq<char>)
    ensures
        dot_pieces(s).len() >= 1,
    decreases s.len(),
{
    if s.len() > 0 {
        lemma_dot_pieces_len(s.drop_last());
    }
}

/// No piece of a split holds a dot.
pub proof fn lemma_dot_pieces_hold_no_dot(s: Seq<char>)
    ensures
        forall|i: int, j: int|
            0 <= i < dot_pieces(s).len() && 0 <= j < dot_pieces(s)[i].len()
                ==> #[trigger] dot_pieces(s)[i][j] != '.',
    decreases s.len(),
{
    if s.len() > 0 {
        lemma_dot_pieces_len(s.drop_last());
        lemma_dot_pieces_hold_no_dot(s.drop_last());
    }
}

/// Joining the pieces of a split with dots gives the text back.
pub proof fn lemma_joined_dot_pieces(s: Seq<char>)
    ensures
        joined(dot_pieces(s), seq!['.']) == s,
    decreases s.len(),
{
    let dot = seq!['.'];
    if s.len() == 0 {
        assert(dot_pieces(s)[0] == s);
    } else {
        let before = dot_pieces(s.drop_last());
        lemma_dot_pieces_len(s.drop_last());
        lemma_joined_dot_pieces(s.drop_last());
        if s.last() == '.' {
            let now = before.push(Seq::empty());
            assert(now.drop_last() == before);
            assert(joined(now, dot) == joined(before, dot) + dot + Seq::<char>::empty());
            assert(s == s.drop_last() + dot);
        } else {
            let grown = before.last().push(s.last());
            let now = before.drop_last().push(grown);
            assert(now.drop_last() == before.drop_last());
            if before.len() == 1 {
                assert(joined(before, dot) == before[0]);
                assert(joined(now, dot) == grown);
            } else {
                assert(joined(before, dot) == joined(before.drop_last(), dot) + dot
                    + before.last());
                assert(joined(now, dot) == joined(before.drop_last(), dot) + dot + grown);
            }
            assert(s == s.drop_last().push(s.last()));
        }
    }
}

/// A text without a dot is one piece.
pub proof fn lemma_dot_pieces_without_dot(s: Seq<char>)
    requires
        !s.contains('.'),
    ensures
        dot_pieces(s) == seq![s],
    decreases s.len(),
{
    if s.len() > 0 {
        let shorter = s.drop_last();
        assert forall|i: int| 0 <= i < shorter.len() implies shorter[i] != '.' by {
            assert(s[i] == shorter[i]);
            assert(s.contains(s[i]));
        }
        lemma_dot_pieces_without_dot(shorter);
        assert(s.contains(s.last()));
        assert(shorter.push(s.last()) == s);
        assert(seq![shorter].drop_last().push(shorter.push(s.last())) == seq![s]);
    } else {
        assert(s == Seq::<char>::empty());
    }
}

/// A dot and a text without a dot, behind any text, add that text as one more
/// piece.
pub proof fn lemma_dot_pieces_one_more(head: Seq<char>, tail: Seq<char>)
    requires
        !tail.contains('.'),
    ensures
        dot_pieces(head + seq!['.'] + tail) == dot_pieces(head).push(tail),
    decreases tail.len(),
{
    let whole = head + seq!['.'] + tail;
    if tail.len() == 0 {
        assert(whole.drop_last() == head);
        assert(tail == Seq::<char>::empty());
    } else {
        let shorter = tail.drop_last();
        assert forall|i: int| 0 <= i < shorter.len() implies shorter[i] != '.' by {
            assert(tail[i] == shorter[i]);
            assert(tail.contains(tail[i]));
        }
        lemma_dot_pieces_one_more(head, shorter);
        assert(whole.drop_last() == head + seq!['.'] + shorter);
        assert(whole.last() == tail.last());
        assert(tail.contains(tail.last()));
        assert(shorter.push(tail.last()) == tail);
        assert(dot_pieces(head).push(shorter).drop_last() == dot_pieces(head));
    }
}

/// Splitting undoes joining with dots, where no part holds a dot.
pub proof fn lemma_dot_pieces_of_joined(parts: Seq<Seq<char>>)
    requires
        parts.len() > 0,
        forall|i: int| 0 <= i < parts.len() ==> !(#[trigger] parts[i]).contains('.'),
    ensures
        dot_pieces(joined(parts, seq!['.'])) == parts,
    decreases parts.len(),
{
    if parts.len() == 1 {
        lemma_dot_pieces_without_dot(parts[0]);
        assert(seq![parts[0]] == parts);
    } else {
        let earlier = parts.drop_last();
        assert forall|i: int| 0 <= i < earlier.len() implies !(#[trigger] earlier[i]).contains(
            '.',
        ) by {
            assert(earlier[i] == parts[i]);
        }
        lemma_dot_pieces_of_joined(earlier);
        lemma_dot_pieces_one_more(joined(earlier, seq!['.']), parts.last());
        assert(earlier.push(parts.last()) == parts);
    }
}

/// Parts joined to an empty text are no parts, or one empty part, where the
/// separator is not empty.
pub proof fn lemma_joined_is_empty(parts: Seq<Seq<char>>, sep: Seq<char>)
    requires
        sep.len() > 0,
        joined(parts, sep).len() == 0,
    ensures
        parts.len() == 0 || (parts.len() == 1 && parts[0].len() == 0),
{
}

/// Pushing an item onto a vector pushes the item's view onto the vector's view.
pub proof fn lemma_deep_view_push<T: DeepView>(before: Vec<T>, after: Vec<T>, item: T)
    requires
        after@ == before@.push(item),
    ensures
        after.deep_view() == before.deep_view().push(item.deep_view()),
{
    assert(after.deep_view() =~= before.deep_view().push(item.deep_view()));
}

/// An empty vector has an empty view.
pub proof fn lemma_deep_view_empty<T: DeepView>(list: Vec<T>)
    requires
        list@.len() == 0,
    ensures
        list.deep_view() == Seq::<T::V>::empty(),
{
    assert(list.deep_view() =~= Seq::<T::V>::empty());
}

/// The characters of a string, as a vector.
pub fn chars_of(s: &str) -> (chars: Vec<char>)
    ensures
        chars@ == s@,
{
    let mut chars: Vec<char> = Vec::new();
    for c in it: s.chars()
        invariant
            it.seq() == s@,
            chars@ == s@.take(it.index() as int),
    {
        chars.push(c);
    }
    chars
}

/// Takes `prefix` off the start of `text`, where it stands there.
pub fn strip_prefix<'a>(text: &'a str, prefix: &str) -> (rest: &'a str)
    ensures
        rest@ == stripped(text@, prefix@),
{
    let have = chars_of(text);
    let want = chars_of(prefix);
    if want.len() > have.len() {
        return text;
    }
    let mut i: usize = 0;
    while i < want.len()
        invariant
            i <= want.len() <= have.len(),
            have@ == text@,
            want@ == prefix@,
            forall|j: int| 0 <= j < i ==> want@[j] == have@[j],
        decreases want.len() - i,
    {
        if want[i] != have[i] {
            return text;
        }
        i += 1;
    }
    text.substring_char(want.len(), have.len())
}

/// Splits a dotted name into its segments.
pub fn split_segments(s: &str) -> (parts: Vec<String>)
    ensures
        parts.deep_view() == dot_segments(s@),
{
    let chars = chars_of(s);
    let n = chars.len();
    let mut parts: Vec<String> = Vec::new();
    if n == 0 {
        assert(parts.deep_view() == Seq::<Seq<char>>::empty());
        return parts;
    }
    let mut start: usize = 0;
    let mut i: usize = 0;
    assert(s@.take(0) == Seq::<char>::empty());
    assert(parts.deep_view().push(s@.subrange(0, 0)) == seq![Seq::<char>::empty()]);
    while i < n
        invariant
            n == s@.len(),
            chars@ == s@,
            start <= i <= n,
            dot_pieces(s@.take(i as int)) == parts.deep_view().push(
                s@.subrange(start as int, i as int),
            ),
        decreases n - i,
    {
        let ghost before = dot_pieces(s@.take(i as int));
        let ghost done = parts.deep_view();
        assert(s@.take(i + 1).drop_last() == s@.take(i as int));
        assert(s@.take(i + 1).last() == s@[i as int]);
        if chars[i] == '.' {
            let piece = s.substring_char(start, i);
            parts.push(String::from_str(piece));
            assert(parts.deep_view() == done.push(s@.subrange(start as int, i as int)));
            start = i + 1;
            assert(s@.subrange(start as int, i + 1) == Seq::<char>::empty());
        } else {
            assert(before.drop_last() == done);
            assert(before.last().push(s@[i as int]) == s@.subrange(start as int, i + 1));
        }
        i += 1;
    }
    assert(s@.take(n as int) == s@);
    let ghost done = parts.deep_view();
    let piece = s.substring_char(start, n);
    parts.push(String::from_str(piece));
    assert(parts.deep_view() == done.push(s@.subrange(start as int, n as int)));
    parts
}

/// Writes `parts` one after another with `sep` between neighbours.
pub fn join(parts: &Vec<String>, sep: &str) -> (text: String)
    ensures
        text@ == joined(parts.deep_view(), sep@),
{
    let mut text = String::new();
    let mut i: usize = 0;
    assert(parts.deep_view().take(0) == Seq::<Seq<char>>::empty());
    while i < parts.len()
        invariant
            i <= parts.len(),
            text@ == joined(parts.deep_view().take(i as int), sep@),
        decreases parts.len() - i,
    {
        let ghost upto = parts.deep_view().take(i + 1);
        assert(upto.drop_last() == parts.deep_view().take(i as int));
        assert(upto.last() == parts[i as int]@);
        if i > 0 {
            text.append(sep);
        } else {
            assert(text@ + parts[i as int]@ == parts[i as int]@);
        }
        text.append(parts[i].as_str());
        i += 1;
    }
    assert(parts.deep_view().take(parts.len() as int) == parts.deep_view());
    text
}

} // verus!
