//! Texts taken apart.

use vstd::prelude::*;

verus! {

/// The pieces of a text between one `mark` and the next.
pub open spec fn split(text: Seq<char>, mark: char) -> Seq<Seq<char>>
    decreases text.len(),
{
    if text.len() == 0 {
        seq![Seq::empty()]
    } else {
        let front = split(text.drop_last(), mark);
        if text.last() == mark {
            front.push(Seq::empty())
        } else {
            front.drop_last().push(front.last().push(text.last()))
        }
    }
}

/// White space, as `char::is_whitespace` has it.
pub open spec fn white(c: char) -> bool {
    ||| '\u{9}' <= c <= '\u{D}'
    ||| '\u{2000}' <= c <= '\u{200A}'
    ||| c == ' ' || c == '\u{85}' || c == '\u{A0}' || c == '\u{1680}' || c == '\u{2028}'
    ||| c == '\u{2029}' || c == '\u{202F}' || c == '\u{205F}' || c == '\u{3000}'
}

/// A text without white space at its ends.
pub open spec fn trimmed(text: Seq<char>) -> bool {
    text.len() > 0 ==> !white(text[0]) && !white(text.last())
}

/// A number from 0 to 255 in decimal, without a zero in front.
pub open spec fn octet(text: Seq<char>) -> bool {
    &&& 1 <= text.len() <= 3
    &&& forall|i: int| 0 <= i < text.len() ==> '0' <= #[trigger] text[i] <= '9'
    &&& text.len() > 1 ==> text[0] != '0'
    &&& text.len() == 3 ==> text[0] < '2' || text[0] == '2' && (text[1] < '5' || text[1] == '5'
        && text[2] <= '5')
}

/// An IPv4 address: four octets with a dot between one and the next.
pub open spec fn ipv4_text(text: Seq<char>) -> bool {
    let pieces = split(text, '.');
    pieces.len() == 4 && forall|i: int| 0 <= i < 4 ==> octet(#[trigger] pieces[i])
}

/// A text has a piece at least.
proof fn lemma_split_has_a_piece(text: Seq<char>, mark: char)
    ensures
        split(text, mark).len() > 0,
    decreases text.len(),
{
    if text.len() > 0 {
        lemma_split_has_a_piece(text.drop_last(), mark);
    }
}

/// What follows the last mark is a piece of its own.
pub proof fn lemma_split_at_last_mark(front: Seq<char>, last: Seq<char>, mark: char)
    requires
        !last.contains(mark),
    ensures
        split(front + seq![mark] + last, mark) == split(front, mark).push(last),
    decreases last.len(),
{
    let whole = front + seq![mark] + last;
    if last.len() == 0 {
        assert(whole.drop_last() =~= front);
        assert(last =~= Seq::empty());
    } else {
        let rest = last.drop_last();
        assert forall|i: int| 0 <= i < rest.len() implies rest[i] != mark by {
            assert(rest[i] == last[i]);
        }
        assert(last[last.len() - 1] != mark);
        lemma_split_at_last_mark(front, rest, mark);
        assert(whole.drop_last() =~= front + seq![mark] + rest);
        assert(split(front, mark).push(rest).drop_last() =~= split(front, mark));
        assert(rest.push(last.last()) =~= last);
    }
}

/// A text without the mark is one piece.
pub proof fn lemma_split_without_mark(text: Seq<char>, mark: char)
    requires
        !text.contains(mark),
    ensures
        split(text, mark) == seq![text],
    decreases text.len(),
{
    if text.len() == 0 {
        assert(text =~= Seq::empty());
    } else {
        let rest = text.drop_last();
        assert forall|i: int| 0 <= i < rest.len() implies rest[i] != mark by {
            assert(rest[i] == text[i]);
        }
        assert(text[text.len() - 1] != mark);
        lemma_split_without_mark(rest, mark);
        assert(rest.push(text.last()) =~= text);
        assert(split(text, mark) =~= seq![text]);
    }
}

} // verus!
