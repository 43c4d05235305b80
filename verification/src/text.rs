//! Text as sequences of characters: splitting on spaces, joining, decimals.

use vstd::prelude::*;

verus! {

/// The views of a list of strings, in order.
pub open spec fn texts(list: Seq<String>) -> Seq<Seq<char>> {
    Seq::new(list.len(), |i: int| list[i]@)
}

/// The position of the first space in `s`, or the length of `s` if it has none.
pub open spec fn first_space(s: Seq<char>) -> int
    decreases s.len(),
{
    if s.len() == 0 || s[0] == ' ' {
        0
    } else {
        1 + first_space(s.skip(1))
    }
}

/// The pieces of `s` between its spaces. There is always at least one piece;
/// two spaces in a row, or a space at either end, give an empty piece.
pub open spec fn split_spaces(s: Seq<char>) -> Seq<Seq<char>>
    decreases s.len(),
{
    let cut = first_space(s);
    if 0 <= cut < s.len() {
        seq![s.take(cut)] + split_spaces(s.skip(cut + 1))
    } else {
        seq![s]
    }
}

/// `first_space` is the one position before which there is no space and at
/// which there is one, or the text ends.
pub proof fn lemma_first_space(s: Seq<char>, k: int)
    requires
        0 <= k <= s.len(),
        forall|j: int| 0 <= j < k ==> s[j] != ' ',
        k == s.len() || s[k] == ' ',
    ensures
        first_space(s) == k,
    decreases s.len(),
{
    if k > 0 {
        lemma_first_space(s.skip(1), k - 1);
    }
}

/// Cuts `raw` at every space and returns the pieces in order.
pub fn split_on_spaces(raw: &str) -> (tokens: Vec<String>)
    ensures
        texts(tokens@) == split_spaces(raw@),
{
    let total = raw.unicode_len();
    let mut tokens: Vec<String> = Vec::new();
    let mut start: usize = 0;
    let mut pos: usize = 0;
    proof {
        assert(raw@.skip(0) == raw@);
        assert(texts(tokens@) + split_spaces(raw@) == split_spaces(raw@));
    }
    for c in it: raw.chars()
        invariant
            it.seq() == raw@,
            total == raw@.len(),
            pos == it.index(),
            start <= pos <= total,
            forall|j: int| start <= j < pos ==> raw@[j] != ' ',
            split_spaces(raw@) == texts(tokens@) + split_spaces(raw@.skip(start as int)),
    {
        if c == ' ' {
            let piece = raw.substring_char(start, pos).to_owned();
            proof {
                let rest = raw@.skip(start as int);
                lemma_first_space(rest, pos - start);
                assert(rest.take(pos - start) == piece@);
                assert(rest.skip(pos - start + 1) == raw@.skip(pos + 1));
                assert(texts(tokens@.push(piece)) == texts(tokens@) + seq![piece@]);
            }
            tokens.push(piece);
            start = pos + 1;
        }
        pos = pos + 1;
    }
    let piece = raw.substring_char(start, total).to_owned();
    proof {
        let rest = raw@.skip(start as int);
        lemma_first_space(rest, total - start);
        assert(rest == piece@);
        assert(texts(tokens@.push(piece)) == texts(tokens@) + seq![piece@]);
    }
    tokens.push(piece);
    tokens
}

/// The pieces of `parts` in order, with `sep` between each two neighbours.
pub open spec fn join(parts: Seq<Seq<char>>, sep: Seq<char>) -> Seq<char>
    decreases parts.len(),
{
    if parts.len() == 0 {
        Seq::empty()
    } else if parts.len() == 1 {
        parts[0]
    } else {
        join(parts.drop_last(), sep) + sep + parts.last()
    }
}

/// Writes the strings of `parts` one after the other, with `sep` between
/// each two neighbours.
pub fn join_with(parts: &[String], sep: &str) -> (out: String)
    ensures
        out@ == join(texts(parts@), sep@),
{
    let mut out = String::new();
    let mut i: usize = 0;
    while i < parts.len()
        invariant
            i <= parts.len(),
            out@ == join(texts(parts@).take(i as int), sep@),
        decreases parts.len() - i,
    {
        if i > 0 {
            out.append(sep);
        }
        out.append(parts[i].as_str());
        proof {
            let all = texts(parts@);
            assert(all.take(i + 1).drop_last() == all.take(i as int));
            assert(all.take(i + 1).last() == parts[i as int]@);
        }
        i = i + 1;
    }
    proof {
        assert(texts(parts@).take(i as int) == texts(parts@));
    }
    out
}

/// The character that stands for the digit `d`, for `d` from 0 to 9.
pub open spec fn digit(d: int) -> char {
    seq!['0', '1', '2', '3', '4', '5', '6', '7', '8', '9'][d]
}

/// `n` in decimal, without leading zeros.
pub open spec fn decimal(n: nat) -> Seq<char>
    decreases n,
{
    if n < 10 {
        seq![digit(n as int)]
    } else {
        decimal(n / 10).push(digit((n % 10) as int))
    }
}

fn digit_text(d: usize) -> (out: &'static str)
    requires
        d < 10,
    ensures
        out@ == seq![digit(d as int)],
{
    proof {
        reveal_strlit("0");
        reveal_strlit("1");
        reveal_strlit("2");
        reveal_strlit("3");
        reveal_strlit("4");
        reveal_strlit("5");
        reveal_strlit("6");
        reveal_strlit("7");
        reveal_strlit("8");
        reveal_strlit("9");
    }
    let out = match d {
        0 => "0",
        1 => "1",
        2 => "2",
        3 => "3",
        4 => "4",
        5 => "5",
        6 => "6",
        7 => "7",
        8 => "8",
        _ => "9",
    };
    assert(out@ =~= seq![digit(d as int)]);
    out
}

/// Writes `n` in decimal.
pub fn decimal_text(n: usize) -> (out: String)
    ensures
        out@ == decimal(n as nat),
    decreases n,
{
    if n < 10 {
        digit_text(n).to_owned()
    } else {
        let mut out = decimal_text(n / 10);
        out.append(digit_text(n % 10));
        out
    }
}

/// There is no space before `first_space`, and there is one at it unless the
/// text has none.
pub proof fn lemma_first_space_is_first(s: Seq<char>)
    ensures
        0 <= first_space(s) <= s.len(),
        forall|j: int| 0 <= j < first_space(s) ==> s[j] != ' ',
        first_space(s) < s.len() ==> s[first_space(s)] == ' ',
    decreases s.len(),
{
    if s.len() > 0 && s[0] != ' ' {
        let rest = s.skip(1);
        lemma_first_space_is_first(rest);
        assert forall|j: int| 0 <= j < first_space(s) implies s[j] != ' ' by {
            if j > 0 {
                assert(s[j] == rest[j - 1]);
            }
        }
    }
}

/// A text without a space is one piece; a text with a space is more than one.
pub proof fn lemma_one_piece(s: Seq<char>)
    ensures
        split_spaces(s).len() >= 1,
        split_spaces(s).len() == 1 <==> !s.contains(' '),
    decreases s.len(),
{
    let cut = first_space(s);
    lemma_first_space_is_first(s);
    if 0 <= cut < s.len() {
        lemma_one_piece(s.skip(cut + 1));
    } else {
        assert forall|j: int| 0 <= j < s.len() implies s[j] != ' ' by {}
    }
}

/// Splitting loses nothing: no piece holds a space, and the pieces joined by
/// single spaces are the text again.
pub proof fn lemma_split_then_join(s: Seq<char>)
    ensures
        forall|i: int|
            0 <= i < split_spaces(s).len() ==> !(#[trigger] split_spaces(s)[i]).contains(' '),
        join(split_spaces(s), seq![' ']) == s,
    decreases s.len(),
{
    let cut = first_space(s);
    lemma_first_space_is_first(s);
    if 0 <= cut < s.len() {
        let rest = s.skip(cut + 1);
        lemma_split_then_join(rest);
        lemma_one_piece(rest);
        lemma_join_front(s.take(cut), split_spaces(rest), seq![' ']);
        assert(s.take(cut) + seq![' '] + rest == s);
    }
}

/// Joining a list is its first piece, the separator, and the others joined.
pub proof fn lemma_join_front(head: Seq<char>, tail: Seq<Seq<char>>, sep: Seq<char>)
    requires
        tail.len() >= 1,
    ensures
        join(seq![head] + tail, sep) == head + sep + join(tail, sep),
    decreases tail.len(),
{
    let all = seq![head] + tail;
    assert(all.last() == tail.last());
    if tail.len() == 1 {
        assert(all.drop_last() == seq![head]);
        assert(join(all.drop_last(), sep) == head);
    } else {
        assert(all.drop_last() == seq![head] + tail.drop_last());
        lemma_join_front(head, tail.drop_last(), sep);
        assert(head + sep + join(tail.drop_last(), sep) + sep + tail.last() == head + sep + (join(
            tail.drop_last(),
            sep,
        ) + sep + tail.last()));
    }
}

} // verus!
