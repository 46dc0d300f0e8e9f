//! Signed decimal numbers and separated lists in text.
use vstd::prelude::*;

verus! {

/// The value of a run of decimal digits.
pub open spec fn digits_value(digits: Seq<char>) -> nat
    decreases digits.len(),
{
    if digits.len() == 0 {
        0
    } else {
        (10 * digits_value(digits.drop_last()) + (digits.last() as int - '0' as int)) as nat
    }
}

/// Only the characters `0` to `9`.
pub open spec fn all_digits(s: Seq<char>) -> bool {
    forall|i: int| 0 <= i < s.len() ==> '0' <= #[trigger] s[i] <= '9'
}

/// Whether `s` starts with a sign.
pub open spec fn signed(s: Seq<char>) -> bool {
    s.len() > 0 && (s[0] == '+' || s[0] == '-')
}

/// `s` without its sign.
pub open spec fn unsigned_part(s: Seq<char>) -> Seq<char> {
    if signed(s) {
        s.skip(1)
    } else {
        s
    }
}

/// The number that `s` writes: an optional sign and at least one digit, nothing
/// else, and a value that sixty-four bits hold.
pub open spec fn number(s: Seq<char>) -> Option<int> {
    let digits = unsigned_part(s);
    let value = if s.len() > 0 && s[0] == '-' {
        -(digits_value(digits) as int)
    } else {
        digits_value(digits) as int
    };
    if digits.len() > 0 && all_digits(digits) && i64::MIN <= value <= i64::MAX {
        Some(value)
    } else {
        None
    }
}

/// The pieces of `s` between the separators: one more than there are
/// separators, and empty where two meet or one stands at an end.
pub open spec fn split(s: Seq<char>, sep: char) -> Seq<Seq<char>>
    decreases s.len(),
{
    if s.len() == 0 {
        seq![s]
    } else {
        let pieces = split(s.drop_last(), sep);
        if s.last() == sep {
            pieces.push(Seq::empty())
        } else {
            pieces.drop_last().push(pieces.last().push(s.last()))
        }
    }
}

/// There is at least one piece, and none holds the separator.
pub proof fn lemma_split_pieces(s: Seq<char>, sep: char)
    ensures
        split(s, sep).len() > 0,
        forall|i: int, j: int|
            0 <= i < split(s, sep).len() && 0 <= j < split(s, sep)[i].len()
                ==> #[trigger] split(s, sep)[i][j] != sep,
    decreases s.len(),
{
    if s.len() > 0 {
        lemma_split_pieces(s.drop_last(), sep);
    }
}

/// More digits never make the value smaller.
proof fn lemma_digits_value_grows(digits: Seq<char>, n: int)
    requires
        all_digits(digits),
        0 <= n <= digits.len(),
    ensures
        digits_value(digits.take(n)) <= digits_value(digits),
    decreases digits.len() - n,
{
    if n == digits.len() {
        assert(digits.take(n) =~= digits);
    } else {
        assert(digits.take(n + 1).drop_last() =~= digits.take(n));
        lemma_digits_value_grows(digits, n + 1);
    }
}

/// The number that `s` writes, if it writes one.
pub fn parse_number(s: &[char]) -> (value: Option<i64>)
    ensures
        match value {
            Some(v) => number(s@) == Some(v as int),
            None => number(s@) is None,
        },
{
    let len: usize = s.len();
    let negative: bool = len > 0 && s[0] == '-';
    let first: usize = if len > 0 && (s[0] == '+' || s[0] == '-') {
        1
    } else {
        0
    };
    let ghost digits = unsigned_part(s@);
    assert(digits =~= s@.skip(first as int));
    if first == len {
        return None;
    }
    let limit: u64 = 0x8000_0000_0000_0000;
    let mut value: u64 = 0;
    let mut i: usize = first;
    assert(digits.take(0) =~= Seq::<char>::empty());
    while i < len
        invariant
            first <= i <= len,
            first <= 1,
            len == s@.len(),
            digits == s@.skip(first as int),
            digits == unsigned_part(s@),
            limit == 0x8000_0000_0000_0000,
            value <= limit,
            all_digits(digits.take(i - first)),
            value == digits_value(digits.take(i - first)),
        decreases len - i,
    {
        let c: char = s[i];
        let ghost so_far = digits.take(i - first);
        let ghost next = digits.take(i + 1 - first);
        assert(next.drop_last() =~= so_far);
        assert(next.last() == c);
        if c < '0' || c > '9' {
            assert(digits[i - first] == c);
            return None;
        }
        let d: u64 = c as u64 - '0' as u64;
        assert forall|k: int| 0 <= k < next.len() implies '0' <= #[trigger] next[k] <= '9' by {
            if k < so_far.len() {
                assert(so_far[k] == next[k]);
            }
        }
        if value > (limit - d) / 10 {
            proof {
                assert(digits_value(next) > limit);
                if all_digits(digits) {
                    lemma_digits_value_grows(digits, i + 1 - first);
                }
            }
            return None;
        }
        value = 10 * value + d;
        i = i + 1;
    }
    assert(digits.take(len - first) =~= digits);
    if negative {
        if value == limit {
            Some(i64::MIN)
        } else {
            Some(-(value as i64))
        }
    } else if value == limit {
        None
    } else {
        Some(value as i64)
    }
}

/// The stretch of `s` that a pair of bounds marks.
pub open spec fn stretch(s: Seq<char>, bounds: (usize, usize)) -> Seq<char> {
    s.subrange(bounds.0 as int, bounds.1 as int)
}

/// Where the pieces of `s` between the separators lie.
pub fn split_bounds(s: &[char], sep: char) -> (bounds: Vec<(usize, usize)>)
    ensures
        bounds@.len() == split(s@, sep).len(),
        forall|i: int|
            0 <= i < bounds@.len() ==> (#[trigger] bounds@[i]).0 <= bounds@[i].1 <= s@.len(),
        forall|i: int|
            0 <= i < bounds@.len() ==> stretch(s@, #[trigger] bounds@[i]) == split(s@, sep)[i],
        bounds@.len() > 0,
        bounds@[0].0 == 0,
        bounds@.last().1 == s@.len(),
        forall|i: int|
            0 < i < bounds@.len() ==> (#[trigger] bounds@[i]).0 == bounds@[i - 1].1 + 1
                && s@[bounds@[i].0 - 1] == sep,
        forall|i: int, j: int|
            0 <= i < bounds@.len() && (#[trigger] bounds@[i]).0 <= j < bounds@[i].1
                ==> #[trigger] s@[j] != sep,
{
    let len: usize = s.len();
    let mut bounds: Vec<(usize, usize)> = Vec::new();
    let mut start: usize = 0;
    assert(s@.take(0) =~= Seq::<char>::empty());
    assert(s@.subrange(0, 0) =~= Seq::<char>::empty());
    for i in 0..len
        invariant
            len == s@.len(),
            start <= i,
            split(s@.take(i as int), sep).len() == bounds@.len() + 1,
            split(s@.take(i as int), sep).last() == s@.subrange(start as int, i as int),
            forall|k: int|
                0 <= k < bounds@.len() ==> (#[trigger] bounds@[k]).0 <= bounds@[k].1 <= s@.len(),
            forall|k: int|
                0 <= k < bounds@.len() ==> stretch(s@, #[trigger] bounds@[k]) == split(
                    s@.take(i as int),
                    sep,
                )[k],
            start == if bounds@.len() == 0 {
                0
            } else {
                bounds@.last().1 + 1
            },
            start > 0 ==> s@[start - 1] == sep,
            bounds@.len() > 0 ==> bounds@[0].0 == 0,
            forall|k: int|
                0 < k < bounds@.len() ==> (#[trigger] bounds@[k]).0 == bounds@[k - 1].1 + 1
                    && s@[bounds@[k].0 - 1] == sep,
            forall|k: int, j: int|
                0 <= k < bounds@.len() && (#[trigger] bounds@[k]).0 <= j < bounds@[k].1
                    ==> #[trigger] s@[j] != sep,
            forall|j: int| start <= j < i ==> #[trigger] s@[j] != sep,
    {
        let ghost before = bounds@;
        assert(s@.take(i + 1).drop_last() =~= s@.take(i as int));
        assert(s@.take(i + 1).last() == s@[i as int]);
        if s[i] == sep {
            bounds.push((start, i));
            start = i + 1;
            assert(s@.subrange(i + 1, i + 1) =~= Seq::<char>::empty());
        } else {
            assert(s@.subrange(start as int, i + 1) =~= s@.subrange(start as int, i as int).push(
                s@[i as int],
            ));
        }
        assert forall|k: int| 0 <= k < bounds@.len() implies stretch(s@, #[trigger] bounds@[k])
            == split(s@.take(i + 1), sep)[k] by {
            if k < before.len() {
                assert(bounds@[k] == before[k]);
            }
        }
    }
    assert(s@.take(len as int) =~= s@);
    bounds.push((start, len));
    bounds
}

/// What a run of digits stands for: nothing for no digit, and a digit behind a run
/// makes it ten times as much and adds itself.
pub proof fn law_digits_value(digits: Seq<char>, c: char)
    requires
        '0' <= c <= '9',
    ensures
        digits_value(Seq::empty()) == 0,
        digits_value(digits.push(c)) == 10 * digits_value(digits) + (c as int - '0' as int),
{
    assert(digits.push(c).drop_last() =~= digits);
}

/// A run of digits writes its value, alone or behind a plus, and the negative of
/// it behind a minus, where sixty-four bits hold it.
pub proof fn law_numbers_are_read(digits: Seq<char>)
    requires
        digits.len() > 0,
        forall|i: int| 0 <= i < digits.len() ==> '0' <= #[trigger] digits[i] <= '9',
    ensures
        number(digits) == if digits_value(digits) <= 0x7FFF_FFFF_FFFF_FFFF {
            Some(digits_value(digits) as int)
        } else {
            None
        },
        number(seq!['+'] + digits) == number(digits),
        number(seq!['-'] + digits) == if digits_value(digits) <= 0x8000_0000_0000_0000 {
            Some(-(digits_value(digits) as int))
        } else {
            None
        },
{
    assert((seq!['+'] + digits).skip(1) =~= digits);
    assert((seq!['-'] + digits).skip(1) =~= digits);
    assert('0' <= digits[0] <= '9');
}

/// Nothing else is a number: it holds digits alone, but for a sign at its start,
/// and at least one.
pub proof fn law_only_digits_are_numbers(s: Seq<char>)
    requires
        number(s) is Some,
    ensures
        s.len() > 0,
        s[0] == '+' || s[0] == '-' || '0' <= s[0] <= '9',
        s[0] == '+' || s[0] == '-' ==> s.len() > 1,
        forall|i: int| 0 < i < s.len() ==> '0' <= #[trigger] s[i] <= '9',
{
    let digits = unsigned_part(s);
    assert forall|i: int| 0 < i < s.len() implies '0' <= #[trigger] s[i] <= '9' by {
        assert(digits[i + digits.len() - s.len()] == s[i]);
    }
    assert('0' <= digits[0] <= '9');
}

/// The pieces one behind the other, with a separator between each two.
pub open spec fn joined(pieces: Seq<Seq<char>>, sep: char) -> Seq<char>
    decreases pieces.len(),
{
    if pieces.len() == 0 {
        Seq::empty()
    } else if pieces.len() == 1 {
        pieces[0]
    } else {
        joined(pieces.drop_last(), sep).push(sep) + pieces.last()
    }
}

/// One piece is joined to itself, and a piece behind others comes after a
/// separator.
pub proof fn law_joining(pieces: Seq<Seq<char>>, piece: Seq<char>, sep: char)
    ensures
        joined(seq![piece], sep) == piece,
        pieces.len() > 0 ==> joined(pieces.push(piece), sep) == joined(pieces, sep) + seq![sep]
            + piece,
{
    assert(pieces.push(piece).drop_last() =~= pieces);
    assert(joined(pieces, sep).push(sep) + piece =~= joined(pieces, sep) + seq![sep] + piece);
}

/// Characters without the separator only make the last piece longer.
proof fn lemma_split_extends(s: Seq<char>, sep: char, more: Seq<char>)
    requires
        !more.contains(sep),
    ensures
        split(s + more, sep) == split(s, sep).drop_last().push(split(s, sep).last() + more),
    decreases more.len(),
{
    lemma_split_pieces(s, sep);
    let pieces = split(s, sep);
    if more.len() == 0 {
        assert(s + more =~= s);
        assert(pieces.last() + more =~= pieces.last());
        assert(pieces.drop_last().push(pieces.last()) =~= pieces);
    } else {
        let c = more.last();
        let fewer = more.drop_last();
        assert(more[more.len() - 1] == c);
        assert forall|x: char| fewer.contains(x) implies more.contains(x) by {
            let k = choose|k: int| 0 <= k < fewer.len() && fewer[k] == x;
            assert(more[k] == x);
        }
        lemma_split_extends(s, sep, fewer);
        assert((s + more).drop_last() =~= s + fewer);
        assert((s + more).last() == c);
        assert(pieces.last() + more =~= (pieces.last() + fewer).push(c));
        assert(pieces.drop_last().push(pieces.last() + fewer).drop_last() =~= pieces.drop_last());
    }
}

/// Splitting gives back the pieces that were joined, as long as none of them holds
/// the separator.
pub proof fn law_split_undoes_joining(pieces: Seq<Seq<char>>, sep: char)
    requires
        pieces.len() > 0,
        forall|i: int| 0 <= i < pieces.len() ==> !(#[trigger] pieces[i]).contains(sep),
    ensures
        split(joined(pieces, sep), sep) == pieces,
    decreases pieces.len(),
{
    let last = pieces.last();
    assert(!pieces[pieces.len() - 1].contains(sep));
    if pieces.len() == 1 {
        let none = Seq::<char>::empty();
        lemma_split_extends(none, sep, last);
        assert(none + last =~= last);
        assert(split(none, sep) =~= seq![none]);
        assert(split(last, sep) =~= pieces);
    } else {
        let fewer = pieces.drop_last();
        let head = joined(fewer, sep);
        law_split_undoes_joining(fewer, sep);
        assert(head.push(sep).drop_last() =~= head);
        assert(split(head.push(sep), sep) == fewer.push(Seq::empty()));
        lemma_split_extends(head.push(sep), sep, last);
        assert(fewer.push(Seq::<char>::empty()).drop_last() =~= fewer);
        assert(Seq::<char>::empty() + last =~= last);
        assert(fewer.push(last) =~= pieces);
    }
}

/// Joining the pieces of a text gives the text back, and none of them holds the
/// separator.
pub proof fn law_joining_undoes_split(s: Seq<char>, sep: char)
    ensures
        split(s, sep).len() > 0,
        forall|i: int| 0 <= i < split(s, sep).len() ==> !(#[trigger] split(s, sep)[i]).contains(sep),
        joined(split(s, sep), sep) == s,
    decreases s.len(),
{
    lemma_split_pieces(s, sep);
    let pieces = split(s, sep);
    assert forall|i: int| 0 <= i < pieces.len() implies !(#[trigger] pieces[i]).contains(sep) by {
        if pieces[i].contains(sep) {
            let j = choose|j: int| 0 <= j < pieces[i].len() && pieces[i][j] == sep;
            assert(pieces[i][j] != sep);
        }
    }
    if s.len() > 0 {
        let head = s.drop_last();
        let before = split(head, sep);
        law_joining_undoes_split(head, sep);
        assert(head.push(s.last()) =~= s);
        if s.last() == sep {
            assert(pieces.drop_last() =~= before);
            assert(head.push(sep) + Seq::<char>::empty() =~= s);
        } else {
            assert(pieces.drop_last() =~= before.drop_last());
            if before.len() > 1 {
                let front = joined(before.drop_last(), sep).push(sep);
                assert(front + before.last().push(s.last()) =~= (front + before.last()).push(
                    s.last(),
                ));
            }
        }
    }
}

} // verus!
