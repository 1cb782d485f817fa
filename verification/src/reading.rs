//! How generated source is read: what stands between brackets, which items a list holds, and
//! which number a numeral gives. The laws on what is generated are stated over these readers.
use vstd::prelude::*;

use crate::text::{decimal, digit, each_followed, gathered, join};

verus! {

/// What follows `front` in a text that begins with it.
pub open spec fn behind(s: Seq<char>, front: Seq<char>) -> Option<Seq<char>> {
    if front.len() <= s.len() && s.take(front.len() as int) == front {
        Some(s.skip(front.len() as int))
    } else {
        None
    }
}

/// What stands between `open` and `close` in a text that begins with the one and ends with the
/// other.
pub open spec fn within(s: Seq<char>, open: Seq<char>, close: Seq<char>) -> Option<Seq<char>> {
    let n = s.len() - close.len();
    if open.len() <= n && s.take(open.len() as int) == open && s.skip(n) == close {
        Some(s.subrange(open.len() as int, n))
    } else {
        None
    }
}

/// `part` stands in `s`.
pub open spec fn stands_in(part: Seq<char>, s: Seq<char>) -> bool {
    exists|i: int|
        0 <= i && i + part.len() <= s.len() && #[trigger] s.subrange(i, i + part.len()) == part
}

/// `s` holds the items, in their order, with `sep` between neighbours and nothing else.
pub open spec fn lists(s: Seq<char>, items: Seq<Seq<char>>, sep: Seq<char>) -> bool
    decreases items.len(),
{
    if items.len() == 0 {
        s.len() == 0
    } else if items.len() == 1 {
        s == items[0]
    } else {
        match behind(s, items[0] + sep) {
            Some(rest) => lists(rest, items.drop_first(), sep),
            None => false,
        }
    }
}

/// A list of the items stands between `open` and `close`.
pub open spec fn encloses(
    s: Seq<char>,
    open: Seq<char>,
    items: Seq<Seq<char>>,
    close: Seq<char>,
) -> bool {
    within(s, open, close) matches Some(inner) && lists(inner, items, ", "@)
}

/// `s` holds the items, in their order, each with `tail` behind it, and nothing else.
pub open spec fn series(s: Seq<char>, items: Seq<Seq<char>>, tail: Seq<char>) -> bool
    decreases items.len(),
{
    if items.len() == 0 {
        s.len() == 0
    } else {
        match behind(s, items[0] + tail) {
            Some(rest) => series(rest, items.drop_first(), tail),
            None => false,
        }
    }
}

/// `c` is a decimal digit.
pub open spec fn is_digit(c: char) -> bool {
    '0' <= c && c <= '9'
}

/// How many digits `s` begins with.
pub open spec fn digits_len(s: Seq<char>) -> nat
    decreases s.len(),
{
    if s.len() > 0 && is_digit(s[0]) {
        1 + digits_len(s.skip(1))
    } else {
        0
    }
}

/// The number that digits give.
pub open spec fn value(digits: Seq<char>) -> nat
    decreases digits.len(),
{
    if digits.len() == 0 {
        0
    } else {
        (10 * value(digits.drop_last()) + (digits.last() as int - '0' as int)) as nat
    }
}

/// The number that `s` begins with, and what follows it.
pub open spec fn leading_number(s: Seq<char>) -> Option<(nat, Seq<char>)> {
    let n = digits_len(s) as int;
    if n == 0 {
        None
    } else {
        Some((value(s.take(n)), s.skip(n)))
    }
}

/// A text follows what it is put behind.
pub proof fn behind_front(front: Seq<char>, rest: Seq<char>)
    ensures
        behind(front + rest, front) == Some(rest),
{
    assert((front + rest).take(front.len() as int) =~= front);
    assert((front + rest).skip(front.len() as int) =~= rest);
}

/// A text stands between what is put round it.
pub proof fn within_brackets(open: Seq<char>, inner: Seq<char>, close: Seq<char>)
    ensures
        within(open + inner + close, open, close) == Some(inner),
{
    let s = open + inner + close;
    let n = s.len() - close.len();
    assert(s.take(open.len() as int) =~= open);
    assert(s.skip(n) =~= close);
    assert(s.subrange(open.len() as int, n) =~= inner);
}

/// A text stands in what is put round it.
pub proof fn stands_between(front: Seq<char>, part: Seq<char>, back: Seq<char>)
    ensures
        stands_in(part, front + part + back),
{
    let s = front + part + back;
    let i = front.len() as int;
    assert(s.subrange(i, i + part.len()) =~= part);
}

/// What stands in a part stands in the whole.
pub proof fn stands_in_whole(part: Seq<char>, middle: Seq<char>, front: Seq<char>, back: Seq<char>)
    requires
        stands_in(part, middle),
    ensures
        stands_in(part, front + middle + back),
{
    let i = choose|i: int|
        0 <= i && i + part.len() <= middle.len() && #[trigger] middle.subrange(i, i + part.len())
            == part;
    let s = front + middle + back;
    let j = front.len() + i;
    assert(s.subrange(j, j + part.len()) =~= middle.subrange(i, i + part.len()));
}

/// What is joined begins with the first item.
proof fn join_front(items: Seq<Seq<char>>, sep: Seq<char>)
    requires
        items.len() > 1,
    ensures
        join(items, sep) == items[0] + sep + join(items.drop_first(), sep),
    decreases items.len(),
{
    let rest = items.drop_first();
    if items.len() == 2 {
        assert(items.drop_last() =~= seq![items[0]]);
        assert(rest =~= seq![items[1]]);
        assert(join(items.drop_last(), sep) == items[0]);
        assert(join(rest, sep) == items[1]);
    } else {
        join_front(items.drop_last(), sep);
        assert(items.drop_last().drop_first() =~= rest.drop_last());
        assert(rest.last() == items.last());
        assert(items[0] + sep + join(rest.drop_last(), sep) + sep + items.last() =~= items[0] + sep
            + (join(rest.drop_last(), sep) + sep + items.last()));
    }
}

/// What is joined is a list of the items, in their order.
pub proof fn joined_lists(items: Seq<Seq<char>>, sep: Seq<char>)
    ensures
        lists(join(items, sep), items, sep),
    decreases items.len(),
{
    if items.len() > 1 {
        join_front(items, sep);
        behind_front(items[0] + sep, join(items.drop_first(), sep));
        joined_lists(items.drop_first(), sep);
    }
}

/// Items that are joined between brackets are enclosed by them.
pub proof fn list_is_enclosed(open: Seq<char>, items: Seq<Seq<char>>, close: Seq<char>)
    ensures
        encloses(open + join(items, ", "@) + close, open, items, close),
{
    joined_lists(items, ", "@);
    within_brackets(open, join(items, ", "@), close);
}

/// What is put one after the other begins with the first item.
proof fn followed_front(items: Seq<Seq<char>>, tail: Seq<char>)
    requires
        items.len() > 0,
    ensures
        each_followed(items, tail) == items[0] + tail + each_followed(items.drop_first(), tail),
    decreases items.len(),
{
    let rest = items.drop_first();
    if items.len() == 1 {
        assert(items.drop_last() =~= Seq::<Seq<char>>::empty());
        assert(rest =~= Seq::<Seq<char>>::empty());
        assert(each_followed(items.drop_last(), tail) =~= Seq::<char>::empty());
        assert(each_followed(items, tail) =~= items[0] + tail + each_followed(rest, tail));
    } else {
        followed_front(items.drop_last(), tail);
        assert(items.drop_last().drop_first() =~= rest.drop_last());
        assert(rest.last() == items.last());
        assert(items[0] + tail + each_followed(rest.drop_last(), tail) + items.last() + tail
            =~= items[0] + tail + (each_followed(rest.drop_last(), tail) + items.last() + tail));
    }
}

/// Items that are put one after the other stand there in their order.
pub proof fn followed_series(items: Seq<Seq<char>>, tail: Seq<char>)
    ensures
        series(each_followed(items, tail), items, tail),
    decreases items.len(),
{
    if items.len() > 0 {
        followed_front(items, tail);
        behind_front(items[0] + tail, each_followed(items.drop_first(), tail));
        followed_series(items.drop_first(), tail);
    }
}

/// Items that are joined with nothing between them stand one after the other.
pub proof fn join_is_a_series(items: Seq<Seq<char>>)
    ensures
        series(join(items, ""@), items, ""@),
    decreases items.len(),
{
    reveal_strlit("");
    let none = ""@;
    if items.len() == 1 {
        assert(items[0] + none =~= items[0]);
        behind_front(items[0] + none, Seq::empty());
        assert(items[0] + none + Seq::<char>::empty() =~= items[0]);
        assert(items.drop_first() =~= Seq::<Seq<char>>::empty());
        assert(series(Seq::empty(), items.drop_first(), none));
    } else if items.len() > 1 {
        join_front(items, none);
        behind_front(items[0] + none, join(items.drop_first(), none));
        join_is_a_series(items.drop_first());
    }
}

/// A piece behind others in a row is the last of them.
proof fn series_with(s: Seq<char>, items: Seq<Seq<char>>, last: Seq<char>)
    requires
        series(s, items, ""@),
    ensures
        series(s + last, items.push(last), ""@),
    decreases items.len(),
{
    reveal_strlit("");
    let none = ""@;
    if items.len() == 0 {
        assert(s + last =~= last + none + Seq::<char>::empty());
        behind_front(last + none, Seq::empty());
        assert(items.push(last).drop_first() =~= Seq::<Seq<char>>::empty());
        assert(series(Seq::empty(), items.push(last).drop_first(), none));
    } else {
        let front = items[0] + none;
        let rest = behind(s, front)->0;
        assert(s =~= front + rest);
        series_with(rest, items.drop_first(), last);
        assert(items.push(last).drop_first() =~= items.drop_first().push(last));
        assert(s + last =~= front + (rest + last));
        behind_front(front, rest + last);
        assert(items.push(last)[0] == items[0]);
    }
}

/// Pieces are gathered one after the other where each could be had; otherwise the first one that
/// could not decides.
pub proof fn pieces_are_gathered_in_order(parts: Seq<Result<Seq<char>, Seq<char>>>)
    ensures
        match gathered(parts) {
            Ok(s) => {
                &&& forall|i: int| 0 <= i < parts.len() ==> #[trigger] parts[i] is Ok
                &&& series(s, Seq::new(parts.len(), |i: int| parts[i]->Ok_0), ""@)
            },
            Err(message) => exists|i: int|
                {
                    &&& 0 <= i < parts.len()
                    &&& #[trigger] parts[i] == Err::<Seq<char>, Seq<char>>(message)
                    &&& forall|k: int| 0 <= k < i ==> #[trigger] parts[k] is Ok
                },
        },
    decreases parts.len(),
{
    let texts = Seq::new(parts.len(), |i: int| parts[i]->Ok_0);
    if parts.len() > 0 {
        let front = parts.drop_last();
        pieces_are_gathered_in_order(front);
        let before = Seq::new(front.len(), |i: int| front[i]->Ok_0);
        let last = parts.last();
        match gathered(front) {
            Ok(s) => {
                assert forall|k: int| 0 <= k < front.len() implies #[trigger] parts[k] is Ok by {
                    assert(front[k] == parts[k]);
                }
                match last {
                    Ok(text) => {
                        series_with(s, before, text);
                        assert(before.push(text) =~= texts);
                    },
                    Err(message) => {
                        assert(parts[parts.len() - 1] == Err::<Seq<char>, Seq<char>>(message));
                    },
                }
            },
            Err(message) => {
                let i = choose|i: int|
                    {
                        &&& 0 <= i < front.len()
                        &&& #[trigger] front[i] == Err::<Seq<char>, Seq<char>>(message)
                        &&& forall|k: int| 0 <= k < i ==> #[trigger] front[k] is Ok
                    };
                assert(parts[i] == front[i]);
                assert forall|k: int| 0 <= k < i implies #[trigger] parts[k] is Ok by {
                    assert(front[k] is Ok);
                }
            },
        }
    }
}

/// The numeral of a number is made of digits, and gives the number.
pub proof fn decimal_reads_back(n: nat)
    ensures
        value(decimal(n)) == n,
        decimal(n).len() > 0,
        forall|i: int| 0 <= i < decimal(n).len() ==> is_digit(#[trigger] decimal(n)[i]),
    decreases n,
{
    let text = decimal(n);
    let d = n % 10;
    assert('0' as int + d <= '9' as int);
    assert(is_digit(digit(d)));
    assert(digit(d) as int - '0' as int == d);
    if n < 10 {
        assert(text.drop_last() =~= Seq::<char>::empty());
        assert(value(text.drop_last()) == 0);
    } else {
        decimal_reads_back(n / 10);
        assert(text.drop_last() =~= decimal(n / 10));
    }
}

/// Digits reach to the first character that is none.
proof fn digits_end(digits: Seq<char>, rest: Seq<char>)
    requires
        forall|i: int| 0 <= i < digits.len() ==> is_digit(#[trigger] digits[i]),
        rest.len() > 0 ==> !is_digit(rest[0]),
    ensures
        digits_len(digits + rest) == digits.len(),
    decreases digits.len(),
{
    if digits.len() == 0 {
        assert(digits + rest =~= rest);
    } else {
        assert((digits + rest).skip(1) =~= digits.skip(1) + rest);
        digits_end(digits.skip(1), rest);
    }
}

/// The numeral of a number is read up to what follows it.
pub proof fn decimal_is_read(n: nat, rest: Seq<char>)
    requires
        rest.len() > 0 ==> !is_digit(rest[0]),
    ensures
        leading_number(decimal(n) + rest) == Some((n, rest)),
{
    let text = decimal(n);
    decimal_reads_back(n);
    digits_end(text, rest);
    assert((text + rest).take(text.len() as int) =~= text);
    assert((text + rest).skip(text.len() as int) =~= rest);
}

} // verus!
