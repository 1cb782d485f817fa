//! Character classes, and what they are used for: trimming, splitting into lines and
//! reading numerals.
use vstd::prelude::*;

use crate::reading::{decimal_reads_back, value};
use crate::text::{chars_of, decimal, slice_text};

verus! {

/// `c` is an ASCII character.
pub open spec fn ascii(c: char) -> bool {
    (c as int) < 128
}

/// `c` is an ASCII letter or digit.
pub open spec fn ascii_alphanumeric(c: char) -> bool {
    ('a' <= c && c <= 'z') || ('A' <= c && c <= 'Z') || ('0' <= c && c <= '9')
}

/// `c` is white space. Of characters beyond ASCII alone.
pub uninterp spec fn wide_white_space(c: char) -> bool;

/// `c` is white space: of ASCII, the space and what stands from the tab to the carriage
/// return.
pub open spec fn white_space(c: char) -> bool {
    if ascii(c) {
        c == ' ' || ('\t' <= c && c <= '\r')
    } else {
        wide_white_space(c)
    }
}

/// Calls `char::is_whitespace`. The contract says which ASCII characters are white, and names
/// the class beyond ASCII.
#[verifier::external_body]
pub(crate) fn is_white_space(c: char) -> (res: bool)
    ensures
        res == (if ascii(c) {
            c == ' ' || ('\t' <= c && c <= '\r')
        } else {
            wide_white_space(c)
        }),
{
    c.is_whitespace()
}

/// `c` is a letter or a numeric character. Of characters beyond ASCII alone.
pub uninterp spec fn wide_alphanumeric(c: char) -> bool;

/// `c` is a letter or a numeric character: of ASCII, the letters and the digits.
pub open spec fn alphanumeric(c: char) -> bool {
    if ascii(c) {
        ascii_alphanumeric(c)
    } else {
        wide_alphanumeric(c)
    }
}

/// Calls `char::is_alphanumeric`. The contract says that the ASCII letters and digits belong
/// to the class and no other ASCII character, and names the class beyond ASCII.
#[verifier::external_body]
pub(crate) fn is_alphanumeric(c: char) -> (res: bool)
    ensures
        res == (if ascii(c) {
            ascii_alphanumeric(c)
        } else {
            wide_alphanumeric(c)
        }),
{
    c.is_alphanumeric()
}

/// `c` is an upper-case character. Of characters beyond ASCII alone.
pub uninterp spec fn wide_uppercase(c: char) -> bool;

/// `c` is an upper-case character: of ASCII, the upper-case letters.
pub open spec fn uppercase(c: char) -> bool {
    if ascii(c) {
        'A' <= c && c <= 'Z'
    } else {
        wide_uppercase(c)
    }
}

/// `c` is a lower-case character. Of characters beyond ASCII alone.
pub uninterp spec fn wide_lowercase(c: char) -> bool;

/// `c` is a lower-case character: of ASCII, the lower-case letters.
pub open spec fn lowercase(c: char) -> bool {
    if ascii(c) {
        'a' <= c && c <= 'z'
    } else {
        wide_lowercase(c)
    }
}

/// Calls `char::is_uppercase`. The contract says that of ASCII the upper-case letters belong
/// to the class, and names the class beyond ASCII.
#[verifier::external_body]
pub(crate) fn is_uppercase(c: char) -> (res: bool)
    ensures
        res == (if ascii(c) {
            'A' <= c && c <= 'Z'
        } else {
            wide_uppercase(c)
        }),
{
    c.is_uppercase()
}

/// Calls `char::is_lowercase`. The contract says that of ASCII the lower-case letters belong
/// to the class, and names the class beyond ASCII.
#[verifier::external_body]
pub(crate) fn is_lowercase(c: char) -> (res: bool)
    ensures
        res == (if ascii(c) {
            'a' <= c && c <= 'z'
        } else {
            wide_lowercase(c)
        }),
{
    c.is_lowercase()
}

/// The ASCII upper-case letter of an ASCII lower-case one; any other character is left
/// as it is.
pub open spec fn ascii_upper(c: char) -> char {
    if 'a' <= c && c <= 'z' {
        (c as int - 32) as char
    } else {
        c
    }
}

/// The ASCII lower-case letter of an ASCII upper-case one; any other character is left
/// as it is.
pub open spec fn ascii_lower(c: char) -> char {
    if 'A' <= c && c <= 'Z' {
        (c as int + 32) as char
    } else {
        c
    }
}

/// The ASCII upper-case letter of an ASCII lower-case one.
pub fn to_ascii_upper(c: char) -> (res: char)
    ensures
        res == ascii_upper(c),
{
    if 'a' <= c && c <= 'z' {
        let code: u8 = c as u8;
        (code - 32) as char
    } else {
        c
    }
}

/// What a character beyond ASCII becomes in upper case.
pub uninterp spec fn wide_raised(c: char) -> Seq<char>;

/// What `c` becomes in upper case: of ASCII, the one upper-case character.
pub open spec fn raised(c: char) -> Seq<char> {
    if ascii(c) {
        seq![ascii_upper(c)]
    } else {
        wide_raised(c)
    }
}

/// What a character beyond ASCII becomes in lower case.
pub uninterp spec fn wide_lowered(c: char) -> Seq<char>;

/// What `c` becomes in lower case: of ASCII, the one lower-case character.
pub open spec fn lowered(c: char) -> Seq<char> {
    if ascii(c) {
        seq![ascii_lower(c)]
    } else {
        wide_lowered(c)
    }
}

/// Calls `char::to_uppercase` and prints what it gives. The contract says that this is the one
/// upper-case character for ASCII, and names it beyond ASCII.
#[verifier::external_body]
pub(crate) fn raise(c: char) -> (res: String)
    ensures
        res@ == (if ascii(c) {
            seq![ascii_upper(c)]
        } else {
            wide_raised(c)
        }),
{
    c.to_uppercase().to_string()
}

/// Calls `char::to_lowercase` and prints what it gives. The contract says that this is the one
/// lower-case character for ASCII, and names it beyond ASCII.
#[verifier::external_body]
pub(crate) fn lower(c: char) -> (res: String)
    ensures
        res@ == (if ascii(c) {
            seq![ascii_lower(c)]
        } else {
            wide_lowered(c)
        }),
{
    c.to_lowercase().to_string()
}

/// All characters of `s` are ASCII.
pub open spec fn all_ascii(s: Seq<char>) -> bool {
    forall|i: int| 0 <= i < s.len() ==> ascii(#[trigger] s[i])
}

/// `s` with the ASCII lower-case letter in place of each ASCII upper-case one.
pub open spec fn each_lowered(s: Seq<char>) -> Seq<char> {
    Seq::new(s.len(), |i: int| ascii_lower(s[i]))
}

/// What a text that is not all ASCII becomes in lower case.
pub uninterp spec fn wide_lowered_text(s: Seq<char>) -> Seq<char>;

/// What a text becomes in lower case: of ASCII, each character its own.
pub open spec fn lowered_text(s: Seq<char>) -> Seq<char> {
    if all_ascii(s) {
        each_lowered(s)
    } else {
        wide_lowered_text(s)
    }
}

/// Calls `str::to_lowercase`. The contract says that each character of a text of ASCII becomes
/// its own lower-case character, and names the result for any other text.
#[verifier::external_body]
pub(crate) fn lower_text(s: &str) -> (res: String)
    ensures
        res@ == (if all_ascii(s@) {
            each_lowered(s@)
        } else {
            wide_lowered_text(s@)
        }),
{
    s.to_lowercase()
}

/// Whether `c` is an ASCII letter or digit.
pub fn is_ascii_alphanumeric(c: char) -> (res: bool)
    ensures
        res == ascii_alphanumeric(c),
{
    ('a' <= c && c <= 'z') || ('A' <= c && c <= 'Z') || ('0' <= c && c <= '9')
}

/// `s` without the white space it begins with.
pub open spec fn trim_start(s: Seq<char>) -> Seq<char>
    decreases s.len(),
{
    if s.len() > 0 && white_space(s[0]) {
        trim_start(s.drop_first())
    } else {
        s
    }
}

/// `s` without the white space it ends with.
pub open spec fn trim_end(s: Seq<char>) -> Seq<char>
    decreases s.len(),
{
    if s.len() > 0 && white_space(s.last()) {
        trim_end(s.drop_last())
    } else {
        s
    }
}

/// `s` without white space at either end.
pub open spec fn trim(s: Seq<char>) -> Seq<char> {
    trim_end(trim_start(s))
}

/// Takes the white space off the front.
pub fn trimmed_start(s: &str) -> (res: String)
    ensures
        res@ == trim_start(s@),
{
    let chars = chars_of(s);
    let mut i: usize = 0;
    assert(chars@.skip(0) =~= s@);
    while i < chars.len() && is_white_space(chars[i])
        invariant
            chars@ == s@,
            i <= chars.len(),
            trim_start(s@) == trim_start(chars@.skip(i as int)),
        decreases chars.len() - i,
    {
        assert(chars@.skip(i as int).drop_first() =~= chars@.skip(i + 1));
        i += 1;
    }
    assert(chars@.skip(i as int) =~= chars@.subrange(i as int, chars@.len() as int));
    slice_text(&chars, i, chars.len())
}

/// Takes the white space off both ends.
pub fn trimmed(s: &str) -> (res: String)
    ensures
        res@ == trim(s@),
{
    let front = trimmed_start(s);
    let chars = chars_of(front.as_str());
    let mut n: usize = chars.len();
    assert(chars@.take(n as int) =~= chars@);
    while n > 0 && is_white_space(chars[n - 1])
        invariant
            n <= chars.len(),
            trim_end(chars@) == trim_end(chars@.take(n as int)),
        decreases n,
    {
        assert(chars@.take(n as int).drop_last() =~= chars@.take(n - 1));
        n -= 1;
    }
    assert(chars@.take(n as int) =~= chars@.subrange(0, n as int));
    slice_text(&chars, 0, n)
}

/// What is trimmed off the front is white, and the rest is a tail of the text.
pub proof fn trim_start_is_a_tail(s: Seq<char>) -> (k: int)
    ensures
        0 <= k <= s.len(),
        trim_start(s) == s.skip(k),
        forall|i: int| 0 <= i < k ==> white_space(#[trigger] s[i]),
        k < s.len() ==> !white_space(s[k]),
    decreases s.len(),
{
    if s.len() > 0 && white_space(s[0]) {
        let j = trim_start_is_a_tail(s.drop_first());
        assert(s.drop_first().skip(j) =~= s.skip(j + 1));
        assert forall|i: int| 0 <= i < j + 1 implies white_space(#[trigger] s[i]) by {
            if i > 0 {
                assert(s.drop_first()[i - 1] == s[i]);
            }
        }
        if j + 1 < s.len() {
            assert(s.drop_first()[j] == s[j + 1]);
        }
        j + 1
    } else {
        assert(s.skip(0) =~= s);
        0
    }
}

/// Where something of `back` is left, nothing is taken off what stands in front of it.
pub proof fn trim_end_of_tail(front: Seq<char>, back: Seq<char>)
    requires
        trim_end(back).len() > 0,
    ensures
        trim_end(front + back) == front + trim_end(back),
    decreases back.len(),
{
    let whole = front + back;
    assert(whole.last() == back.last());
    if white_space(back.last()) {
        assert(whole.drop_last() =~= front + back.drop_last());
        trim_end_of_tail(front, back.drop_last());
    }
}

/// One more white character at the end is trimmed off.
pub proof fn trim_of_white(s: Seq<char>, c: char)
    requires
        white_space(c),
    ensures
        trim(s.push(c)) == trim(s),
        trim_start(s).len() > 0 ==> trim_start(s.push(c)) == trim_start(s).push(c),
        trim_start(s).len() == 0 ==> trim_start(s.push(c)).len() == 0,
    decreases s.len(),
{
    let more = s.push(c);
    if s.len() == 0 {
        assert(more.drop_first() =~= s);
    } else if white_space(s[0]) {
        assert(more.drop_first() =~= s.drop_first().push(c));
        trim_of_white(s.drop_first(), c);
    } else {
        assert(more.drop_last() =~= s);
    }
}

/// A line that ended in a line feed, without the carriage return before it.
pub open spec fn without_return(line: Seq<char>) -> Seq<char> {
    if line.len() > 0 && line.last() == '\r' {
        line.drop_last()
    } else {
        line
    }
}

/// The lines of `s`: the pieces between line feeds, each without the carriage return
/// that stands directly before its line feed. Nothing follows the last line feed
/// unless there is text behind it.
pub open spec fn lines(s: Seq<char>) -> Seq<Seq<char>> {
    lines_from(s, Seq::empty())
}

/// The lines of `s` where `line` has been read of the first.
pub open spec fn lines_from(s: Seq<char>, line: Seq<char>) -> Seq<Seq<char>>
    decreases s.len(),
{
    if s.len() == 0 {
        if line.len() == 0 {
            Seq::empty()
        } else {
            seq![line]
        }
    } else if s[0] == '\n' {
        seq![without_return(line)] + lines_from(s.drop_first(), Seq::empty())
    } else {
        lines_from(s.drop_first(), line.push(s[0]))
    }
}

/// What stands behind the last line feed of `s`, where `line` has been read in front of `s`.
pub open spec fn last_line_from(s: Seq<char>, line: Seq<char>) -> Seq<char>
    decreases s.len(),
{
    if s.len() == 0 {
        line
    } else if s[0] == '\n' {
        last_line_from(s.drop_first(), Seq::empty())
    } else {
        last_line_from(s.drop_first(), line.push(s[0]))
    }
}

/// What stands behind the last line feed of `s`.
pub open spec fn last_line(s: Seq<char>) -> Seq<char> {
    last_line_from(s, Seq::empty())
}

/// The lines of `s` that a line feed ends, where `line` has been read of the first.
pub open spec fn ended_lines_from(s: Seq<char>, line: Seq<char>) -> Seq<Seq<char>>
    decreases s.len(),
{
    if s.len() == 0 {
        Seq::empty()
    } else if s[0] == '\n' {
        seq![without_return(line)] + ended_lines_from(s.drop_first(), Seq::empty())
    } else {
        ended_lines_from(s.drop_first(), line.push(s[0]))
    }
}

/// The lines of a text are those that a line feed ends, and what follows the last line feed.
/// Another text behind one more line feed adds its own lines.
pub proof fn lines_of_two_texts(a: Seq<char>, line: Seq<char>, b: Seq<char>)
    ensures
        lines_from(a, line) == ended_lines_from(a, line) + (if last_line_from(a, line).len() == 0 {
            Seq::empty()
        } else {
            seq![last_line_from(a, line)]
        }),
        lines_from(a + seq!['\n'] + b, line) == ended_lines_from(a, line).push(
            without_return(last_line_from(a, line)),
        ) + lines(b),
    decreases a.len(),
{
    let whole = a + seq!['\n'] + b;
    if a.len() == 0 {
        assert(whole[0] == '\n');
        assert(whole.drop_first() =~= b);
        let none = Seq::<Seq<char>>::empty();
        assert(none + none =~= none);
        assert(none + seq![line] =~= seq![line]);
        assert(none.push(without_return(line)) =~= seq![without_return(line)]);
    } else {
        assert(whole[0] == a[0]);
        assert(whole.drop_first() =~= a.drop_first() + seq!['\n'] + b);
        if a[0] == '\n' {
            lines_of_two_texts(a.drop_first(), Seq::empty(), b);
            let first = seq![without_return(line)];
            let rest = ended_lines_from(a.drop_first(), Seq::empty());
            let tail = last_line_from(a, line);
            assert(first + (rest + seq![tail]) =~= (first + rest) + seq![tail]);
            assert(first + (rest + Seq::<Seq<char>>::empty()) =~= (first + rest) + Seq::<
                Seq<char>,
            >::empty());
            assert(first + (rest.push(without_return(tail)) + lines(b)) =~= (first + rest).push(
                without_return(tail),
            ) + lines(b));
        } else {
            lines_of_two_texts(a.drop_first(), line.push(a[0]), b);
        }
    }
}

/// The lines of `s`.
pub fn lines_of(s: &str) -> (res: Vec<String>)
    ensures
        res.deep_view() == lines(s@),
{
    let chars = chars_of(s);
    let mut out: Vec<String> = Vec::new();
    let mut from: usize = 0;
    let mut i: usize = 0;
    assert(chars@.skip(0) =~= s@);
    assert(chars@.subrange(0, 0) =~= Seq::<char>::empty());
    assert(lines(s@) =~= out.deep_view() + lines_from(chars@.skip(0), chars@.subrange(0, 0)));
    while i < chars.len()
        invariant
            chars@ == s@,
            from <= i <= chars.len(),
            lines(s@) == out.deep_view() + lines_from(
                chars@.skip(i as int),
                chars@.subrange(from as int, i as int),
            ),
        decreases chars.len() - i,
    {
        let ghost line = chars@.subrange(from as int, i as int);
        let ghost rest = chars@.skip(i as int);
        let ghost before = out.deep_view();
        assert(rest.drop_first() =~= chars@.skip(i + 1));
        if chars[i] == '\n' {
            let to: usize = if i > from && chars[i - 1] == '\r' {
                i - 1
            } else {
                i
            };
            let text = slice_text(&chars, from, to);
            assert(text@ =~= without_return(line));
            out.push(text);
            from = i + 1;
            proof {
                assert(out.deep_view() =~= before.push(without_return(line)));
                assert(chars@.subrange(from as int, from as int) =~= Seq::<char>::empty());
                assert(before + (seq![without_return(line)] + lines_from(
                    chars@.skip(i + 1),
                    Seq::empty(),
                )) =~= out.deep_view() + lines_from(chars@.skip(i + 1), Seq::empty()));
            }
        } else {
            assert(line.push(chars@[i as int]) =~= chars@.subrange(from as int, i + 1));
        }
        i += 1;
    }
    let ghost before = out.deep_view();
    if from < chars.len() {
        let text = slice_text(&chars, from, chars.len());
        out.push(text);
        assert(out.deep_view() =~= before.push(text@));
        assert(before + seq![text@] =~= out.deep_view());
    } else {
        assert(before + Seq::<Seq<char>>::empty() =~= before);
    }
    out
}

/// The value of the decimal digits `s`.
pub open spec fn digits_value(s: Seq<char>) -> nat
    decreases s.len(),
{
    if s.len() == 0 {
        0
    } else {
        (10 * digits_value(s.drop_last()) + (s.last() as int - '0' as int)) as nat
    }
}

/// Decimal digits, one at least.
pub open spec fn is_digits(s: Seq<char>) -> bool {
    &&& s.len() > 0
    &&& forall|i: int| 0 <= i < s.len() ==> '0' <= #[trigger] s[i] && s[i] <= '9'
}

/// The number that a numeral stands for: digits, with or without a `+` in front, whose
/// value is no more than `max`.
pub open spec fn number(s: Seq<char>, max: nat) -> Option<nat> {
    let digits = if s.len() > 0 && s[0] == '+' {
        s.drop_first()
    } else {
        s
    };
    if is_digits(digits) && digits_value(digits) <= max {
        Some(digits_value(digits))
    } else {
        None
    }
}

/// More digits make no smaller number.
proof fn digits_value_grows(s: Seq<char>, n: int)
    requires
        0 <= n <= s.len(),
        forall|i: int| 0 <= i < s.len() ==> '0' <= #[trigger] s[i] && s[i] <= '9',
    ensures
        digits_value(s.take(n)) <= digits_value(s),
    decreases s.len(),
{
    if n < s.len() {
        digits_value_grows(s.drop_last(), n);
        assert(s.drop_last().take(n) =~= s.take(n));
    } else {
        assert(s.take(n) =~= s);
    }
}

/// Digits have the value they are read as.
proof fn digits_have_their_value(s: Seq<char>)
    ensures
        digits_value(s) == value(s),
    decreases s.len(),
{
    if s.len() > 0 {
        digits_have_their_value(s.drop_last());
    }
}

/// In ASCII, white space is the blank and what stands from the tab to the return; capitals and small
/// letters are told apart, and each becomes the other one.
pub proof fn ascii_is_told_apart(c: char)
    requires
        (c as int) < 128,
    ensures
        white_space(c) <==> c as int == 32 || 9 <= c as int <= 13,
        uppercase(c) <==> 65 <= c as int <= 90,
        lowercase(c) <==> 97 <= c as int <= 122,
        alphanumeric(c) <==> 48 <= c as int <= 57 || uppercase(c) || lowercase(c),
        raised(c).len() == 1 && lowered(c).len() == 1,
        lowercase(c) ==> raised(c)[0] as int == c as int - 32,
        !lowercase(c) ==> raised(c)[0] == c,
        uppercase(c) ==> lowered(c)[0] as int == c as int + 32,
        !uppercase(c) ==> lowered(c)[0] == c,
{
}

/// A text of ASCII is lowered character by character.
pub proof fn ascii_text_is_lowered(s: Seq<char>)
    requires
        forall|i: int| 0 <= i < s.len() ==> (#[trigger] s[i] as int) < 128,
    ensures
        lowered_text(s).len() == s.len(),
        forall|i: int|
            0 <= i < s.len() ==> #[trigger] lowered_text(s)[i] as int == if 65 <= s[i] as int <= 90 {
                s[i] as int + 32
            } else {
                s[i] as int
            },
{
    assert(all_ascii(s));
}

/// The first line of a text ends at its first line feed, and a return in front of that is left out;
/// what has no line feed is one line.
pub proof fn first_line_ends_at_the_first_feed(line: Seq<char>, rest: Seq<char>)
    requires
        !line.contains('\n'),
    ensures
        lines(line + seq!['\n'] + rest) == seq![
            if line.len() > 0 && line.last() == '\r' {
                line.take(line.len() - 1)
            } else {
                line
            },
        ] + lines(rest),
        line.len() > 0 ==> lines(line) == seq![line],
        lines(Seq::empty()) == Seq::<Seq<char>>::empty(),
{
    line_is_gathered(Seq::empty(), line, rest);
    assert(Seq::<char>::empty() + line =~= line);
    if line.len() > 0 {
        assert(line.drop_last() =~= line.take(line.len() - 1));
    }
}

/// A line is gathered up to its end.
proof fn line_is_gathered(front: Seq<char>, line: Seq<char>, rest: Seq<char>)
    requires
        !line.contains('\n'),
    ensures
        lines_from(line + seq!['\n'] + rest, front) == seq![without_return(front + line)]
            + lines_from(rest, Seq::empty()),
        lines_from(line, front) == if (front + line).len() == 0 {
            Seq::<Seq<char>>::empty()
        } else {
            seq![front + line]
        },
    decreases line.len(),
{
    let whole = line + seq!['\n'] + rest;
    if line.len() == 0 {
        assert(whole[0] == '\n');
        assert(whole.drop_first() =~= rest);
        assert(front + line =~= front);
    } else {
        let tail = line.drop_first();
        assert(line[0] != '\n');
        assert(!tail.contains('\n')) by {
            if tail.contains('\n') {
                let i = choose|i: int| 0 <= i < tail.len() && tail[i] == '\n';
                assert(line[i + 1] == '\n');
            }
        }
        assert(whole[0] == line[0]);
        assert(whole.drop_first() =~= tail + seq!['\n'] + rest);
        assert(front.push(line[0]) + tail =~= front + line);
        line_is_gathered(front.push(line[0]), tail, rest);
    }
}

/// The letters and digits of ASCII are those between `0` and `9`, `A` and `Z` and `a` and `z`; a small
/// letter has its capital, and the other way round, and no other character is changed.
pub proof fn letters_have_two_cases(c: char)
    ensures
        ascii_alphanumeric(c) <==> 48 <= c as int <= 57 || 65 <= c as int <= 90 || 97 <= c as int
            <= 122,
        97 <= c as int <= 122 ==> ascii_upper(c) as int == c as int - 32,
        !(97 <= c as int <= 122) ==> ascii_upper(c) == c,
        65 <= c as int <= 90 ==> ascii_lower(c) as int == c as int + 32,
        !(65 <= c as int <= 90) ==> ascii_lower(c) == c,
        ascii(c) <==> (c as int) < 128,
{
}

/// The numeral of a number stands for the number, with or without a `+` in front, where it is
/// not beyond `max`.
pub proof fn numeral_stands_for_its_number(n: nat, max: nat)
    ensures
        number(decimal(n), max) == if n <= max {
            Some(n)
        } else {
            None
        },
        number(seq!['+'] + decimal(n), max) == number(decimal(n), max),
{
    let text = decimal(n);
    decimal_reads_back(n);
    digits_have_their_value(text);
    assert(crate::reading::is_digit(text[0]));
    assert((seq!['+'] + text).drop_first() =~= text);
    assert forall|i: int| 0 <= i < text.len() implies '0' <= #[trigger] text[i] && text[i] <= '9' by {
        assert(crate::reading::is_digit(text[i]));
    }
}

/// A text that neither begins nor ends with white space is not trimmed.
pub proof fn trim_keeps_what_is_tight(s: Seq<char>)
    requires
        s.len() > 0 ==> !white_space(s[0]) && !white_space(s.last()),
    ensures
        trim(s) == s,
        trim_start(s) == s,
        trim_end(s) == s,
{
}

/// White space round a text is trimmed off.
pub proof fn white_space_is_trimmed(s: Seq<char>, c: char)
    requires
        white_space(c),
    ensures
        trim(s.push(c)) == trim(s),
        trim(seq![c] + s) == trim(s),
{
    trim_of_white(s, c);
    assert((seq![c] + s).drop_first() =~= s);
}

/// Reads a numeral no greater than `max`.
pub fn parse_number(s: &str, max: u64) -> (res: Option<u64>)
    ensures
        match res {
            Some(n) => number(s@, max as nat) == Some(n as nat),
            None => number(s@, max as nat) is None,
        },
{
    let chars = chars_of(s);
    let from: usize = if chars.len() > 0 && chars[0] == '+' {
        1
    } else {
        0
    };
    let ghost digits = chars@.skip(from as int);
    assert(digits =~= if s@.len() > 0 && s@[0] == '+' {
        s@.drop_first()
    } else {
        s@
    });
    if from >= chars.len() {
        return None;
    }
    let mut value: u64 = 0;
    let mut i: usize = from;
    while i < chars.len()
        invariant
            chars@ == s@,
            from <= i <= chars.len(),
            digits == chars@.skip(from as int),
            digits == (if s@.len() > 0 && s@[0] == '+' {
                s@.drop_first()
            } else {
                s@
            }),
            forall|k: int|
                0 <= k < i - from ==> '0' <= #[trigger] digits[k] && digits[k] <= '9',
            value as nat == digits_value(digits.take(i - from)),
            value <= max,
        decreases chars.len() - i,
    {
        let c = chars[i];
        assert(digits[i - from] == c);
        if c < '0' || '9' < c {
            return None;
        }
        let d: u64 = (c as u64) - ('0' as u64);
        proof {
            let next = digits.take(i - from + 1);
            assert(next.drop_last() =~= digits.take(i - from));
            assert(digits_value(next) == 10 * value + d);
        }
        if 10 * (value as u128) + (d as u128) > max as u128 {
            proof {
                if is_digits(digits) {
                    digits_value_grows(digits, i - from + 1);
                }
            }
            return None;
        }
        value = 10 * value + d;
        i += 1;
    }
    assert(digits.take(i - from) =~= digits);
    Some(value)
}

/// What is said of a numeral that an integer cannot hold.
pub uninterp spec fn numeral_error(digits: Seq<char>) -> Seq<char>;

/// Calls `str::parse` for `i32` and shows the error; where there is none the result is
/// empty. The contract names what is shown.
#[verifier::external_body]
pub(crate) fn numeral_error_text(digits: &str) -> (res: String)
    ensures
        res@ == numeral_error(digits@),
{
    digits.parse::<i32>().map_or_else(|e| e.to_string(), |_| String::new())
}

} // verus!
