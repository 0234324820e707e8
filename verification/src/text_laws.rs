//! What the texts of the library mean: their order, their pieces and their numbers.
use crate::text::{
    all_digits, before, decimal, ends_with, is_digit, is_space, leading_space, number, occurs_at,
    parsed_u64, signed_decimal, space_from, split, starts_with, trimmed, words,
};
use crate::text::{index_from, index_from_is_first};
use vstd::prelude::*;

verus! {

/// Two texts agree in their first `n` characters; then the first one ends, or has the
/// smaller code point.
pub open spec fn parts_at(a: Seq<char>, b: Seq<char>, n: int) -> bool {
    &&& 0 <= n <= a.len()
    &&& n < b.len()
    &&& forall|i: int| 0 <= i < n ==> a[i] == b[i]
    &&& n < a.len() ==> (a[n] as int) < (b[n] as int)
}

/// One text comes before another exactly where, at the first place in which they
/// differ, it ends or has the smaller code point.
pub proof fn order_is_by_first_difference(a: Seq<char>, b: Seq<char>)
    ensures
        before(a, b) <==> exists|n: int| #[trigger] parts_at(a, b, n),
    decreases a.len(),
{
    if b.len() == 0 {
    } else if a.len() == 0 {
        assert(parts_at(a, b, 0));
    } else if a[0] == b[0] {
        let x = a.skip(1);
        let y = b.skip(1);
        order_is_by_first_difference(x, y);
        if before(x, y) {
            let n = choose|n: int| #[trigger] parts_at(x, y, n);
            assert forall|i: int| 0 <= i < n + 1 implies a[i] == b[i] by {
                if i > 0 {
                    assert(x[i - 1] == y[i - 1]);
                }
            }
            assert(parts_at(a, b, n + 1));
        }
        if exists|n: int| #[trigger] parts_at(a, b, n) {
            let n = choose|n: int| #[trigger] parts_at(a, b, n);
            assert(n > 0);
            assert forall|i: int| 0 <= i < n - 1 implies x[i] == y[i] by {
                assert(a[i + 1] == b[i + 1]);
            }
            assert(parts_at(x, y, n - 1));
        }
    } else {
        if (a[0] as int) < (b[0] as int) {
            assert(parts_at(a, b, 0));
        }
        if exists|n: int| #[trigger] parts_at(a, b, n) {
            let n = choose|n: int| #[trigger] parts_at(a, b, n);
            assert(n == 0);
        }
    }
}

/// A text begins with another exactly where it is that one with something behind it,
/// and ends with another exactly where it is that one with something before it.
pub proof fn beginnings_and_ends(text: Seq<char>, part: Seq<char>)
    ensures
        starts_with(text, part) <==> exists|rest: Seq<char>| text == #[trigger] (part + rest),
        ends_with(text, part) <==> exists|rest: Seq<char>| text == #[trigger] (rest + part),
{
    if starts_with(text, part) {
        assert(text =~= part + text.skip(part.len() as int));
    }
    if exists|rest: Seq<char>| text == #[trigger] (part + rest) {
        assert(text.take(part.len() as int) =~= part);
    }
    if ends_with(text, part) {
        assert(text =~= text.take(text.len() - part.len()) + part);
    }
    if exists|rest: Seq<char>| text == #[trigger] (rest + part) {
        assert(text.skip(text.len() - part.len()) =~= part);
    }
}

/// One text stands in another at a place exactly where that is as many characters
/// behind its beginning.
pub proof fn occurrence_is_in_between(text: Seq<char>, needle: Seq<char>, at: int)
    ensures
        occurs_at(text, needle, at) <==> exists|head: Seq<char>, tail: Seq<char>|
            head.len() == at && text == #[trigger] (head + needle + tail),
{
    if occurs_at(text, needle, at) {
        let head = text.take(at);
        let tail = text.skip(at + needle.len());
        assert(text =~= head + needle + tail);
    }
    if exists|head: Seq<char>, tail: Seq<char>|
        head.len() == at && text == #[trigger] (head + needle + tail) {
        assert(text.subrange(at, at + needle.len()) =~= needle);
    }
}

/// Pieces with a separator between each two.
pub open spec fn joined_with(pieces: Seq<Seq<char>>, separator: char) -> Seq<char>
    decreases pieces.len(),
{
    if pieces.len() == 0 {
        Seq::empty()
    } else if pieces.len() == 1 {
        pieces[0]
    } else {
        pieces[0] + seq![separator] + joined_with(pieces.skip(1), separator)
    }
}

/// The pieces of a text hold no separator, there is always one, and with the
/// separators between them they are the text again.
pub proof fn pieces_make_the_text(text: Seq<char>, separator: char)
    ensures
        split(text, separator).len() > 0,
        joined_with(split(text, separator), separator) == text,
        forall|i: int|
            0 <= i < split(text, separator).len() ==> !(#[trigger] split(
                text,
                separator,
            )[i]).contains(separator),
    decreases text.len(),
{
    let i = index_from(text, separator, 0);
    index_from_is_first(text, separator, 0);
    let pieces = split(text, separator);
    if i >= text.len() {
        assert(pieces =~= seq![text]);
    } else {
        let rest = text.skip(i + 1);
        pieces_make_the_text(rest, separator);
        assert(pieces.skip(1) =~= split(rest, separator));
        assert(text =~= text.take(i) + seq![separator] + rest);
        assert forall|k: int| 0 <= k < pieces.len() implies !(#[trigger] pieces[k]).contains(
            separator,
        ) by {
            if k == 0 {
                assert(pieces[0] == text.take(i));
            } else {
                assert(pieces[k] == split(rest, separator)[k - 1]);
            }
        }
    }
}

/// Every character is white space.
pub open spec fn all_space(text: Seq<char>) -> bool {
    forall|i: int| 0 <= i < text.len() ==> is_space(#[trigger] text[i])
}

/// No character is white space.
pub open spec fn no_space(text: Seq<char>) -> bool {
    forall|i: int| 0 <= i < text.len() ==> !is_space(#[trigger] text[i])
}

/// White space is the white space of Unicode, by code point; no digit, no letter and
/// no mark of ASCII is.
pub proof fn white_space_is_known(c: char)
    ensures
        is_space(c) <==> seq![
            9int,
            10,
            11,
            12,
            13,
            32,
            133,
            160,
            5760,
            8192,
            8193,
            8194,
            8195,
            8196,
            8197,
            8198,
            8199,
            8200,
            8201,
            8202,
            8232,
            8233,
            8239,
            8287,
            12288,
        ].contains(c as int),
        32 < c as int <= 126 ==> !is_space(c),
{
    let known = seq![
        9int,
        10,
        11,
        12,
        13,
        32,
        133,
        160,
        5760,
        8192,
        8193,
        8194,
        8195,
        8196,
        8197,
        8198,
        8199,
        8200,
        8201,
        8202,
        8232,
        8233,
        8239,
        8287,
        12288,
    ];
    if is_space(c) {
        let n = c as int;
        let at = if n <= 13 {
            n - 9
        } else if n == 32 {
            5
        } else if n == 133 {
            6
        } else if n == 160 {
            7
        } else if n == 5760 {
            8
        } else if n <= 8202 {
            n - 8183
        } else if n == 8232 {
            20
        } else if n == 8233 {
            21
        } else if n == 8239 {
            22
        } else if n == 8287 {
            23
        } else {
            24
        };
        assert(known[at] == n);
    }
}

proof fn space_from_stops(text: Seq<char>, wanted: bool, from: int)
    requires
        0 <= from <= text.len(),
    ensures
        from <= space_from(text, wanted, from) <= text.len(),
        space_from(text, wanted, from) < text.len() ==> is_space(
            text[space_from(text, wanted, from)],
        ) == wanted,
        forall|j: int| from <= j < space_from(text, wanted, from) ==> is_space(text[j]) != wanted,
    decreases text.len() - from,
{
    if from < text.len() && is_space(text[from]) != wanted {
        space_from_stops(text, wanted, from + 1);
    }
}

proof fn space_from_at(text: Seq<char>, wanted: bool, from: int, at: int)
    requires
        0 <= from <= at <= text.len(),
        at < text.len() ==> is_space(text[at]) == wanted,
        forall|j: int| from <= j < at ==> is_space(text[j]) != wanted,
    ensures
        space_from(text, wanted, from) == at,
    decreases at - from,
{
    if from < at {
        space_from_at(text, wanted, from + 1, at);
    }
}

/// A text without white space is one word, and white space alone is none.
pub proof fn plain_text_is_one_word(text: Seq<char>)
    ensures
        no_space(text) && text.len() > 0 ==> words(text) == seq![text],
        all_space(text) ==> words(text) == Seq::<Seq<char>>::empty(),
{
    if all_space(text) {
        space_from_at(text, false, 0, text.len() as int);
    }
    if no_space(text) && text.len() > 0 {
        space_from_at(text, false, 0, 0);
        space_from_at(text, true, 0, text.len() as int);
        let rest = text.skip(text.len() as int);
        assert(words(rest) =~= Seq::<Seq<char>>::empty());
        assert(text.subrange(0, text.len() as int) =~= text);
        assert(words(text) =~= seq![text]);
    }
}

/// White space ends a word: the words of two texts with white space between them are
/// those of the first and behind them those of the second.
pub proof fn space_ends_a_word(a: Seq<char>, space: char, b: Seq<char>)
    requires
        is_space(space),
    ensures
        words(a + seq![space] + b) == words(a) + words(b),
    decreases a.len() + b.len(),
{
    let text = a + seq![space] + b;
    space_from_stops(a, false, 0);
    let start = space_from(a, false, 0);
    if start < a.len() {
        space_from_stops(a, true, start);
        let end = space_from(a, true, start);
        assert(end > start);
        space_from_at(text, false, 0, start);
        assert(end < a.len() ==> text[end] == a[end]);
        assert(end == a.len() ==> text[end] == space);
        space_from_at(text, true, start, end);
        let rest = a.skip(end);
        assert(text.subrange(start, end) =~= a.subrange(start, end));
        assert(text.skip(end) =~= rest + seq![space] + b);
        space_ends_a_word(rest, space, b);
        assert(words(text) =~= words(a) + words(b));
    } else {
        // Everything before `b` is white space.
        let n = a.len() + 1;
        assert(words(a) =~= Seq::<Seq<char>>::empty());
        space_from_stops(b, false, 0);
        let first = space_from(b, false, 0);
        assert forall|j: int| 0 <= j < n + first implies is_space(text[j]) by {
            if j < a.len() {
                assert(text[j] == a[j]);
            } else if j >= n {
                assert(text[j] == b[j - n]);
            }
        }
        assert(first < b.len() ==> text[n + first] == b[first]);
        space_from_at(text, false, 0, n + first);
        if first < b.len() {
            space_from_stops(b, true, first);
            let end = space_from(b, true, first);
            assert forall|j: int| n + first <= j < n + end implies !is_space(text[j]) by {
                assert(text[j] == b[j - n]);
            }
            assert(end < b.len() ==> text[n + end] == b[end]);
            space_from_at(text, true, n + first, n + end);
            assert(text.subrange(n + first, n + end) =~= b.subrange(first, end));
            assert(text.skip(n + end) =~= b.skip(end));
            assert(words(text) =~= words(b));
        }
        assert(words(a) + words(b) =~= words(b));
        assert(words(text) =~= words(b));
    }
}

/// What trimming drops is white space at either end, and what it leaves has none
/// there.
pub proof fn trimming_drops_outer_space(text: Seq<char>)
    ensures
        exists|head: Seq<char>, tail: Seq<char>|
            {
                &&& text == #[trigger] (head + trimmed(text) + tail)
                &&& all_space(head)
                &&& all_space(tail)
            },
        trimmed(text).len() > 0 ==> !is_space(trimmed(text)[0]) && !is_space(trimmed(text).last()),
    decreases text.len(),
{
    let nothing = Seq::<char>::empty();
    if text.len() == 0 {
        assert(text =~= nothing + trimmed(text) + nothing);
    } else if is_space(text.last()) {
        let inner = text.drop_last();
        trimming_drops_outer_space(inner);
        let (head, tail) = choose|head: Seq<char>, tail: Seq<char>|
            {
                &&& inner == #[trigger] (head + trimmed(inner) + tail)
                &&& all_space(head)
                &&& all_space(tail)
            };
        assert(trimmed(text) == trimmed(inner));
        assert(text =~= inner.push(text.last()));
        assert(text =~= head + trimmed(text) + tail.push(text.last()));
    } else {
        space_from_stops(text, false, 0);
        let n = leading_space(text);
        assert(n < text.len()) by {
            if n == text.len() {
                assert(is_space(text[text.len() - 1]));
            }
        }
        assert(text =~= text.take(n) + trimmed(text) + nothing);
    }
}

/// Ten to the power of `n`.
pub open spec fn ten_to(n: nat) -> int
    decreases n,
{
    if n == 0 {
        1
    } else {
        10 * ten_to((n - 1) as nat)
    }
}

/// Digits count by their place: those before `n` others count ten to the power of `n`
/// times as much.
pub proof fn digits_count_by_place(a: Seq<char>, b: Seq<char>)
    ensures
        number(a + b) == number(a) * ten_to(b.len()) + number(b),
    decreases b.len(),
{
    if b.len() == 0 {
        assert(a + b =~= a);
    } else {
        digits_count_by_place(a, b.drop_last());
        assert((a + b).drop_last() =~= a + b.drop_last());
        let x = number(a);
        let p = ten_to((b.len() - 1) as nat);
        assert((x * p) * 10 == x * (10 * p)) by (nonlinear_arith);
    }
}

/// The digits are those from zero to nine, and each is worth what it says.
pub proof fn digits_are_known(c: char)
    ensures
        is_digit(c) <==> '0' as int <= c as int <= '9' as int,
        number(seq![c]) == c as int - '0' as int,
        number(Seq::<char>::empty()) == 0,
{
    assert(seq![c].drop_last() =~= Seq::<char>::empty());
    assert(number(seq![c].drop_last()) == 0);
}

/// The decimal of a number is digits alone, without a zero in front, and reads as the
/// number.
pub proof fn decimal_is_exact(n: nat)
    ensures
        decimal(n).len() > 0,
        all_digits(decimal(n)),
        decimal(n).len() > 1 ==> decimal(n)[0] != '0',
        number(decimal(n)) == n,
    decreases n,
{
    if n < 10 {
        assert(decimal(n).drop_last() =~= Seq::<char>::empty());
        assert(number(decimal(n).drop_last()) == 0);
    } else {
        let high = decimal(n / 10);
        decimal_is_exact(n / 10);
        let text = decimal(n);
        assert(text.drop_last() =~= high);
        assert(text[0] == high[0]);
        if high.len() == 1 {
            assert(high.drop_last() =~= Seq::<char>::empty());
            assert(number(high.drop_last()) == 0);
        }
        assert forall|i: int| 0 <= i < text.len() implies is_digit(#[trigger] text[i]) by {
            if i < text.len() - 1 {
                assert(text[i] == high[i]);
            }
        }
    }
}

/// A signed decimal is the decimal, with a minus in front of a negative number.
pub proof fn signed_decimal_is_exact(n: int)
    ensures
        n >= 0 ==> signed_decimal(n) == decimal(n as nat),
        n < 0 ==> signed_decimal(n)[0] == '-' && signed_decimal(n).skip(1) == decimal((-n) as nat),
{
    if n < 0 {
        assert(signed_decimal(n).skip(1) =~= decimal((-n) as nat));
    }
}

proof fn digits_are_not_negative(digits: Seq<char>)
    requires
        all_digits(digits),
    ensures
        number(digits) >= 0,
    decreases digits.len(),
{
    if digits.len() > 0 {
        digits_are_not_negative(digits.drop_last());
        assert(is_digit(digits[digits.len() - 1]));
    }
}

/// Every number that fits is read from its decimal, with or without a plus in front;
/// a text is read as a number only where its digits are that number.
pub proof fn numbers_are_read_back(n: u64, text: Seq<char>)
    ensures
        parsed_u64(decimal(n as nat)) == Some(n),
        parsed_u64(seq!['+'] + decimal(n as nat)) == Some(n),
        parsed_u64(text) == Some(n) <==> {
            ||| text.len() > 0 && all_digits(text) && number(text) == n
            ||| text.len() > 1 && text[0] == '+' && all_digits(text.skip(1)) && number(
                text.skip(1),
            ) == n
        },
{
    let digits = decimal(n as nat);
    decimal_is_exact(n as nat);
    assert(is_digit(digits[0]));
    assert((seq!['+'] + digits).skip(1) =~= digits);
    if text.len() > 0 && all_digits(text) {
        assert(is_digit(text[0]));
        digits_are_not_negative(text);
    }
    if text.len() > 0 && all_digits(text.skip(1)) {
        digits_are_not_negative(text.skip(1));
    }
}

} // verus!
