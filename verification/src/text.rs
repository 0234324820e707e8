//! Text as sequences of characters: conversion, order, search and decimals.
use vstd::prelude::*;

verus! {

/// `String::push` appends one character to the end of the text.
pub assume_specification[ String::push ](text: &mut String, c: char)
    ensures
        final(text)@ == old(text)@.push(c),
;

/// The text begins with `prefix`.
pub open spec fn starts_with(text: Seq<char>, prefix: Seq<char>) -> bool {
    prefix.len() <= text.len() && text.take(prefix.len() as int) == prefix
}

/// The text ends with `suffix`.
pub open spec fn ends_with(text: Seq<char>, suffix: Seq<char>) -> bool {
    suffix.len() <= text.len() && text.skip(text.len() - suffix.len()) == suffix
}

/// Scalar order: the order of UTF-8 bytes, and of a binary text collation.
pub open spec fn before(a: Seq<char>, b: Seq<char>) -> bool
    decreases a.len(),
{
    if b.len() == 0 {
        false
    } else if a.len() == 0 {
        true
    } else if a[0] == b[0] {
        before(a.skip(1), b.skip(1))
    } else {
        (a[0] as int) < (b[0] as int)
    }
}

/// The code point of a character.
pub fn code_point(c: char) -> (code: u32)
    ensures
        code == c as int,
        code <= 0x10ffff,
        code < 0xd800 || code > 0xdfff,
{
    c as u32
}

/// The characters of a text.
pub fn to_chars(text: &str) -> (chars: Vec<char>)
    ensures
        chars@ == text@,
{
    let mut chars: Vec<char> = Vec::new();
    for c in it: text.chars()
        invariant
            chars@ == it.seq().take(it.index() as int),
            it.seq() == text@,
    {
        chars.push(c);
    }
    assert(text@.take(text@.len() as int) == text@);
    chars
}

/// The text made of the characters from `from` up to `to`.
pub fn slice_text(chars: &Vec<char>, from: usize, to: usize) -> (text: String)
    requires
        from <= to <= chars@.len(),
    ensures
        text@ == chars@.subrange(from as int, to as int),
{
    let mut text = String::new();
    let mut i: usize = from;
    while i < to
        invariant
            from <= i <= to <= chars@.len(),
            text@ == chars@.subrange(from as int, i as int),
        decreases to - i,
    {
        text.push(chars[i]);
        i = i + 1;
        assert(chars@.subrange(from as int, i as int) == chars@.subrange(
            from as int,
            i - 1,
        ).push(chars@[i - 1]));
    }
    text
}

/// Two texts hold the same characters.
pub fn same_text(a: &str, b: &str) -> (same: bool)
    ensures
        same == (a@ == b@),
{
    let left = to_chars(a);
    let right = to_chars(b);
    same_chars(&left, &right)
}

/// Two character runs are equal.
pub fn same_chars(a: &Vec<char>, b: &Vec<char>) -> (same: bool)
    ensures
        same == (a@ == b@),
{
    if a.len() != b.len() {
        return false;
    }
    let mut i: usize = 0;
    while i < a.len()
        invariant
            i <= a@.len(),
            a@.len() == b@.len(),
            forall|j: int| 0 <= j < i ==> a@[j] == b@[j],
        decreases a@.len() - i,
    {
        if a[i] != b[i] {
            return false;
        }
        i = i + 1;
    }
    assert(a@ =~= b@);
    true
}

/// Whether `text` begins with `prefix`.
pub fn text_starts_with(text: &str, prefix: &str) -> (yes: bool)
    ensures
        yes == starts_with(text@, prefix@),
{
    let whole = to_chars(text);
    let head = to_chars(prefix);
    if head.len() > whole.len() {
        return false;
    }
    let mut i: usize = 0;
    while i < head.len()
        invariant
            i <= head@.len() <= whole@.len(),
            forall|j: int| 0 <= j < i ==> head@[j] == whole@[j],
        decreases head@.len() - i,
    {
        if head[i] != whole[i] {
            assert(whole@.take(head@.len() as int)[i as int] != head@[i as int]);
            return false;
        }
        i = i + 1;
    }
    assert(whole@.take(head@.len() as int) =~= head@);
    true
}

/// Whether `text` ends with `suffix`.
pub fn text_ends_with(text: &str, suffix: &str) -> (yes: bool)
    ensures
        yes == ends_with(text@, suffix@),
{
    let whole = to_chars(text);
    let tail = to_chars(suffix);
    if tail.len() > whole.len() {
        return false;
    }
    let start: usize = whole.len() - tail.len();
    let mut i: usize = 0;
    while i < tail.len()
        invariant
            i <= tail@.len() <= whole@.len(),
            start == whole@.len() - tail@.len(),
            forall|j: int| 0 <= j < i ==> tail@[j] == whole@[start + j],
        decreases tail@.len() - i,
    {
        if tail[i] != whole[start + i] {
            assert(whole@.skip(start as int)[i as int] != tail@[i as int]);
            return false;
        }
        i = i + 1;
    }
    assert(whole@.skip(start as int) =~= tail@);
    true
}

/// Whether `a` comes strictly before `b`.
pub fn text_before(a: &str, b: &str) -> (yes: bool)
    ensures
        yes == before(a@, b@),
{
    let left = to_chars(a);
    let right = to_chars(b);
    let mut i: usize = 0;
    assert(left@.skip(0) =~= left@);
    assert(right@.skip(0) =~= right@);
    while i < left.len() && i < right.len()
        invariant
            i <= left@.len(),
            i <= right@.len(),
            before(left@, right@) == before(left@.skip(i as int), right@.skip(i as int)),
        decreases left@.len() - i,
    {
        let l: char = left[i];
        let r: char = right[i];
        if l != r {
            return code_point(l) < code_point(r);
        }
        assert(left@.skip(i as int).skip(1) =~= left@.skip(i + 1));
        assert(right@.skip(i as int).skip(1) =~= right@.skip(i + 1));
        i = i + 1;
    }
    i < right.len()
}

/// No text comes before itself.
pub proof fn before_is_irreflexive(a: Seq<char>)
    ensures
        !before(a, a),
    decreases a.len(),
{
    if a.len() > 0 {
        before_is_irreflexive(a.skip(1));
    }
}

/// The order is transitive.
pub proof fn before_is_transitive(a: Seq<char>, b: Seq<char>, c: Seq<char>)
    requires
        before(a, b),
        before(b, c),
    ensures
        before(a, c),
    decreases a.len(),
{
    if a.len() > 0 && a[0] == b[0] && b[0] == c[0] {
        before_is_transitive(a.skip(1), b.skip(1), c.skip(1));
    }
}

/// Two different texts are ordered one way or the other.
pub proof fn before_is_total(a: Seq<char>, b: Seq<char>)
    ensures
        a == b || before(a, b) || before(b, a),
    decreases a.len(),
{
    if a.len() > 0 && b.len() > 0 && a[0] == b[0] {
        before_is_total(a.skip(1), b.skip(1));
        if a.skip(1) == b.skip(1) {
            assert(a =~= seq![a[0]] + a.skip(1));
            assert(b =~= seq![b[0]] + b.skip(1));
        }
    } else if a.len() == 0 && b.len() == 0 {
        assert(a =~= b);
    }
}

/// The order never holds both ways.
pub proof fn before_is_asymmetric(a: Seq<char>, b: Seq<char>)
    requires
        before(a, b),
    ensures
        !before(b, a),
        a != b,
{
    before_is_irreflexive(a);
    if before(b, a) {
        before_is_transitive(a, b, a);
    }
}

/// A text never comes before one of its own prefixes.
pub proof fn prefix_is_not_after(text: Seq<char>, prefix: Seq<char>)
    requires
        starts_with(text, prefix),
    ensures
        !before(text, prefix),
    decreases prefix.len(),
{
    if prefix.len() > 0 {
        assert(text.take(prefix.len() as int)[0] == prefix[0]);
        assert(text.skip(1).take(prefix.len() - 1) =~= text.take(prefix.len() as int).skip(1));
        prefix_is_not_after(text.skip(1), prefix.skip(1));
    }
}

/// The position of the first `c` at or after `from`, or the length.
pub open spec fn index_from(text: Seq<char>, c: char, from: int) -> int
    decreases text.len() - from,
{
    if from >= text.len() || text[from] == c {
        from
    } else {
        index_from(text, c, from + 1)
    }
}

/// The pieces between the separators; one more piece than there are separators.
pub open spec fn split(text: Seq<char>, separator: char) -> Seq<Seq<char>>
    decreases text.len(),
    via split_decreases
{
    let i = index_from(text, separator, 0);
    if i >= text.len() {
        seq![text]
    } else {
        seq![text.take(i)] + split(text.skip(i + 1), separator)
    }
}

#[via_fn]
proof fn split_decreases(text: Seq<char>, separator: char) {
    index_from_is_first(text, separator, 0);
}

/// The first position is where it says, and nothing before it matches.
pub proof fn index_from_is_first(text: Seq<char>, c: char, from: int)
    requires
        0 <= from <= text.len(),
    ensures
        from <= index_from(text, c, from) <= text.len(),
        index_from(text, c, from) < text.len() ==> text[index_from(text, c, from)] == c,
        forall|j: int| from <= j < index_from(text, c, from) ==> text[j] != c,
    decreases text.len() - from,
{
    if from < text.len() && text[from] != c {
        index_from_is_first(text, c, from + 1);
    }
}

/// A first position can be told by what surrounds it.
proof fn index_from_is(text: Seq<char>, c: char, from: int, at: int)
    requires
        0 <= from <= at <= text.len(),
        at < text.len() ==> text[at] == c,
        forall|j: int| from <= j < at ==> text[j] != c,
    ensures
        index_from(text, c, from) == at,
    decreases at - from,
{
    if from < at {
        index_from_is(text, c, from + 1, at);
    }
}

/// The texts of a list.
pub open spec fn views(list: Seq<String>) -> Seq<Seq<char>> {
    list.map_values(|s: String| s@)
}

/// Cut a text at every `separator`.
pub fn split_on(text: &str, separator: char) -> (pieces: Vec<String>)
    ensures
        views(pieces@) == split(text@, separator),
{
    let chars = to_chars(text);
    let mut pieces: Vec<String> = Vec::new();
    let mut start: usize = 0;
    let mut i: usize = 0;
    assert(chars@.skip(0) =~= chars@);
    while i < chars.len()
        invariant
            start <= i <= chars@.len(),
            forall|j: int| start <= j < i ==> chars@[j] != separator,
            split(chars@, separator) == views(pieces@) + split(
                chars@.skip(start as int),
                separator,
            ),
        decreases chars@.len() - i,
    {
        if chars[i] == separator {
            let ghost rest = chars@.skip(start as int);
            let ghost done = pieces@;
            proof {
                index_from_is(rest, separator, 0, i - start);
                assert(rest.skip(i - start + 1) =~= chars@.skip(i + 1));
            }
            let piece = slice_text(&chars, start, i);
            assert(piece@ =~= rest.take(i - start));
            pieces.push(piece);
            assert(views(pieces@) =~= views(done).push(piece@));
            assert(views(done) + (seq![piece@] + split(chars@.skip(i + 1), separator)) =~= views(
                pieces@,
            ) + split(chars@.skip(i + 1), separator));
            start = i + 1;
        }
        i = i + 1;
    }
    let ghost rest = chars@.skip(start as int);
    let ghost done = pieces@;
    proof {
        index_from_is(rest, separator, 0, rest.len() as int);
    }
    let piece = slice_text(&chars, start, chars.len());
    assert(piece@ =~= rest);
    pieces.push(piece);
    assert(views(pieces@) =~= views(done) + seq![rest]);
    pieces
}

/// The characters with the Unicode `White_Space` property.
pub open spec fn is_space(c: char) -> bool {
    let n = c as int;
    ||| 0x09 <= n <= 0x0d
    ||| n == 0x20
    ||| n == 0x85
    ||| n == 0xa0
    ||| n == 0x1680
    ||| 0x2000 <= n <= 0x200a
    ||| n == 0x2028
    ||| n == 0x2029
    ||| n == 0x202f
    ||| n == 0x205f
    ||| n == 0x3000
}

/// Whether a character is white space.
pub fn char_is_space(c: char) -> (yes: bool)
    ensures
        yes == is_space(c),
{
    let n: u32 = code_point(c);
    (0x09 <= n && n <= 0x0d) || n == 0x20 || n == 0x85 || n == 0xa0 || n == 0x1680 || (0x2000 <= n
        && n <= 0x200a) || n == 0x2028 || n == 0x2029 || n == 0x202f || n == 0x205f || n == 0x3000
}

/// The position of the first character at or after `from` that is (or is not)
/// white space, or the length.
pub open spec fn space_from(text: Seq<char>, wanted: bool, from: int) -> int
    decreases text.len() - from,
{
    if from >= text.len() || is_space(text[from]) == wanted {
        from
    } else {
        space_from(text, wanted, from + 1)
    }
}

proof fn space_from_is_first(text: Seq<char>, wanted: bool, from: int)
    requires
        0 <= from <= text.len(),
    ensures
        from <= space_from(text, wanted, from) <= text.len(),
        space_from(text, wanted, from) < text.len() ==> is_space(
            text[space_from(text, wanted, from)],
        ) == wanted,
    decreases text.len() - from,
{
    if from < text.len() && is_space(text[from]) != wanted {
        space_from_is_first(text, wanted, from + 1);
    }
}

proof fn space_from_is(text: Seq<char>, wanted: bool, from: int, at: int)
    requires
        0 <= from <= at <= text.len(),
        at < text.len() ==> is_space(text[at]) == wanted,
        forall|j: int| from <= j < at ==> is_space(text[j]) != wanted,
    ensures
        space_from(text, wanted, from) == at,
    decreases at - from,
{
    if from < at {
        space_from_is(text, wanted, from + 1, at);
    }
}

/// The maximal runs of characters that are not white space.
pub open spec fn words(text: Seq<char>) -> Seq<Seq<char>>
    decreases text.len(),
    via words_decreases
{
    let start = space_from(text, false, 0);
    if start >= text.len() {
        Seq::empty()
    } else {
        let end = space_from(text, true, start);
        seq![text.subrange(start, end)] + words(text.skip(end))
    }
}

#[via_fn]
proof fn words_decreases(text: Seq<char>) {
    space_from_is_first(text, false, 0);
    let start = space_from(text, false, 0);
    if start < text.len() {
        space_from_is_first(text, true, start);
        assert(space_from(text, true, start) == space_from(text, true, start + 1));
        space_from_is_first(text, true, start + 1);
    }
}

/// Cut a text into its words.
pub fn split_words(text: &str) -> (pieces: Vec<String>)
    ensures
        views(pieces@) == words(text@),
{
    let chars = to_chars(text);
    let mut pieces: Vec<String> = Vec::new();
    let mut i: usize = 0;
    assert(chars@.skip(0) =~= chars@);
    assert(views(pieces@) + words(chars@) =~= words(chars@));
    while i < chars.len()
        invariant
            i <= chars@.len(),
            words(chars@) == views(pieces@) + words(chars@.skip(i as int)),
        decreases chars@.len() - i,
    {
        let ghost rest = chars@.skip(i as int);
        let ghost from = i as int;
        while i < chars.len() && char_is_space(chars[i])
            invariant
                from <= i <= chars@.len(),
                forall|j: int| from <= j < i ==> is_space(chars@[j]),
            decreases chars@.len() - i,
        {
            i = i + 1;
        }
        let start: usize = i;
        proof {
            space_from_is(rest, false, 0, start - from);
        }
        while i < chars.len() && !char_is_space(chars[i])
            invariant
                start <= i <= chars@.len(),
                forall|j: int| start <= j < i ==> !is_space(chars@[j]),
            decreases chars@.len() - i,
        {
            i = i + 1;
        }
        proof {
            space_from_is(rest, true, start - from, i - from);
            assert(rest.skip(i - from) =~= chars@.skip(i as int));
        }
        if start < i {
            let ghost done = pieces@;
            let piece = slice_text(&chars, start, i);
            assert(piece@ =~= rest.subrange(start - from, i - from));
            pieces.push(piece);
            assert(views(pieces@) =~= views(done).push(piece@));
            assert(views(done) + (seq![piece@] + words(chars@.skip(i as int))) =~= views(pieces@)
                + words(chars@.skip(i as int)));
        } else {
            assert(words(chars@.skip(i as int)) =~= Seq::<Seq<char>>::empty());
        }
    }
    assert(words(chars@.skip(i as int)) =~= Seq::<Seq<char>>::empty());
    assert(views(pieces@) + Seq::<Seq<char>>::empty() =~= views(pieces@));
    pieces
}

/// The length of the leading white space.
pub open spec fn leading_space(text: Seq<char>) -> int {
    space_from(text, false, 0)
}

/// The text without white space at either end.
pub open spec fn trimmed(text: Seq<char>) -> Seq<char>
    decreases text.len(),
{
    if text.len() == 0 {
        text
    } else if is_space(text.last()) {
        trimmed(text.drop_last())
    } else {
        text.skip(leading_space(text))
    }
}

/// Drop the white space at both ends.
pub fn trim(text: &str) -> (inner: String)
    ensures
        inner@ == trimmed(text@),
{
    let chars = to_chars(text);
    let mut end: usize = chars.len();
    assert(chars@.take(end as int) =~= chars@);
    while end > 0 && char_is_space(chars[end - 1])
        invariant
            end <= chars@.len(),
            trimmed(chars@) == trimmed(chars@.take(end as int)),
        decreases end,
    {
        assert(chars@.take(end as int).drop_last() =~= chars@.take(end - 1));
        end = end - 1;
    }
    let ghost body = chars@.take(end as int);
    let mut start: usize = 0;
    while start < end && char_is_space(chars[start])
        invariant
            start <= end <= chars@.len(),
            forall|j: int| 0 <= j < start ==> is_space(chars@[j]),
        decreases end - start,
    {
        start = start + 1;
    }
    proof {
        space_from_is(body, false, 0, start as int);
        assert(body.skip(start as int) =~= chars@.subrange(start as int, end as int));
    }
    slice_text(&chars, start, end)
}

/// The character of a decimal digit.
pub open spec fn digit(d: int) -> char {
    (48 + d) as char
}

/// The decimal text of a natural number, without leading zeros.
pub open spec fn decimal(n: nat) -> Seq<char>
    decreases n,
{
    if n < 10 {
        seq![digit(n as int)]
    } else {
        decimal(n / 10).push(digit((n % 10) as int))
    }
}

/// The decimal text of an integer, with `-` before a negative one.
pub open spec fn signed_decimal(n: int) -> Seq<char> {
    if n < 0 {
        seq!['-'] + decimal((-n) as nat)
    } else {
        decimal(n as nat)
    }
}

/// A decimal digit.
pub open spec fn is_digit(c: char) -> bool {
    48 <= c as int <= 57
}

/// Every character is a decimal digit.
pub open spec fn all_digits(text: Seq<char>) -> bool {
    forall|i: int| 0 <= i < text.len() ==> is_digit(#[trigger] text[i])
}

/// The number that a run of digits denotes.
pub open spec fn number(digits: Seq<char>) -> int
    decreases digits.len(),
{
    if digits.len() == 0 {
        0
    } else {
        number(digits.drop_last()) * 10 + (digits.last() as int - 48)
    }
}

/// A text read as an unsigned 64-bit number: an optional `+` and at least one
/// digit, with a value that fits.
pub open spec fn parsed_u64(text: Seq<char>) -> Option<u64> {
    let digits = if text.len() > 0 && text[0] == '+' {
        text.skip(1)
    } else {
        text
    };
    if digits.len() == 0 || !all_digits(digits) || number(digits) > u64::MAX {
        None
    } else {
        Some(number(digits) as u64)
    }
}

/// More digits never make a smaller number.
proof fn number_grows(digits: Seq<char>, n: int)
    requires
        0 <= n <= digits.len(),
        all_digits(digits),
    ensures
        0 <= number(digits.take(n)) <= number(digits),
    decreases digits.len(),
{
    if n < digits.len() {
        assert(digits.drop_last().take(n) =~= digits.take(n));
        number_grows(digits.drop_last(), n);
    } else {
        assert(digits.take(n) =~= digits);
        if digits.len() > 0 {
            number_grows(digits.drop_last(), n - 1);
        }
    }
}

/// Read an unsigned 64-bit number.
pub fn parse_u64(text: &str) -> (parsed: Option<u64>)
    ensures
        parsed == parsed_u64(text@),
{
    let chars = to_chars(text);
    let start: usize = if chars.len() > 0 && chars[0] == '+' {
        1
    } else {
        0
    };
    if start == chars.len() {
        return None;
    }
    let ghost digits = chars@.skip(start as int);
    assert(start == 0 ==> digits =~= chars@);
    let mut n: u64 = 0;
    let mut fits: bool = true;
    let mut i: usize = start;
    assert(digits.take(0) =~= Seq::<char>::empty());
    while i < chars.len()
        invariant
            start <= i <= chars@.len(),
            all_digits(digits.take(i - start)),
            fits ==> n == number(digits.take(i - start)),
            !fits ==> number(digits.take(i - start)) > u64::MAX,
        decreases chars@.len() - i,
    {
        let c: char = chars[i];
        let code: u32 = code_point(c);
        let ghost seen = digits.take(i - start);
        let ghost next = digits.take(i + 1 - start);
        assert(next.drop_last() =~= seen);
        assert(next.last() == c);
        if code < 48 || code > 57 {
            assert(digits[i - start] == c);
            return None;
        }
        assert forall|j: int| 0 <= j < next.len() implies is_digit(#[trigger] next[j]) by {
            if j < seen.len() {
                assert(next[j] == seen[j]);
            }
        }
        let d: u64 = (code - 48) as u64;
        if fits {
            if n > 1844674407370955161 || (n == 1844674407370955161 && d > 5) {
                fits = false;
            } else {
                n = n * 10 + d;
            }
        }
        i = i + 1;
    }
    assert(digits.take(i - start) =~= digits);
    if fits {
        Some(n)
    } else {
        None
    }
}

/// Write a natural number in decimal.
fn push_decimal(text: &mut String, n: u64)
    ensures
        final(text)@ == old(text)@ + decimal(n as nat),
    decreases n,
{
    if n >= 10 {
        push_decimal(text, n / 10);
    }
    let d: u8 = (n % 10) as u8;
    let ghost before_digit = text@;
    text.push((48u8 + d) as char);
    assert(text@ =~= old(text)@ + decimal(n as nat));
}

/// The decimal text of a signed number.
pub fn decimal_text(n: i64) -> (text: String)
    ensures
        text@ == signed_decimal(n as int),
{
    let mut text = String::new();
    if n < 0 {
        text.push('-');
        let magnitude: u64 = (-(n + 1)) as u64 + 1;
        push_decimal(&mut text, magnitude);
        assert(text@ =~= signed_decimal(n as int));
    } else {
        push_decimal(&mut text, n as u64);
        assert(text@ =~= signed_decimal(n as int));
    }
    text
}

/// Reading back the decimal of a number gives the number.
proof fn decimal_reads_back(n: nat)
    ensures
        decimal(n).len() > 0,
        all_digits(decimal(n)),
        number(decimal(n)) == n,
    decreases n,
{
    if n < 10 {
        assert(decimal(n).drop_last() =~= Seq::<char>::empty());
        assert(number(decimal(n).drop_last()) == 0);
    } else {
        decimal_reads_back(n / 10);
        let text = decimal(n);
        assert(text.drop_last() =~= decimal(n / 10));
        assert forall|i: int| 0 <= i < text.len() implies is_digit(#[trigger] text[i]) by {
            if i < text.len() - 1 {
                assert(text[i] == decimal(n / 10)[i]);
            }
        }
    }
}

/// Different numbers have different decimal texts.
pub proof fn decimals_differ(a: int, b: int)
    requires
        signed_decimal(a) == signed_decimal(b),
    ensures
        a == b,
{
    if a < 0 {
        decimal_reads_back((-a) as nat);
        assert(signed_decimal(a)[0] == '-');
        assert(signed_decimal(a).skip(1) =~= decimal((-a) as nat));
    } else {
        decimal_reads_back(a as nat);
        assert(is_digit(signed_decimal(a)[0]));
    }
    if b < 0 {
        decimal_reads_back((-b) as nat);
        assert(signed_decimal(b)[0] == '-');
        assert(signed_decimal(b).skip(1) =~= decimal((-b) as nat));
    } else {
        decimal_reads_back(b as nat);
        assert(is_digit(signed_decimal(b)[0]));
    }
}

/// `needle` stands in `text` at position `at`.
pub open spec fn occurs_at(text: Seq<char>, needle: Seq<char>, at: int) -> bool {
    0 <= at && at + needle.len() <= text.len() && text.subrange(at, at + needle.len()) == needle
}

/// The first position at or after `from` where `needle` stands.
pub open spec fn find_from(text: Seq<char>, needle: Seq<char>, from: int) -> Option<int>
    decreases text.len() + 1 - from,
{
    if from + needle.len() > text.len() {
        None
    } else if occurs_at(text, needle, from) {
        Some(from)
    } else {
        find_from(text, needle, from + 1)
    }
}

/// What a search that starts at `from` finds.
pub proof fn find_is_first(text: Seq<char>, needle: Seq<char>, from: int)
    requires
        0 <= from,
    ensures
        find_from(text, needle, from) matches Some(at) ==> from <= at && occurs_at(
            text,
            needle,
            at,
        ) && forall|j: int| from <= j < at ==> !occurs_at(text, needle, j),
        find_from(text, needle, from) is None ==> forall|j: int|
            from <= j ==> !occurs_at(text, needle, j),
    decreases text.len() + 1 - from,
{
    if from + needle.len() <= text.len() && !occurs_at(text, needle, from) {
        find_is_first(text, needle, from + 1);
    }
}

/// The first position at or after `from` where `needle` stands in `text`.
pub fn find(text: &Vec<char>, needle: &Vec<char>, from: usize) -> (found: Option<usize>)
    requires
        from <= text@.len(),
    ensures
        found is Some <==> find_from(text@, needle@, from as int) is Some,
        found matches Some(at) ==> find_from(text@, needle@, from as int) == Some(at as int),
{
    if needle.len() > text.len() {
        return None;
    }
    let last: usize = text.len() - needle.len();
    if from > last {
        return None;
    }
    let mut i: usize = from;
    while i <= last
        invariant
            from <= i <= last + 1,
            last + needle@.len() == text@.len(),
            find_from(text@, needle@, from as int) == find_from(text@, needle@, i as int),
        decreases last + 1 - i,
    {
        let mut j: usize = 0;
        let mut all: bool = true;
        while j < needle.len() && all
            invariant
                j <= needle@.len(),
                i <= last,
                last + needle@.len() == text@.len(),
                all ==> forall|k: int| 0 <= k < j ==> text@[i + k] == needle@[k],
                !all ==> exists|k: int| 0 <= k < needle@.len() && text@[i + k] != needle@[k],
            decreases needle@.len() - j, all as int,
        {
            if text[i + j] != needle[j] {
                all = false;
                assert(text@[i + j] != needle@[j as int]);
            } else {
                j = j + 1;
            }
        }
        if all {
            assert(text@.subrange(i as int, i + needle@.len()) =~= needle@);
            return Some(i);
        }
        proof {
            let k = choose|k: int| 0 <= k < needle@.len() && text@[i + k] != needle@[k];
            assert(text@.subrange(i as int, i + needle@.len())[k] != needle@[k]);
        }
        i = i + 1;
    }
    None
}

} // verus!
