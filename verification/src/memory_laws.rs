//! What the figures of memory mean.
use crate::memory::{
    file_number, finite_limit, inactive_bytes, less, line_value, memory_of, resident_pages,
    stat_value, value_from, DEFAULT_PAGE_BYTES, NO_LIMIT_BYTES,
};
use crate::text::{
    decimal, index_from, index_from_is_first, is_digit, is_space, space_from, split, trimmed,
    words,
};
use crate::text_laws::{
    decimal_is_exact, no_space, numbers_are_read_back, plain_text_is_one_word, space_ends_a_word,
};
use vstd::prelude::*;

verus! {

/// What is left of a figure is the difference, and nothing where there is none.
pub proof fn difference_stops_at_nothing(a: u64, b: u64)
    ensures
        a >= b ==> less(a, b) + b == a,
        a < b ==> less(a, b) == 0,
{
}

/// The working set is the charge without what can be reclaimed; where more can be
/// reclaimed than is charged, the readings do not fit and it is the whole charge.
pub proof fn working_set_is_not_reclaimable(current: u64, inactive: u64)
    ensures
        memory_of(current, inactive).current_bytes == current,
        inactive <= current ==> memory_of(current, inactive).working_set_bytes + inactive
            == current,
        inactive > current ==> memory_of(current, inactive).working_set_bytes == current,
{
}

proof fn decimal_has_no_space(n: nat)
    ensures
        decimal(n).len() > 0,
        no_space(decimal(n)),
{
    decimal_is_exact(n);
    assert forall|i: int| 0 <= i < decimal(n).len() implies !is_space(#[trigger] decimal(n)[i]) by {
        assert(is_digit(decimal(n)[i]));
    }
}

/// A line of a key and a number has that number for that key, and none for another.
pub proof fn line_has_its_number(key: Seq<char>, other: Seq<char>, n: u64)
    requires
        key.len() > 0,
        no_space(key),
    ensures
        line_value(key + seq![' '] + decimal(n as nat), key) == Some(n),
        other != key ==> line_value(key + seq![' '] + decimal(n as nat), other) is None,
{
    let digits = decimal(n as nat);
    decimal_has_no_space(n as nat);
    assert(is_space(' '));
    space_ends_a_word(key, ' ', digits);
    plain_text_is_one_word(key);
    plain_text_is_one_word(digits);
    numbers_are_read_back(n, digits);
    let fields = words(key + seq![' '] + digits);
    assert(fields =~= seq![key, digits]);
    assert(fields[0] == key && fields[1] == digits);
}

/// The pieces of a text behind a line without the separator are that line and the
/// pieces of the rest.
proof fn first_line_splits_off(line: Seq<char>, rest: Seq<char>)
    requires
        !line.contains('\n'),
    ensures
        split(line + seq!['\n'] + rest, '\n') == seq![line] + split(rest, '\n'),
        split(line, '\n') == seq![line],
{
    let text = line + seq!['\n'] + rest;
    let n = line.len() as int;
    index_from_is_first(text, '\n', 0);
    let i = index_from(text, '\n', 0);
    if i < n {
        assert(text[i] == line[i]);
        assert(line.contains(line[i]));
    }
    if i > n {
        assert(text[n] == '\n');
    }
    assert(text.take(n) =~= line);
    assert(text.skip(n + 1) =~= rest);
    index_from_is_first(line, '\n', 0);
    let j = index_from(line, '\n', 0);
    if j < n {
        assert(line.contains(line[j]));
    }
}

proof fn values_shift(lines: Seq<Seq<char>>, first: Seq<char>, from: int, key: Seq<char>)
    requires
        0 <= from <= lines.len(),
    ensures
        value_from(seq![first] + lines, from + 1, key) == value_from(lines, from, key),
    decreases lines.len() - from,
{
    let all = seq![first] + lines;
    if from < lines.len() {
        assert(all[from + 1] == lines[from]);
        values_shift(lines, first, from + 1, key);
    }
}

/// A statistics text is read line by line: the first line that has a value for the key
/// gives it, and a line that has none is passed over, wherever it stands and however
/// many there are.
pub proof fn statistics_are_read_by_line(line: Seq<char>, rest: Seq<char>, key: Seq<char>)
    requires
        !line.contains('\n'),
    ensures
        line_value(line, key) matches Some(n) ==> stat_value(line + seq!['\n'] + rest, key)
            == Some(n),
        line_value(line, key) is None ==> stat_value(line + seq!['\n'] + rest, key) == stat_value(
            rest,
            key,
        ),
        stat_value(line, key) == line_value(line, key),
{
    first_line_splits_off(line, rest);
    let lines = split(rest, '\n');
    let all = seq![line] + lines;
    assert(all[0] == line);
    values_shift(lines, line, 0, key);
    let alone = seq![line];
    assert(alone[0] == line);
    assert(value_from(alone, 1, key) is None);
}

/// What can be reclaimed is the figure of the key; the hierarchical one falls back to
/// the local one, and what no line tells is nothing.
pub proof fn reclaimable_is_told_by_its_key(stat: Seq<char>, key: Seq<char>)
    ensures
        stat_value(stat, key) matches Some(n) ==> inactive_bytes(stat, key) == n,
        stat_value(stat, key) is None && key != "total_inactive_file"@ ==> inactive_bytes(stat, key)
            == 0,
        stat_value(stat, "total_inactive_file"@) is None ==> (stat_value(
            stat,
            "inactive_file"@,
        ) matches Some(n) ==> inactive_bytes(stat, "total_inactive_file"@) == n),
        stat_value(stat, "total_inactive_file"@) is None && stat_value(
            stat,
            "inactive_file"@,
        ) is None ==> inactive_bytes(stat, "total_inactive_file"@) == 0,
{
}

/// A file that holds a decimal and the end of its line holds that number, and a file
/// that is not there holds none.
pub proof fn file_holds_its_number(text: String, n: u64)
    requires
        text@ == decimal(n as nat) || text@ == decimal(n as nat).push('\n'),
    ensures
        file_number(Some(text)) == Some(n),
        file_number(None) is None,
{
    let digits = decimal(n as nat);
    decimal_has_no_space(n as nat);
    numbers_are_read_back(n, digits);
    assert(!is_space(digits[digits.len() - 1]));
    assert(!is_space(digits[0]));
    assert(space_from(digits, false, 0) == 0);
    assert(digits.skip(0) =~= digits);
    assert(trimmed(digits) == digits);
    assert(is_space('\n'));
    let line = digits.push('\n');
    assert(line.drop_last() =~= digits);
    assert(trimmed(line) == trimmed(digits));
}

/// A limit counts where it is below a pebibyte; from there on it stands for none.
pub proof fn limits_below_a_pebibyte_count(text: Option<String>)
    ensures
        file_number(text) matches Some(n) ==> (finite_limit(text) == Some(n) <==> n
            < 1024 * 1024 * 1024 * 1024 * 1024),
        file_number(text) matches Some(n) ==> (finite_limit(text) is None <==> n
            >= 1024 * 1024 * 1024 * 1024 * 1024),
        file_number(text) is None ==> finite_limit(text) is None,
        NO_LIMIT_BYTES == 1024 * 1024 * 1024 * 1024 * 1024,
        DEFAULT_PAGE_BYTES == 4096,
{
}

/// The resident pages are the second number of a status text, whatever stands behind.
pub proof fn resident_pages_come_second(size: Seq<char>, pages: u64, rest: Seq<char>)
    requires
        size.len() > 0,
        no_space(size),
    ensures
        resident_pages(Some(size + seq![' '] + decimal(pages as nat))) == Some(pages),
        resident_pages(Some(size + seq![' '] + decimal(pages as nat) + seq![' '] + rest)) == Some(
            pages,
        ),
        resident_pages(Some(size)) is None,
        resident_pages(None) is None,
{
    let digits = decimal(pages as nat);
    let two = size + seq![' '] + digits;
    decimal_has_no_space(pages as nat);
    assert(is_space(' '));
    plain_text_is_one_word(size);
    plain_text_is_one_word(digits);
    numbers_are_read_back(pages, digits);
    space_ends_a_word(size, ' ', digits);
    space_ends_a_word(two, ' ', rest);
    assert(words(two) =~= seq![size, digits]);
    assert(words(two)[1] == digits);
    assert(words(two + seq![' '] + rest) =~= seq![size, digits] + words(rest));
    assert(words(two + seq![' '] + rest)[1] == digits);
    assert(words(size).len() == 1);
}

} // verus!
