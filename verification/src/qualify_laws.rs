//! What a qualification accepts.
use crate::qualify::{
    claim, conflicts, escaped_fault, file_fault, has_one_winner, listing_fault, numbered, padded,
    wins, EscapedFacts, ListingFacts, PutOutcome, ReplicaFile, LARGE_PART, MAX_PAGES,
    REPLICA_PARTS_FROM, STABLE_KEYS,
};
use crate::text::{all_digits, decimal, is_digit, number, views};
use crate::text_laws::{decimal_is_exact, digits_count_by_place, ten_to};
use vstd::prelude::*;

verus! {

proof fn digits_bound_the_number(digits: Seq<char>)
    requires
        all_digits(digits),
    ensures
        0 <= number(digits) < ten_to(digits.len()),
        digits.len() > 0 && digits[0] != '0' ==> ten_to((digits.len() - 1) as nat) <= number(digits),
    decreases digits.len(),
{
    if digits.len() > 0 {
        let high = digits.drop_last();
        digits_bound_the_number(high);
        assert(is_digit(digits[digits.len() - 1]));
        if high.len() > 0 {
            assert(high[0] == digits[0]);
        } else {
            assert(is_digit(digits[0]));
            assert(number(high) == 0);
        }
    }
}

/// A padded number has four digits where it needs no more, and reads as the number.
pub proof fn padding_keeps_the_number(n: nat)
    ensures
        all_digits(padded(n)),
        number(padded(n)) == n,
        n < 10_000 ==> padded(n).len() == 4,
        n >= 1000 ==> padded(n) == decimal(n),
{
    reveal_strlit("000");
    reveal_strlit("00");
    reveal_strlit("0");
    let digits = decimal(n);
    decimal_is_exact(n);
    digits_bound_the_number(digits);
    assert(ten_to(0) == 1 && ten_to(1) == 10 && ten_to(2) == 100 && ten_to(3) == 1000 && ten_to(4)
        == 10_000) by {
        reveal_with_fuel(ten_to, 6);
    }
    if digits.len() >= 5 {
        powers_grow(4, (digits.len() - 1) as nat);
    }
    if n > 0 {
        assert(digits[0] != '0') by {
            if digits.len() == 1 && digits[0] == '0' {
                assert(digits.drop_last() =~= Seq::<char>::empty());
                assert(number(digits.drop_last()) == 0);
            }
        }
    }
    let zeros = if n < 10 {
        "000"@
    } else if n < 100 {
        "00"@
    } else if n < 1000 {
        "0"@
    } else {
        Seq::<char>::empty()
    };
    assert(padded(n) =~= zeros + digits);
    digits_count_by_place(zeros, digits);
    zeros_are_nothing(zeros);
    assert(0 * ten_to(digits.len()) == 0);
    assert forall|i: int| 0 <= i < padded(n).len() implies is_digit(#[trigger] padded(n)[i]) by {
        if i >= zeros.len() {
            assert(is_digit(digits[i - zeros.len()]));
        }
    }
    if n < 10_000 {
        assert(digits.len() <= 4);
        if 10 <= n {
            assert(digits.len() >= 2);
        }
        if 100 <= n {
            assert(digits.len() >= 3);
        }
        if 1000 <= n {
            assert(digits.len() >= 4);
        }
        if n < 10 {
            assert(digits.len() == 1);
        } else if n < 100 {
            if digits.len() > 2 {
                powers_grow(2, (digits.len() - 1) as nat);
            }
        } else if n < 1000 {
            if digits.len() > 3 {
                powers_grow(3, (digits.len() - 1) as nat);
            }
        }
    }
}

proof fn powers_grow(a: nat, b: nat)
    requires
        a <= b,
    ensures
        0 < ten_to(a) <= ten_to(b),
    decreases b,
{
    if b > 0 {
        if a < b {
            powers_grow(a, (b - 1) as nat);
        } else {
            powers_grow((a - 1) as nat, (b - 1) as nat);
        }
    }
}

proof fn zeros_are_nothing(zeros: Seq<char>)
    requires
        forall|i: int| 0 <= i < zeros.len() ==> #[trigger] zeros[i] == '0',
    ensures
        number(zeros) == 0,
    decreases zeros.len(),
{
    if zeros.len() > 0 {
        assert(zeros[zeros.len() - 1] == '0');
        zeros_are_nothing(zeros.drop_last());
    }
}

/// A listing qualifies exactly where it and the pages of the walk are the two hundred
/// and eleven numbered keys in order, the keys behind an offset are those behind the
/// key with the number one hundred, a page behind it has the first three of them, and
/// the page behind the mutations is the expected one.
pub proof fn qualified_listings_are_whole(facts: ListingFacts)
    ensures
        listing_fault(facts) is None <==> {
            let prefix = facts.prefix@;
            &&& views(facts.recursive@) == Seq::new(211, |i: int| prefix + padded(i as nat))
            &&& views(facts.after_offset@) == Seq::new(
                110,
                |i: int| prefix + padded((101 + i) as nat),
            )
            &&& views(facts.paged@) == Seq::new(211, |i: int| prefix + padded(i as nat))
            &&& facts.raw_offset matches Some(page) ==> views(page@) == Seq::new(
                3,
                |i: int| prefix + padded((101 + i) as nat),
            )
            &&& views(facts.continuation@) == views(facts.expected_continuation@)
        },
{
    let prefix = facts.prefix@;
    let all = numbered(prefix, 211);
    assert(all =~= Seq::new(211, |i: int| prefix + padded(i as nat)));
    assert(all.skip(101) =~= Seq::new(110, |i: int| prefix + padded((101 + i) as nat)));
    assert(all.subrange(101, 104) =~= Seq::new(3, |i: int| prefix + padded((101 + i) as nat)));
}

/// A key that must be escaped qualifies exactly where a read tells it, its listing
/// holds it alone, the directory and the page hold its parent alone, and it can be
/// read and deleted by the key that was listed.
pub proof fn qualified_keys_come_back(facts: EscapedFacts)
    ensures
        escaped_fault(facts) is None <==> {
            &&& facts.told@ == facts.key@
            &&& views(facts.listed@) == seq![facts.key@]
            &&& views(facts.grouped@) == seq![facts.parent@]
            &&& views(facts.paged@) == seq![facts.parent@]
            &&& facts.read_back
            &&& facts.gone
        },
{
}

/// A replica file qualifies exactly where it comes back with the bytes that were
/// written, whole and in both of its ranges.
pub proof fn qualified_files_come_back(file: ReplicaFile)
    requires
        file.written@.len() >= 288,
    ensures
        file_fault(file) is None <==> {
            &&& file.whole@ == file.written@
            &&& file.range@.len() == 123
            &&& forall|i: int| 0 <= i < 123 ==> #[trigger] file.range@[i] == file.written@[17 + i]
            &&& file.paged@.len() == 257
            &&& forall|i: int| 0 <= i < 257 ==> #[trigger] file.paged@[i] == file.written@[31 + i]
        },
{
    let w = file.written@;
    if file_fault(file) is None {
        assert forall|i: int| 0 <= i < 123 implies #[trigger] file.range@[i] == w[17 + i] by {
            assert(w.subrange(17, 140)[i] == w[17 + i]);
        }
        assert forall|i: int| 0 <= i < 257 implies #[trigger] file.paged@[i] == w[31 + i] by {
            assert(w.subrange(31, 288)[i] == w[31 + i]);
        }
    }
    if file.range@.len() == 123 && forall|i: int|
        0 <= i < 123 ==> #[trigger] file.range@[i] == w[17 + i] {
        assert(file.range@ =~= w.subrange(17, 140));
    }
    if file.paged@.len() == 257 && forall|i: int|
        0 <= i < 257 ==> #[trigger] file.paged@[i] == w[31 + i] {
        assert(file.paged@ =~= w.subrange(31, 288));
    }
}

/// The counts of a race are those of its outcomes.
pub proof fn outcomes_are_counted(outcomes: Seq<PutOutcome>, n: nat)
    requires
        n <= outcomes.len(),
    ensures
        wins(outcomes, n) == outcomes.take(n as int).filter(|o: PutOutcome| o is Won).len(),
        conflicts(outcomes, n) == outcomes.take(n as int).filter(
            |o: PutOutcome| o is Conflict,
        ).len(),
    decreases n,
{
    reveal(Seq::filter);
    if n > 0 {
        outcomes_are_counted(outcomes, (n - 1) as nat);
        assert(outcomes.take(n as int).drop_last() =~= outcomes.take(n - 1));
    }
}

/// A race has at most one winner, who won while every other writer was in conflict.
pub proof fn a_winner_stands_alone(outcomes: Seq<PutOutcome>, a: int, b: int)
    requires
        has_one_winner(outcomes, a),
    ensures
        0 <= a < outcomes.len(),
        outcomes[a] is Won,
        has_one_winner(outcomes, b) ==> a == b,
        0 <= b < outcomes.len() && b != a ==> outcomes[b] is Conflict,
{
}

/// A writer of a race writes its own number.
pub proof fn claims_differ(a: nat, b: nat)
    ensures
        claim(a) == "claimant-"@ + decimal(a),
        claim(a) == claim(b) ==> a == b,
{
    decimal_is_exact(a);
    decimal_is_exact(b);
    if claim(a) == claim(b) {
        let n = "claimant-"@.len() as int;
        assert(claim(a).skip(n) =~= decimal(a));
        assert(claim(b).skip(n) =~= decimal(b));
    }
}

/// The figures of a qualification.
pub proof fn figures_of_a_qualification()
    ensures
        MAX_PAGES == 100,
        LARGE_PART == 8 * 1024 * 1024,
        STABLE_KEYS == 211,
        REPLICA_PARTS_FROM == 5 * 1024 * 1024,
{
}

} // verus!
