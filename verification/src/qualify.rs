//! What a store must show to be qualified: who wins a race, and what a walk over
//! its pages finds.
use crate::listing::text_of;
use crate::text::{before, decimal, decimal_text, same_text, text_before, views};
use crate::transfer::record::same_name;
use vstd::prelude::*;

verus! {

/// The most pages of one walk.
pub const MAX_PAGES: usize = 100;

/// The bytes of one part of the large object.
pub const LARGE_PART: u64 = 8_388_608;

/// How one of several writers of one key fared.
#[derive(Clone, Debug)]
pub enum PutOutcome {
    /// It wrote the object.
    Won { e_tag: Option<String> },
    /// Its condition was not met.
    Conflict,
    /// Something else failed.
    Failed,
}

/// Why a race does not qualify.
#[derive(Clone, Copy, Debug, PartialEq, Eq, Structural)]
pub enum RaceFault {
    /// Not exactly one writer won with every other one in conflict.
    Tally { successes: usize, conflicts: usize, failures: usize },
    /// The winner was told no ETag.
    NoEtag,
    /// A read tells another ETag than the winner was told.
    OtherGeneration,
    /// A read gives other bytes than the winner wrote.
    OtherBody,
    /// The winner was told the ETag of the object that it replaced.
    ReusedEtag,
    /// The replaced ETag still opens an update.
    StaleAccepted,
}

/// How many of the first `n` writers won.
pub open spec fn wins(outcomes: Seq<PutOutcome>, n: nat) -> nat
    decreases n,
{
    if n == 0 {
        0
    } else {
        wins(outcomes, (n - 1) as nat) + if outcomes[n - 1] is Won {
            1nat
        } else {
            0nat
        }
    }
}

/// How many of the first `n` writers were in conflict.
pub open spec fn conflicts(outcomes: Seq<PutOutcome>, n: nat) -> nat
    decreases n,
{
    if n == 0 {
        0
    } else {
        conflicts(outcomes, (n - 1) as nat) + if outcomes[n - 1] is Conflict {
            1nat
        } else {
            0nat
        }
    }
}

/// One writer won, and every other one was in conflict.
pub open spec fn has_one_winner(outcomes: Seq<PutOutcome>, winner: int) -> bool {
    &&& 0 <= winner < outcomes.len()
    &&& outcomes[winner] is Won
    &&& forall|i: int|
        0 <= i < outcomes.len() && i != winner ==> (#[trigger] outcomes[i]) is Conflict
}

/// Where one writer won and the others were in conflict, the counts say so.
proof fn one_winner_counts(outcomes: Seq<PutOutcome>, winner: int, n: nat)
    requires
        has_one_winner(outcomes, winner),
        n <= outcomes.len(),
    ensures
        wins(outcomes, n) == if winner < n {
            1nat
        } else {
            0nat
        },
        wins(outcomes, n) + conflicts(outcomes, n) == n,
    decreases n,
{
    if n > 0 {
        one_winner_counts(outcomes, winner, (n - 1) as nat);
        if n - 1 != winner {
            assert(outcomes[n - 1] is Conflict);
        }
    }
}

/// Where the counts say that one won and the rest were in conflict, it is so.
proof fn counts_tell(outcomes: Seq<PutOutcome>, n: nat)
    requires
        n <= outcomes.len(),
    ensures
        wins(outcomes, n) + conflicts(outcomes, n) <= n,
        wins(outcomes, n) + conflicts(outcomes, n) == n ==> forall|i: int|
            0 <= i < n ==> (#[trigger] outcomes[i]) is Won || outcomes[i] is Conflict,
        wins(outcomes, n) == 0 ==> forall|i: int|
            0 <= i < n ==> !((#[trigger] outcomes[i]) is Won),
    decreases n,
{
    if n > 0 {
        counts_tell(outcomes, (n - 1) as nat);
    }
}

/// The winner of a race among writers of one key: the only one, with all the
/// others in conflict.
pub fn race_winner(outcomes: &Vec<PutOutcome>) -> (winner: Result<usize, RaceFault>)
    ensures
        winner matches Ok(winner) ==> has_one_winner(outcomes@, winner as int),
        winner matches Err(fault) ==> {
            &&& forall|i: int| !#[trigger] has_one_winner(outcomes@, i)
            &&& fault matches RaceFault::Tally { successes, conflicts: lost, failures }
            &&& successes == wins(outcomes@, outcomes@.len())
            &&& lost == conflicts(outcomes@, outcomes@.len())
            &&& successes + lost + failures == outcomes@.len()
        },
{
    let mut successes: usize = 0;
    let mut lost: usize = 0;
    let mut winner: usize = 0;
    let mut i: usize = 0;
    while i < outcomes.len()
        invariant
            0 <= i <= outcomes@.len(),
            successes == wins(outcomes@, i as nat),
            lost == conflicts(outcomes@, i as nat),
            successes + lost <= i,
            successes > 0 ==> winner < i && outcomes@[winner as int] is Won,
            successes == 1 ==> forall|j: int|
                0 <= j < i && j != winner ==> !((#[trigger] outcomes@[j]) is Won),
            successes == 0 ==> forall|j: int| 0 <= j < i ==> !((#[trigger] outcomes@[j]) is Won),
        decreases outcomes@.len() - i,
    {
        match &outcomes[i] {
            PutOutcome::Won { .. } => {
                winner = i;
                successes = successes + 1;
            },
            PutOutcome::Conflict => {
                lost = lost + 1;
            },
            PutOutcome::Failed => {},
        }
        i = i + 1;
    }
    proof {
        counts_tell(outcomes@, outcomes@.len());
    }
    if successes == 1 && lost == outcomes.len() - 1 {
        return Ok(winner);
    }
    proof {
        assert forall|w: int| !#[trigger] has_one_winner(outcomes@, w) by {
            if has_one_winner(outcomes@, w) {
                one_winner_counts(outcomes@, w, outcomes@.len());
            }
        }
    }
    Err(
        RaceFault::Tally { successes, conflicts: lost, failures: outcomes.len() - successes - lost },
    )
}

/// The text that a writer of a race writes.
pub open spec fn claim(writer: nat) -> Seq<char> {
    "claimant-"@ + decimal(writer)
}

/// The text that a writer of a race writes.
pub fn claimant(writer: u32) -> (text: String)
    ensures
        text@ == claim(writer as nat),
{
    let mut text = "claimant-".to_owned();
    text.append(decimal_text(writer as i64).as_str());
    text
}

/// Whether what is read behind a race is what its winner wrote.
pub fn check_winner(
    told: &Option<String>,
    read: &Option<String>,
    written: &str,
    body: &str,
) -> (checked: Result<(), RaceFault>)
    ensures
        match checked {
            Ok(()) => told is Some && text_of(*told).unwrap().len() > 0 && text_of(*told) == text_of(
                *read,
            ) && body@ == written@,
            Err(RaceFault::NoEtag) => told is None || text_of(*told).unwrap().len() == 0,
            Err(RaceFault::OtherGeneration) => told is Some && text_of(*told).unwrap().len() > 0
                && text_of(*told) != text_of(*read),
            Err(RaceFault::OtherBody) => told is Some && text_of(*told) == text_of(*read) && body@
                != written@,
            Err(_) => false,
        },
{
    let named = match told {
        Some(tag) => !tag.as_str().is_empty(),
        None => false,
    };
    if !named {
        return Err(RaceFault::NoEtag);
    }
    if !same_name(told, read) {
        return Err(RaceFault::OtherGeneration);
    }
    if !same_text(body, written) {
        return Err(RaceFault::OtherBody);
    }
    Ok(())
}

/// Whether a write has made a new generation: a new ETag, and the old one opens no
/// update any longer.
pub fn check_generation(
    replaced: &Option<String>,
    told: &Option<String>,
    stale_refused: bool,
) -> (checked: Result<(), RaceFault>)
    ensures
        match checked {
            Ok(()) => text_of(*replaced) != text_of(*told) && stale_refused,
            Err(RaceFault::ReusedEtag) => text_of(*replaced) == text_of(*told),
            Err(RaceFault::StaleAccepted) => text_of(*replaced) != text_of(*told) && !stale_refused,
            Err(_) => false,
        },
{
    if same_name(replaced, told) {
        return Err(RaceFault::ReusedEtag);
    }
    if !stale_refused {
        return Err(RaceFault::StaleAccepted);
    }
    Ok(())
}

/// Why a walk does not qualify.
#[derive(Clone, Copy, Debug, PartialEq, Eq, Structural)]
pub enum WalkFault {
    /// A page holds more than was asked for.
    PageTooLarge,
    /// A page goes on where it began.
    Stuck,
    /// The walk does not come to an end.
    Endless,
}

/// A walk over pages, as far as it has come.
#[derive(Debug)]
pub struct PageWalk {
    pub max_keys: usize,
    pub pages: usize,
    pub keys: Vec<String>,
    pub token: Option<String>,
}

impl PageWalk {
    /// A walk that has seen no page.
    pub fn new(max_keys: usize) -> (walk: PageWalk)
        ensures
            walk.max_keys == max_keys,
            walk.pages == 0,
            walk.keys@.len() == 0,
            walk.token is None,
    {
        PageWalk { max_keys, pages: 0, keys: Vec::new(), token: None }
    }

    /// Takes a page: whether the walk is at its end.
    pub fn accept(&mut self, page: Vec<String>, token: Option<String>) -> (end: Result<
        bool,
        WalkFault,
    >)
        requires
            old(self).pages < MAX_PAGES,
        ensures
            final(self).max_keys == old(self).max_keys,
            match end {
                Ok(end) => {
                    &&& page@.len() <= old(self).max_keys
                    &&& final(self).keys@ == old(self).keys@ + page@
                    &&& final(self).pages == old(self).pages + 1
                    &&& end == (token is None)
                    &&& end ==> final(self).token == old(self).token
                    &&& !end ==> final(self).token == token && final(self).pages < MAX_PAGES
                        && text_of(token) != text_of(old(self).token)
                },
                Err(WalkFault::PageTooLarge) => page@.len() > old(self).max_keys
                    && *final(self) == *old(self),
                Err(WalkFault::Stuck) => {
                    &&& page@.len() <= old(self).max_keys
                    &&& token is Some && text_of(token) == text_of(old(self).token)
                    &&& final(self).keys@ == old(self).keys@ + page@
                    &&& final(self).pages == old(self).pages + 1
                    &&& final(self).token == old(self).token
                },
                Err(WalkFault::Endless) => {
                    &&& page@.len() <= old(self).max_keys
                    &&& token is Some && text_of(token) != text_of(old(self).token)
                    &&& old(self).pages + 1 == MAX_PAGES
                    &&& final(self).keys@ == old(self).keys@ + page@
                    &&& final(self).pages == old(self).pages + 1
                    &&& final(self).token == token
                },
            },
    {
        if page.len() > self.max_keys {
            return Err(WalkFault::PageTooLarge);
        }
        let mut page = page;
        self.keys.append(&mut page);
        self.pages = self.pages + 1;
        if token.is_none() {
            return Ok(true);
        }
        if same_name(&token, &self.token) {
            return Err(WalkFault::Stuck);
        }
        self.token = token;
        if self.pages >= MAX_PAGES {
            return Err(WalkFault::Endless);
        }
        Ok(false)
    }
}

/// Whether keys are in strict order: none twice, none out of place.
pub fn strictly_increasing(keys: &Vec<String>) -> (yes: bool)
    ensures
        yes <==> forall|i: int|
            0 <= i < keys@.len() - 1 ==> before((#[trigger] keys@[i])@, keys@[i + 1]@),
{
    let mut i: usize = 1;
    while i < keys.len()
        invariant
            1 <= i,
            keys@.len() > 0 ==> i <= keys@.len(),
            forall|j: int| 0 <= j < i - 1 ==> before((#[trigger] keys@[j])@, keys@[j + 1]@),
        decreases keys@.len() - i,
    {
        if !text_before(keys[i - 1].as_str(), keys[i].as_str()) {
            assert(!before(keys@[i - 1]@, keys@[i - 1 + 1]@));
            return false;
        }
        i = i + 1;
    }
    true
}

/// Whether a key is among others.
pub fn has_text(keys: &Vec<String>, key: &str) -> (yes: bool)
    ensures
        yes == views(keys@).contains(key@),
{
    let mut i: usize = 0;
    while i < keys.len()
        invariant
            0 <= i <= keys@.len(),
            forall|j: int| 0 <= j < i ==> (#[trigger] views(keys@)[j]) != key@,
        decreases keys@.len() - i,
    {
        assert(views(keys@)[i as int] == keys@[i as int]@);
        if same_text(keys[i].as_str(), key) {
            return true;
        }
        i = i + 1;
    }
    false
}

/// Whether all the stable keys are among those seen.
pub fn contains_all(seen: &Vec<String>, stable: &Vec<String>) -> (yes: bool)
    ensures
        yes <==> forall|i: int|
            0 <= i < stable@.len() ==> views(seen@).contains((#[trigger] stable@[i])@),
{
    let mut i: usize = 0;
    while i < stable.len()
        invariant
            0 <= i <= stable@.len(),
            forall|j: int| 0 <= j < i ==> views(seen@).contains((#[trigger] stable@[j])@),
        decreases stable@.len() - i,
    {
        if !has_text(seen, stable[i].as_str()) {
            assert(!views(seen@).contains(stable@[i as int]@));
            return false;
        }
        i = i + 1;
    }
    true
}

/// Whether two lists of keys are the same.
pub fn same_keys(a: &Vec<String>, b: &Vec<String>) -> (same: bool)
    ensures
        same == (views(a@) == views(b@)),
{
    if a.len() != b.len() {
        assert(views(a@).len() != views(b@).len());
        return false;
    }
    let mut i: usize = 0;
    while i < a.len()
        invariant
            0 <= i <= a@.len() == b@.len(),
            forall|j: int| 0 <= j < i ==> (#[trigger] a@[j])@ == b@[j]@,
        decreases a@.len() - i,
    {
        if !same_text(a[i].as_str(), b[i].as_str()) {
            assert(views(a@)[i as int] != views(b@)[i as int]);
            return false;
        }
        i = i + 1;
    }
    assert(views(a@) =~= views(b@));
    true
}

/// A number with zeros in front up to four digits.
pub open spec fn padded(n: nat) -> Seq<char> {
    let digits = decimal(n);
    if n < 10 {
        "000"@ + digits
    } else if n < 100 {
        "00"@ + digits
    } else if n < 1000 {
        "0"@ + digits
    } else {
        digits
    }
}

/// The keys with the numbers from nothing up to `count` behind a prefix.
pub fn numbered_keys(prefix: &str, count: u32) -> (keys: Vec<String>)
    ensures
        keys@.len() == count,
        forall|i: int| 0 <= i < count ==> (#[trigger] keys@[i])@ == prefix@ + padded(i as nat),
{
    let mut keys: Vec<String> = Vec::new();
    let mut i: u32 = 0;
    while i < count
        invariant
            0 <= i <= count,
            keys@.len() == i,
            forall|j: int| 0 <= j < i ==> (#[trigger] keys@[j])@ == prefix@ + padded(j as nat),
        decreases count - i,
    {
        let mut key = prefix.to_owned();
        if i < 10 {
            key.append("000");
        } else if i < 100 {
            key.append("00");
        } else if i < 1000 {
            key.append("0");
        }
        key.append(decimal_text(i as i64).as_str());
        assert(key@ =~= prefix@ + padded(i as nat));
        keys.push(key);
        i = i + 1;
    }
    keys
}

/// Whether bytes read from a position are those of the large object, every part
/// of which repeats its own number.
pub fn is_large_pattern(position: u64, bytes: &Vec<u8>) -> (yes: bool)
    requires
        position + bytes@.len() <= u64::MAX,
    ensures
        yes <==> forall|i: int|
            0 <= i < bytes@.len() ==> (#[trigger] bytes@[i]) == ((position + i) / LARGE_PART as int) as u8,
{
    let mut i: usize = 0;
    while i < bytes.len()
        invariant
            0 <= i <= bytes@.len(),
            forall|j: int|
                0 <= j < i ==> (#[trigger] bytes@[j]) == ((position + j) / LARGE_PART as int) as u8,
        decreases bytes@.len() - i,
    {
        let part: u64 = (position + i as u64) / LARGE_PART;
        if bytes[i] != #[verifier::truncate] (part as u8) {
            assert(bytes@[i as int] != ((position + i) / LARGE_PART as int) as u8);
            return false;
        }
        i = i + 1;
    }
    true
}

/// How many keys the listing of a qualification holds.
pub const STABLE_KEYS: u32 = 211;

/// What a qualification finds of a listing of the numbered keys under
/// `study/list/`, and of a page under `study/mutation/` behind some mutations.
#[derive(Debug)]
pub struct ListingFacts {
    pub prefix: String,
    /// Every key.
    pub recursive: Vec<String>,
    /// The keys behind that with the number one hundred.
    pub after_offset: Vec<String>,
    /// The keys of all pages of a walk.
    pub paged: Vec<String>,
    /// A page of three keys behind that with the number one hundred, where the
    /// store takes an offset for a page.
    pub raw_offset: Option<Vec<String>>,
    /// The keys of the page behind the mutations.
    pub continuation: Vec<String>,
    /// The keys that this page must hold.
    pub expected_continuation: Vec<String>,
}

/// What is wrong with a listing.
#[derive(Clone, Copy, Debug, PartialEq, Eq, Structural)]
pub enum ListingFault {
    /// The keys are not all there in order.
    Recursive,
    /// The keys behind an offset are others.
    StreamOffset,
    /// The pages leave keys out, repeat or reorder them.
    Pagination,
    /// The page behind an offset holds others.
    RawOffset,
    /// The page behind the mutations holds others.
    Continuation,
}

/// The numbered keys behind a prefix.
pub open spec fn numbered(prefix: Seq<char>, count: nat) -> Seq<Seq<char>> {
    Seq::new(count, |i: int| prefix + padded(i as nat))
}

/// The first thing that is wrong with a listing.
pub open spec fn listing_fault(facts: ListingFacts) -> Option<ListingFault> {
    let expected = numbered(facts.prefix@, STABLE_KEYS as nat);
    if views(facts.recursive@) != expected {
        Some(ListingFault::Recursive)
    } else if views(facts.after_offset@) != expected.skip(101) {
        Some(ListingFault::StreamOffset)
    } else if views(facts.paged@) != expected {
        Some(ListingFault::Pagination)
    } else if facts.raw_offset matches Some(page) && views(page@) != expected.subrange(101, 104) {
        Some(ListingFault::RawOffset)
    } else if views(facts.continuation@) != views(facts.expected_continuation@) {
        Some(ListingFault::Continuation)
    } else {
        None
    }
}

/// Whether some keys are a run of others.
fn is_run(keys: &Vec<String>, from: usize, to: usize, run: &Vec<String>) -> (yes: bool)
    requires
        from <= to <= keys@.len(),
    ensures
        yes == (views(run@) == views(keys@).subrange(from as int, to as int)),
{
    if run.len() != to - from {
        assert(views(run@).len() != views(keys@).subrange(from as int, to as int).len());
        return false;
    }
    let mut i: usize = 0;
    while i < run.len()
        invariant
            0 <= i <= run@.len() == to - from,
            forall|j: int| 0 <= j < i ==> (#[trigger] run@[j])@ == keys@[from + j]@,
        decreases run@.len() - i,
    {
        if !same_text(run[i].as_str(), keys[from + i].as_str()) {
            assert(views(run@)[i as int] != views(keys@).subrange(from as int, to as int)[i as int]);
            return false;
        }
        i = i + 1;
    }
    assert(views(run@) =~= views(keys@).subrange(from as int, to as int));
    true
}

/// Whether a listing qualifies.
pub fn check_listing(facts: &ListingFacts) -> (checked: Result<(), ListingFault>)
    ensures
        match checked {
            Ok(()) => listing_fault(*facts) is None,
            Err(fault) => listing_fault(*facts) == Some(fault),
        },
{
    let expected = numbered_keys(facts.prefix.as_str(), STABLE_KEYS);
    assert(views(expected@) =~= numbered(facts.prefix@, STABLE_KEYS as nat));
    if !same_keys(&facts.recursive, &expected) {
        return Err(ListingFault::Recursive);
    }
    let ghost all = views(expected@);
    assert(all.skip(101) =~= all.subrange(101, all.len() as int));
    if !is_run(&expected, 101, expected.len(), &facts.after_offset) {
        return Err(ListingFault::StreamOffset);
    }
    if !same_keys(&facts.paged, &expected) {
        return Err(ListingFault::Pagination);
    }
    match &facts.raw_offset {
        Some(page) => if !is_run(&expected, 101, 104, page) {
            return Err(ListingFault::RawOffset);
        },
        None => {},
    }
    if !same_keys(&facts.continuation, &facts.expected_continuation) {
        return Err(ListingFault::Continuation);
    }
    Ok(())
}

/// What is wrong with a walk beside mutations.
#[derive(Clone, Copy, Debug, PartialEq, Eq, Structural)]
pub enum ChurnFault {
    /// A key came twice or out of order.
    Reordered,
    /// A key that was there all the time did not come.
    Hidden,
}

/// Whether a walk beside mutations qualifies: in strict order, and with every key
/// that was there all the time.
pub fn check_churn(seen: &Vec<String>, stable: &Vec<String>) -> (checked: Result<(), ChurnFault>)
    ensures
        ({
            let ordered = forall|i: int|
                0 <= i < seen@.len() - 1 ==> before((#[trigger] seen@[i])@, seen@[i + 1]@);
            let complete = forall|i: int|
                0 <= i < stable@.len() ==> views(seen@).contains((#[trigger] stable@[i])@);
            match checked {
                Ok(()) => ordered && complete,
                Err(ChurnFault::Reordered) => !ordered,
                Err(ChurnFault::Hidden) => ordered && !complete,
            }
        }),
{
    if !strictly_increasing(seen) {
        return Err(ChurnFault::Reordered);
    }
    if !contains_all(seen, stable) {
        return Err(ChurnFault::Hidden);
    }
    Ok(())
}

/// What a qualification finds of a key with a character that must be escaped.
#[derive(Debug)]
pub struct EscapedFacts {
    pub key: String,
    pub parent: String,
    /// The key that a read tells.
    pub told: String,
    /// The keys under the parent.
    pub listed: Vec<String>,
    /// The groups of the directory above the parent.
    pub grouped: Vec<String>,
    /// The groups of a page above the parent.
    pub paged: Vec<String>,
    /// Whether the object can be read by the key that was listed.
    pub read_back: bool,
    /// Whether the object is gone once it is deleted by that key.
    pub gone: bool,
}

/// What is wrong with a key that must be escaped.
#[derive(Clone, Copy, Debug, PartialEq, Eq, Structural)]
pub enum EscapedFault {
    Told,
    Listed,
    Grouped,
    Paged,
    ReadBack,
    Deleted,
}

/// The first thing that is wrong with a key that must be escaped.
pub open spec fn escaped_fault(facts: EscapedFacts) -> Option<EscapedFault> {
    if facts.told@ != facts.key@ {
        Some(EscapedFault::Told)
    } else if views(facts.listed@) != seq![facts.key@] {
        Some(EscapedFault::Listed)
    } else if views(facts.grouped@) != seq![facts.parent@] {
        Some(EscapedFault::Grouped)
    } else if views(facts.paged@) != seq![facts.parent@] {
        Some(EscapedFault::Paged)
    } else if !facts.read_back {
        Some(EscapedFault::ReadBack)
    } else if !facts.gone {
        Some(EscapedFault::Deleted)
    } else {
        None
    }
}

/// Whether a list holds one text and nothing else.
fn is_only(list: &Vec<String>, text: &str) -> (yes: bool)
    ensures
        yes == (views(list@) == seq![text@]),
{
    if list.len() != 1 {
        assert(views(list@).len() != seq![text@].len());
        return false;
    }
    assert(views(list@)[0] == list@[0]@);
    let same = same_text(list[0].as_str(), text);
    assert(same ==> views(list@) =~= seq![text@]);
    assert(!same ==> views(list@)[0] != seq![text@][0]);
    same
}

/// Whether a key that must be escaped qualifies.
pub fn check_escaped(facts: &EscapedFacts) -> (checked: Result<(), EscapedFault>)
    ensures
        match checked {
            Ok(()) => escaped_fault(*facts) is None,
            Err(fault) => escaped_fault(*facts) == Some(fault),
        },
{
    if !same_text(facts.told.as_str(), facts.key.as_str()) {
        return Err(EscapedFault::Told);
    }
    if !is_only(&facts.listed, facts.key.as_str()) {
        return Err(EscapedFault::Listed);
    }
    if !is_only(&facts.grouped, facts.parent.as_str()) {
        return Err(EscapedFault::Grouped);
    }
    if !is_only(&facts.paged, facts.parent.as_str()) {
        return Err(EscapedFault::Paged);
    }
    if !facts.read_back {
        return Err(EscapedFault::ReadBack);
    }
    if !facts.gone {
        return Err(EscapedFault::Deleted);
    }
    Ok(())
}

/// From this size on a replica file is written in parts.
pub const REPLICA_PARTS_FROM: usize = 5_242_880;

/// One replica file as it was written, and what the readers give of it.
#[derive(Debug)]
pub struct ReplicaFile {
    pub written: Vec<u8>,
    /// The whole file.
    pub whole: Vec<u8>,
    /// The 123 bytes from the seventeenth on.
    pub range: Vec<u8>,
    /// The 257 bytes from the thirty-first on, from the reader that pages.
    pub paged: Vec<u8>,
}

/// What is wrong with a replica.
#[derive(Clone, Copy, Debug, PartialEq, Eq, Structural)]
pub enum ReplicaFault {
    /// A file comes back with other bytes.
    Whole,
    /// A range of a file has other bytes.
    Range,
    /// The reader that pages gives other bytes.
    Paged,
    /// The files are not on both sides of the size at which parts begin.
    Threshold,
    /// The listing from the second file on does not begin with it.
    Seek,
    /// Files are left once all are deleted.
    Left,
}

/// The first thing that is wrong with a replica file.
pub open spec fn file_fault(file: ReplicaFile) -> Option<ReplicaFault> {
    if file.whole@ != file.written@ {
        Some(ReplicaFault::Whole)
    } else if file.range@ != file.written@.subrange(17, 140) {
        Some(ReplicaFault::Range)
    } else if file.paged@ != file.written@.subrange(31, 288) {
        Some(ReplicaFault::Paged)
    } else {
        None
    }
}

/// Whether some bytes are a run of others.
fn is_byte_run(bytes: &Vec<u8>, from: usize, to: usize, run: &Vec<u8>) -> (yes: bool)
    requires
        from <= to <= bytes@.len(),
    ensures
        yes == (run@ == bytes@.subrange(from as int, to as int)),
{
    if run.len() != to - from {
        return false;
    }
    let mut i: usize = 0;
    while i < run.len()
        invariant
            0 <= i <= run@.len() == to - from,
            forall|j: int| 0 <= j < i ==> #[trigger] run@[j] == bytes@[from + j],
        decreases run@.len() - i,
    {
        if run[i] != bytes[from + i] {
            assert(run@[i as int] != bytes@.subrange(from as int, to as int)[i as int]);
            return false;
        }
        i = i + 1;
    }
    assert(run@ =~= bytes@.subrange(from as int, to as int));
    true
}

/// Whether a replica file qualifies.
pub fn check_replica_file(file: &ReplicaFile) -> (checked: Result<(), ReplicaFault>)
    requires
        file.written@.len() >= 288,
    ensures
        match checked {
            Ok(()) => file_fault(*file) is None,
            Err(fault) => file_fault(*file) == Some(fault),
        },
{
    assert(file.written@.subrange(0, file.written@.len() as int) =~= file.written@);
    if !is_byte_run(&file.written, 0, file.written.len(), &file.whole) {
        return Err(ReplicaFault::Whole);
    }
    if !is_byte_run(&file.written, 17, 140, &file.range) {
        return Err(ReplicaFault::Range);
    }
    if !is_byte_run(&file.written, 31, 288, &file.paged) {
        return Err(ReplicaFault::Paged);
    }
    Ok(())
}

/// Whether a replica of two files qualifies: their sizes, the first transactions
/// of the one file listed from the second on, and whether any file is left once
/// both are deleted.
pub fn check_replica(small: usize, large: usize, listed: &Vec<u64>, left: bool) -> (checked: Result<
    (),
    ReplicaFault,
>)
    ensures
        ({
            let sized = small < REPLICA_PARTS_FROM <= large;
            let sought = listed@ == seq![2u64];
            match checked {
                Ok(()) => sized && sought && !left,
                Err(ReplicaFault::Threshold) => !sized,
                Err(ReplicaFault::Seek) => sized && !sought,
                Err(ReplicaFault::Left) => sized && sought && left,
                Err(_) => false,
            }
        }),
{
    if small >= REPLICA_PARTS_FROM || large < REPLICA_PARTS_FROM {
        return Err(ReplicaFault::Threshold);
    }
    if listed.len() != 1 || listed[0] != 2 {
        assert(listed@ != seq![2u64]) by {
            if listed@ == seq![2u64] {
                assert(listed@.len() == 1 && listed@[0] == 2);
            }
        }
        return Err(ReplicaFault::Seek);
    }
    assert(listed@ =~= seq![2u64]);
    if left {
        return Err(ReplicaFault::Left);
    }
    Ok(())
}

} // verus!
