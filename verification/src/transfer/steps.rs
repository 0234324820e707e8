//! The steps of the copy of one object, and what a copy that fails leaves behind.
use crate::transfer::copy::{copy_route, CopyRoute, PART_BYTES};
use vstd::prelude::*;

verus! {

/// What a copy does next.
#[derive(Clone, Copy, Debug, PartialEq, Eq, Structural)]
pub enum CopyStep {
    /// Open the source object of the recorded generation, with the recorded size
    /// and attributes.
    Open,
    /// Read the source to its end and keep its bytes, which must be the recorded
    /// ones.
    Gather,
    /// Write the bytes that were kept, by a create that refuses to overwrite.
    Create,
    /// Look whether the key is free at the destination.
    Look,
    /// Begin an upload at the destination.
    Begin,
    /// Read the source to its end and write every full part; the bytes must be the
    /// recorded ones.
    Send,
    /// Write the bytes left over as the last part.
    PutRest,
    /// Complete the upload.
    Complete,
    /// Abort the upload; whether that works does not matter.
    Abort,
    /// Nothing: the object is written.
    Written,
    /// Nothing: the copy has failed.
    Failed,
}

/// How a step of a copy ended.
#[derive(Clone, Copy, Debug, PartialEq, Eq, Structural)]
pub enum CopyEvent {
    /// The source object is the recorded one and has this size.
    Opened { size: u64 },
    /// The source came to its end with the recorded bytes, of which so many are
    /// not written yet.
    Ended { rest: usize },
    /// The step has succeeded.
    Done,
    /// The step has failed.
    Failed,
}

/// The upload has begun and is neither completed nor aborted.
pub open spec fn is_uploading(step: CopyStep) -> bool {
    step is Send || step is PutRest || step is Complete
}

/// The step of a copy behind another. A small object is gathered and created; a
/// large one is sent in parts once its key is known to be free, and no empty part
/// is written. Whatever fails while an upload is under way, the upload is aborted.
pub open spec fn step_behind(step: CopyStep, event: CopyEvent) -> CopyStep {
    match (step, event) {
        (CopyStep::Open, CopyEvent::Opened { size }) => if size <= PART_BYTES {
            CopyStep::Gather
        } else {
            CopyStep::Look
        },
        (CopyStep::Gather, CopyEvent::Ended { .. }) => CopyStep::Create,
        (CopyStep::Create, CopyEvent::Done) => CopyStep::Written,
        (CopyStep::Look, CopyEvent::Done) => CopyStep::Begin,
        (CopyStep::Begin, CopyEvent::Done) => CopyStep::Send,
        (CopyStep::Send, CopyEvent::Ended { rest }) => if rest > 0 {
            CopyStep::PutRest
        } else {
            CopyStep::Complete
        },
        (CopyStep::PutRest, CopyEvent::Done) => CopyStep::Complete,
        (CopyStep::Complete, CopyEvent::Done) => CopyStep::Written,
        (CopyStep::Written, _) => CopyStep::Written,
        _ => if is_uploading(step) {
            CopyStep::Abort
        } else {
            CopyStep::Failed
        },
    }
}

/// The step of a copy behind another.
pub fn copy_next(step: CopyStep, event: CopyEvent) -> (next: CopyStep)
    ensures
        next == step_behind(step, event),
{
    match (step, event) {
        (CopyStep::Open, CopyEvent::Opened { size }) => match copy_route(size) {
            CopyRoute::Create => CopyStep::Gather,
            CopyRoute::Parts => CopyStep::Look,
        },
        (CopyStep::Gather, CopyEvent::Ended { .. }) => CopyStep::Create,
        (CopyStep::Create, CopyEvent::Done) => CopyStep::Written,
        (CopyStep::Look, CopyEvent::Done) => CopyStep::Begin,
        (CopyStep::Begin, CopyEvent::Done) => CopyStep::Send,
        (CopyStep::Send, CopyEvent::Ended { rest }) => if rest > 0 {
            CopyStep::PutRest
        } else {
            CopyStep::Complete
        },
        (CopyStep::PutRest, CopyEvent::Done) => CopyStep::Complete,
        (CopyStep::Complete, CopyEvent::Done) => CopyStep::Written,
        (CopyStep::Written, _) => CopyStep::Written,
        (CopyStep::Send, _) => CopyStep::Abort,
        (CopyStep::PutRest, _) => CopyStep::Abort,
        (CopyStep::Complete, _) => CopyStep::Abort,
        _ => CopyStep::Failed,
    }
}

/// The step that a copy comes to by these events.
pub open spec fn reached(events: Seq<CopyEvent>) -> CopyStep
    decreases events.len(),
{
    if events.len() == 0 {
        CopyStep::Open
    } else {
        step_behind(reached(events.drop_last()), events.last())
    }
}

/// The step makes an object visible at the destination: a create or a completion
/// that succeeds. No other step does.
pub open spec fn shows_object(step: CopyStep, event: CopyEvent) -> bool {
    (step is Create || step is Complete) && event is Done
}

/// The step that a copy takes at `i`.
proof fn reached_one_more(events: Seq<CopyEvent>, i: int)
    requires
        0 <= i < events.len(),
    ensures
        reached(events.take(i + 1)) == step_behind(reached(events.take(i)), events[i]),
{
    assert(events.take(i + 1).drop_last() =~= events.take(i));
}

/// A step that shows the object leaves it written, for good.
proof fn shown_is_written(events: Seq<CopyEvent>, i: int, k: int)
    requires
        0 <= i < k <= events.len(),
        shows_object(reached(events.take(i)), events[i]),
    ensures
        reached(events.take(k)) is Written,
    decreases k,
{
    reached_one_more(events, k - 1);
    if i < k - 1 {
        shown_is_written(events, i, k - 1);
    }
}

/// A copy that fails makes no object visible at the destination, and one that is
/// written has made it so.
pub proof fn failed_copy_shows_nothing(events: Seq<CopyEvent>)
    ensures
        !(reached(events) is Written) <==> forall|i: int|
            0 <= i < events.len() ==> !#[trigger] shows_object(
                reached(events.take(i)),
                events[i],
            ),
{
    assert(events.take(events.len() as int) =~= events);
    if !(reached(events) is Written) {
        assert forall|i: int| 0 <= i < events.len() implies !#[trigger] shows_object(
            reached(events.take(i)),
            events[i],
        ) by {
            if shows_object(reached(events.take(i)), events[i]) {
                shown_is_written(events, i, events.len() as int);
            }
        }
    } else {
        written_was_shown(events, events.len() as int);
    }
}

/// A copy that is written has shown its object at some step.
proof fn written_was_shown(events: Seq<CopyEvent>, k: int)
    requires
        0 <= k <= events.len(),
        reached(events.take(k)) is Written,
    ensures
        exists|i: int|
            0 <= i < k && #[trigger] shows_object(reached(events.take(i)), events[i]),
    decreases k,
{
    if k == 0 {
        assert(events.take(0).len() == 0);
    } else {
        reached_one_more(events, k - 1);
        if reached(events.take(k - 1)) is Written {
            written_was_shown(events, k - 1);
        } else {
            assert(shows_object(reached(events.take(k - 1)), events[k - 1]));
        }
    }
}

/// The step that follows an abort is the end: nothing is completed behind it.
pub proof fn nothing_follows_an_abort(events: Seq<CopyEvent>, i: int, k: int)
    requires
        0 <= i < k <= events.len(),
        reached(events.take(i)) is Abort,
    ensures
        reached(events.take(k)) is Failed,
    decreases k,
{
    reached_one_more(events, k - 1);
    if i < k - 1 {
        nothing_follows_an_abort(events, i, k - 1);
    }
}

/// An upload that was begun is aborted where the copy fails.
pub proof fn begun_upload_is_aborted(events: Seq<CopyEvent>, i: int)
    requires
        reached(events) is Failed,
        0 <= i < events.len(),
        reached(events.take(i)) is Begin,
        events[i] is Done,
    ensures
        exists|j: int| i < j < events.len() && (#[trigger] reached(events.take(j))) is Abort,
{
    assert(events.take(events.len() as int) =~= events);
    begun_goes_on(events, i, events.len() as int);
}

/// Behind the begin of an upload a copy is uploading, written, about to abort, or
/// has aborted.
proof fn begun_goes_on(events: Seq<CopyEvent>, i: int, k: int)
    requires
        0 <= i < k <= events.len(),
        reached(events.take(i)) is Begin,
        events[i] is Done,
    ensures
        is_uploading(reached(events.take(k))) || reached(events.take(k)) is Written || reached(
            events.take(k),
        ) is Abort || (reached(events.take(k)) is Failed && exists|j: int|
            i < j < k && (#[trigger] reached(events.take(j))) is Abort),
    decreases k,
{
    reached_one_more(events, k - 1);
    if i < k - 1 {
        begun_goes_on(events, i, k - 1);
        if reached(events.take(k - 1)) is Abort {
            assert(i < k - 1 < k);
        } else if reached(events.take(k - 1)) is Failed {
            let j = choose|j: int|
                i < j < k - 1 && (#[trigger] reached(events.take(j))) is Abort;
            assert(i < j < k && reached(events.take(j)) is Abort);
        }
    }
}

/// One more event.
proof fn reached_push(events: Seq<CopyEvent>, event: CopyEvent)
    ensures
        reached(events.push(event)) == step_behind(reached(events), event),
{
    assert(events.push(event).drop_last() =~= events);
}

/// An object of any size is written where every step succeeds: one of at most eight
/// mebibytes is read whole and created, and a larger one is uploaded once its key is
/// known to be free, with a last part exactly where bytes are left over.
pub proof fn copy_of_any_size_is_written(size: u64, rest: usize)
    ensures
        reached(Seq::empty()) is Open,
        ({
            let opened = Seq::empty().push(CopyEvent::Opened { size });
            let small = opened.push(CopyEvent::Ended { rest });
            let begun = opened.push(CopyEvent::Done).push(CopyEvent::Done);
            let sent = begun.push(CopyEvent::Ended { rest });
            &&& size <= 8 * 1024 * 1024 ==> {
                &&& reached(opened) is Gather
                &&& reached(small) is Create
                &&& reached(small.push(CopyEvent::Done)) is Written
            }
            &&& size > 8 * 1024 * 1024 ==> {
                &&& reached(opened) is Look
                &&& reached(opened.push(CopyEvent::Done)) is Begin
                &&& reached(begun) is Send
                &&& rest > 0 ==> reached(sent) is PutRest && reached(sent.push(CopyEvent::Done))
                    is Complete && reached(sent.push(CopyEvent::Done).push(CopyEvent::Done))
                    is Written
                &&& rest == 0 ==> reached(sent) is Complete && reached(sent.push(CopyEvent::Done))
                    is Written
                &&& reached(opened.push(CopyEvent::Failed)) is Failed
            }
        }),
{
    let opened = Seq::empty().push(CopyEvent::Opened { size });
    let small = opened.push(CopyEvent::Ended { rest });
    let looked = opened.push(CopyEvent::Done);
    let begun = looked.push(CopyEvent::Done);
    let sent = begun.push(CopyEvent::Ended { rest });
    let last = sent.push(CopyEvent::Done);
    reached_push(Seq::empty(), CopyEvent::Opened { size });
    reached_push(opened, CopyEvent::Ended { rest });
    reached_push(small, CopyEvent::Done);
    reached_push(opened, CopyEvent::Done);
    reached_push(opened, CopyEvent::Failed);
    reached_push(looked, CopyEvent::Done);
    reached_push(begun, CopyEvent::Ended { rest });
    reached_push(sent, CopyEvent::Done);
    reached_push(last, CopyEvent::Done);
}

/// A step that fails ends the copy: behind the begin of an upload by its abort, before
/// it at once.
pub proof fn failed_steps_end_the_copy(step: CopyStep)
    requires
        !(step is Written),
    ensures
        step is Send || step is PutRest || step is Complete ==> step_behind(
            step,
            CopyEvent::Failed,
        ) is Abort,
        !(step is Send || step is PutRest || step is Complete) ==> step_behind(
            step,
            CopyEvent::Failed,
        ) is Failed,
{
}

} // verus!
