//! Reading an object: what a read is answered, and the chunks that it fetches.
use crate::attributes::{
    attribute_of, decode_attributes, is_read_form, AttributePair, StoredAttribute,
};
use crate::error::StoreError;
use crate::listing::text_of;
use crate::model::CHUNK_SIZE;
use crate::object::{clamped_ms, meta_of, object_meta, refuses_path, ObjectMeta, StoredObject};
use crate::storage::metadata;
use crate::text::{decimal, signed_decimal, split, trimmed};
use chrono::DateTime;
use object_store::path::Path;
use object_store::{Error, GetOptions, ObjectMeta as Told};
use vstd::prelude::*;

verus! {

/// The last millisecond that a calendar time can have.
pub const MAX_TIME_MS: i64 = 8_210_266_876_799_999;

/// The last second that a calendar time can have.
pub const MAX_SECOND: i64 = 8_210_266_876_799;

/// The first second that a calendar time can have.
pub const MIN_SECOND: i64 = -8_334_601_228_800;

/// A time: whole seconds after the Unix epoch, and the nanoseconds behind them. The
/// last second of a minute may have the nanoseconds of a leap second too.
#[derive(Clone, Copy, Debug, PartialEq, Eq, Structural)]
pub struct CalendarTime {
    pub seconds: i64,
    pub nanos: u32,
}

impl CalendarTime {
    /// The time is one that a calendar has.
    pub open spec fn is_valid(self) -> bool {
        &&& MIN_SECOND <= self.seconds <= MAX_SECOND
        &&& self.nanos < 1_000_000_000 || (self.nanos < 2_000_000_000 && self.seconds % 60 == 59)
    }

    /// The time is later than another.
    pub open spec fn is_after(self, other: CalendarTime) -> bool {
        self.seconds > other.seconds || (self.seconds == other.seconds && self.nanos
            > other.nanos)
    }
}

/// The time so many milliseconds after the Unix epoch.
pub open spec fn time_at(ms: u64) -> CalendarTime {
    CalendarTime { seconds: (ms / 1000) as i64, nanos: ((ms % 1000) * 1_000_000) as u32 }
}

/// The time so many milliseconds after the Unix epoch.
fn calendar_time(ms: u64) -> (time: CalendarTime)
    requires
        ms <= MAX_TIME_MS,
    ensures
        time == time_at(ms),
        time.seconds * 1000 + time.nanos / 1_000_000 == ms,
        time.nanos % 1_000_000 == 0,
        time.nanos < 1_000_000_000,
        time.is_valid(),
{
    CalendarTime { seconds: (ms / 1000) as i64, nanos: ((ms % 1000) * 1_000_000) as u32 }
}

/// The bytes that a read asks for.
#[derive(Clone, Copy, Debug, PartialEq, Eq, Structural)]
pub enum ByteRange {
    /// From the first up to the second.
    Bounded(u64, u64),
    /// From here to the end.
    Offset(u64),
    /// So many at the end.
    Suffix(u64),
}

/// What a read asks for.
#[derive(Clone, Debug)]
pub struct ReadOptions {
    pub if_match: Option<String>,
    pub if_none_match: Option<String>,
    pub if_modified_since: Option<CalendarTime>,
    pub if_unmodified_since: Option<CalendarTime>,
    pub range: Option<ByteRange>,
    pub head: bool,
}

impl ReadOptions {
    /// The times are ones that a calendar has.
    pub open spec fn has_calendar_times(self) -> bool {
        &&& self.if_modified_since matches Some(time) ==> time.is_valid()
        &&& self.if_unmodified_since matches Some(time) ==> time.is_valid()
    }
}

/// Why the conditions of a read are not met.
#[derive(Clone, Copy, Debug, PartialEq, Eq, Structural)]
pub enum Unmet {
    /// The object is not the one that the read wants.
    Precondition,
    /// The object is the one that the reader already has.
    NotModified,
}

/// The list of ETags names this one: it is a star, or one of its pieces between
/// commas is the ETag, white space aside.
pub open spec fn names_etag(list: Seq<char>, etag: Seq<char>) -> bool {
    list == "*"@ || exists|i: int|
        0 <= i < split(list, ',').len() && trimmed(#[trigger] split(list, ',')[i]) == etag
}

/// The condition of a read that an object does not meet. A wanted ETag counts
/// before a wanted time, and what the read wants before what the reader has.
pub open spec fn unmet(
    options: ReadOptions,
    etag: Seq<char>,
    modified: CalendarTime,
) -> Option<Unmet> {
    if match options.if_match {
        Some(list) => !names_etag(list@, etag),
        None => options.if_unmodified_since matches Some(time) && modified.is_after(time),
    } {
        Some(Unmet::Precondition)
    } else if match options.if_none_match {
        Some(list) => names_etag(list@, etag),
        None => options.if_modified_since matches Some(time) && !modified.is_after(time),
    } {
        Some(Unmet::NotModified)
    } else {
        None
    }
}

/// How a calendar time, so many seconds and nanoseconds after the Unix epoch, is
/// shown.
pub uninterp spec fn shown_time(seconds: int, nanos: int) -> Seq<char>;

/// The time that a condition of a read names, where it is not met.
pub open spec fn asked_time(options: ReadOptions, kind: Unmet) -> CalendarTime {
    let named = match kind {
        Unmet::Precondition => options.if_unmodified_since,
        Unmet::NotModified => options.if_modified_since,
    };
    match named {
        Some(time) => time,
        None => time_at(0),
    }
}

/// The words that tell which condition of a read is not met: the ETag and the
/// wanted list, or else the wanted time and that of the object, as they are shown.
pub open spec fn unmet_words(
    options: ReadOptions,
    kind: Unmet,
    etag: Seq<char>,
    asked: Seq<char>,
    modified: Seq<char>,
) -> Seq<char> {
    match kind {
        Unmet::Precondition => match options.if_match {
            Some(list) => etag + " does not match "@ + list@,
            None => asked + " < "@ + modified,
        },
        Unmet::NotModified => match options.if_none_match {
            Some(list) => etag + " matches "@ + list@,
            None => asked + " >= "@ + modified,
        },
    }
}

/// `object_store::GetOptions::check_preconditions`: the condition of the read
/// that an object of this ETag and this time does not meet, and the words of the
/// refusal. How a time is shown is left to the name of the result.
#[verifier::external_body]
fn check_preconditions(meta: &ObjectMeta, modified: CalendarTime, options: &ReadOptions) -> (refusal:
    Option<(Unmet, String)>)
    requires
        modified.is_valid(),
        options.has_calendar_times(),
    ensures
        refusal is Some <==> unmet(*options, meta.e_tag@, modified) is Some,
        refusal matches Some((kind, words)) ==> {
            let asked = asked_time(*options, kind);
            &&& unmet(*options, meta.e_tag@, modified) == Some(kind)
            &&& words@ == unmet_words(
                *options,
                kind,
                meta.e_tag@,
                shown_time(asked.seconds as int, asked.nanos as int),
                shown_time(modified.seconds as int, modified.nanos as int),
            )
        },
{
    let time = |t: CalendarTime| DateTime::from_timestamp(t.seconds, t.nanos).unwrap();
    let asked = GetOptions {
        if_match: options.if_match.clone(),
        if_none_match: options.if_none_match.clone(),
        if_modified_since: options.if_modified_since.map(time),
        if_unmodified_since: options.if_unmodified_since.map(time),
        ..Default::default()
    };
    let (location, last_modified) = (Path::default(), time(modified));
    let e_tag = Some(meta.e_tag.clone());
    match asked.check_preconditions(&Told { location, last_modified, size: meta.size, e_tag, version: None }) {
        Err(Error::Precondition { source, .. }) => Some((Unmet::Precondition, source.to_string())),
        Err(Error::NotModified { source, .. }) => Some((Unmet::NotModified, source.to_string())),
        _ => None,
    }
}

/// The bytes that a range stands for in an object of `length` bytes.
pub open spec fn resolved(range: ByteRange, length: u64) -> Option<(u64, u64)> {
    match range {
        ByteRange::Bounded(start, end) => if end <= start || end - start > usize::MAX || start
            >= length {
            None
        } else if end > length {
            Some((start, length))
        } else {
            Some((start, end))
        },
        ByteRange::Offset(start) => if start >= length {
            None
        } else {
            Some((start, length))
        },
        ByteRange::Suffix(count) => Some(
            (if count > length { 0 } else { (length - count) as u64 }, length),
        ),
    }
}

/// Why a range stands for no bytes of an object.
pub open spec fn range_words(range: ByteRange, length: u64) -> Seq<char> {
    let start = match range {
        ByteRange::Bounded(start, _) => start,
        ByteRange::Offset(start) => start,
        ByteRange::Suffix(count) => count,
    };
    match range {
        ByteRange::Bounded(_, end) if end <= start => "Range started at "@ + decimal(start as nat)
            + " and ended at "@ + decimal(end as nat),
        ByteRange::Bounded(_, end) if end - start > usize::MAX => "Range "@ + decimal(start as nat)
            + " is larger than system memory limit "@ + decimal(usize::MAX as nat),
        _ => "Wanted range starting at "@ + decimal(start as nat)
            + ", but object was only "@ + decimal(length as nat) + " bytes long"@,
    }
}

/// `object_store::GetRange::as_range`: the bytes that a range stands for in an
/// object of `length` bytes, or the words of the refusal.
#[verifier::external_body]
fn as_range(range: &ByteRange, length: u64) -> (bytes: Result<(u64, u64), String>)
    ensures
        bytes is Ok <==> resolved(*range, length) is Some,
        bytes matches Ok(bytes) ==> resolved(*range, length) == Some(bytes),
        bytes matches Err(words) ==> words@ == range_words(*range, length),
{
    let range = match range {
        ByteRange::Bounded(start, end) => object_store::GetRange::Bounded(*start..*end),
        ByteRange::Offset(start) => object_store::GetRange::Offset(*start),
        ByteRange::Suffix(count) => object_store::GetRange::Suffix(*count),
    };
    match range.as_range(length) {
        Ok(bytes) => Ok((bytes.start, bytes.end)),
        Err(error) => Err(error.to_string()),
    }
}

/// The payload of an object, as far as it has been read.
#[derive(Debug)]
pub struct ReadSnapshot {
    pub key: String,
    pub content_id: Option<i64>,
    pub position: u64,
    pub end: u64,
}

/// What a read is answered.
#[derive(Debug)]
pub struct ReadAnswer {
    pub meta: ObjectMeta,
    pub start: u64,
    pub end: u64,
    pub attributes: Vec<AttributePair>,
    /// The payload; none where only the head was asked for.
    pub payload: Option<ReadSnapshot>,
}

/// The bytes that a read stands for.
pub open spec fn read_range(options: ReadOptions, size: u64) -> Option<(u64, u64)> {
    match options.range {
        Some(range) => resolved(range, size),
        None => Some((0, size)),
    }
}

/// Every stored form stands for an attribute.
pub open spec fn all_known(stored: Seq<StoredAttribute>) -> bool {
    forall|i: int|
        0 <= i < stored.len() ==> attribute_of(
            (#[trigger] stored[i]).kind@,
            text_of(stored[i].name),
        ) is Some
}

/// Opens a read of the object in `row`, whose stored attributes have been parsed
/// or could not be. What refuses a read is looked at in one order: whether the
/// object is there, its path, the conditions, the range, the attributes.
pub fn get_snapshot(
    key: &str,
    row: Option<StoredObject>,
    stored: Result<Vec<StoredAttribute>, String>,
    options: &ReadOptions,
) -> (answer: Result<ReadAnswer, StoreError>)
    requires
        row matches Some(object) ==> clamped_ms(object.modified_ms) <= MAX_TIME_MS,
        options.has_calendar_times(),
    ensures
        row is None ==> (answer matches Err(StoreError::NotFound { path }) && path@ == key@),
        answer matches Err(StoreError::NotModified { .. }) && options.if_none_match is None ==> {
            let since = options.if_modified_since;
            let modified = clamped_ms(row.unwrap().modified_ms) * 1_000_000;
            &&& since is Some
            &&& since.unwrap().nanos < 1_000_000_000 ==> modified <= since.unwrap().seconds
                * 1_000_000_000 + since.unwrap().nanos
        },
        answer matches Err(StoreError::ConditionFailed { .. }) && options.if_match is None ==> {
            let since = options.if_unmodified_since;
            let modified = clamped_ms(row.unwrap().modified_ms) * 1_000_000;
            &&& since is Some
            &&& since.unwrap().nanos < 1_000_000_000 ==> modified > since.unwrap().seconds
                * 1_000_000_000 + since.unwrap().nanos
        },
        row matches Some(object) ==> {
            let etag = signed_decimal(object.etag as int);
            let time = time_at(clamped_ms(object.modified_ms));
            let refusal = unmet(*options, etag, time);
            let modified = shown_time(time.seconds as int, time.nanos as int);
            let late = asked_time(*options, Unmet::Precondition);
            let early = asked_time(*options, Unmet::NotModified);
            let range = read_range(*options, object.size);
            match meta_of(object@) {
                None => answer matches Err(error) && refuses_path(error, object.key@),
                Some(meta) => match refusal {
                    Some(Unmet::Precondition) => answer matches Err(
                        StoreError::ConditionFailed { path, reason },
                    ) && path@ == meta.location && reason@ == unmet_words(
                        *options,
                        Unmet::Precondition,
                        etag,
                        shown_time(late.seconds as int, late.nanos as int),
                        modified,
                    ),
                    Some(Unmet::NotModified) => answer matches Err(
                        StoreError::NotModified { path, reason },
                    ) && path@ == meta.location && reason@ == unmet_words(
                        *options,
                        Unmet::NotModified,
                        etag,
                        shown_time(early.seconds as int, early.nanos as int),
                        modified,
                    ),
                    None => match (range, stored) {
                        (None, _) => answer matches Err(StoreError::BadRange { reason }) && reason@
                            == range_words(options.range.unwrap(), object.size),
                        (Some(_), Err(words)) => answer == Err::<ReadAnswer, StoreError>(
                            StoreError::UnreadableAttributes { reason: words },
                        ),
                        (Some((start, end)), Ok(stored)) => if all_known(stored@) {
                            &&& answer matches Ok(answer)
                            &&& answer.meta@ == meta
                            &&& answer.start == start
                            &&& answer.end == end
                            &&& answer.attributes@.len() == stored@.len()
                            &&& forall|i: int|
                                0 <= i < stored@.len() ==> is_read_form(
                                    #[trigger] answer.attributes@[i],
                                    stored@[i],
                                )
                            &&& answer.payload is None <==> options.head
                            &&& answer.payload matches Some(payload) ==> {
                                &&& payload.key == object.key
                                &&& payload.content_id == object.content_id
                                &&& payload.position == start
                                &&& payload.end == end
                            }
                        } else {
                            answer matches Err(StoreError::UnknownAttribute { kind })
                                && exists|i: int|
                                0 <= i < stored@.len() && all_known(stored@.take(i)) && kind@ == (
                                #[trigger] stored@[i]).kind@ && attribute_of(
                                    stored@[i].kind@,
                                    text_of(stored@[i].name),
                                ) is None
                        },
                    },
                },
            }
        },
{
    let object = match metadata(key, row) {
        Ok(object) => object,
        Err(error) => return Err(error),
    };
    let meta = match object_meta(&object) {
        Ok(meta) => meta,
        Err(error) => return Err(error),
    };
    match check_preconditions(&meta, calendar_time(meta.last_modified_ms), options) {
        Some((Unmet::Precondition, reason)) => return Err(
            StoreError::ConditionFailed { path: meta.location, reason },
        ),
        Some((Unmet::NotModified, reason)) => return Err(
            StoreError::NotModified { path: meta.location, reason },
        ),
        None => {},
    }
    let (start, end) = match &options.range {
        Some(range) => match as_range(range, object.size) {
            Ok(bytes) => bytes,
            Err(reason) => return Err(StoreError::BadRange { reason }),
        },
        None => (0, object.size),
    };
    let stored = match stored {
        Ok(stored) => stored,
        Err(reason) => return Err(StoreError::UnreadableAttributes { reason }),
    };
    let attributes = match decode_attributes(&stored) {
        Ok(attributes) => attributes,
        Err(error) => {
            proof {
                let i = choose|i: int|
                    {
                        &&& 0 <= i < stored@.len()
                        &&& attribute_of(
                            (#[trigger] stored@[i]).kind@,
                            text_of(stored@[i].name),
                        ) is None
                        &&& forall|j: int|
                            0 <= j < i ==> attribute_of(
                                (#[trigger] stored@[j]).kind@,
                                text_of(stored@[j].name),
                            ) is Some
                        &&& error matches StoreError::UnknownAttribute { kind }
                        &&& kind@ == stored@[i].kind@
                    };
                assert(all_known(stored@.take(i)));
            }
            return Err(error);
        },
    };
    proof {
        assert forall|i: int| 0 <= i < stored@.len() implies attribute_of(
            (#[trigger] stored@[i]).kind@,
            text_of(stored@[i].name),
        ) is Some by {
            assert(is_read_form(attributes@[i], stored@[i]));
        }
    }
    let payload = if options.head {
        None
    } else {
        Some(
            ReadSnapshot { key: object.key, content_id: object.content_id, position: start, end },
        )
    };
    Ok(ReadAnswer { meta, start, end, attributes, payload })
}

/// What a payload asks for next.
#[derive(Clone, Copy, Debug, PartialEq, Eq, Structural)]
pub enum ReadRequest {
    /// Nothing: the payload has been read.
    Done,
    /// The part of the upload that the position lies in.
    Part { id: i64, position: u64 },
    /// Bytes of the body in the object row.
    Inline { position: u64, length: u64 },
}

/// The part row with the greatest offset up to the position, among those that
/// hold any bytes.
#[derive(Clone, Copy, Debug, PartialEq, Eq, Structural)]
pub struct PartFacts {
    pub part: i64,
    pub offset: i64,
    pub size: i64,
}

/// Bytes of one chunk.
#[derive(Clone, Copy, Debug, PartialEq, Eq, Structural)]
pub struct ChunkRequest {
    pub part: i64,
    pub chunk: u64,
    pub within: u64,
    pub length: u64,
}

/// The smaller of two numbers.
pub open spec fn smaller(a: int, b: int) -> int {
    if b < a {
        b
    } else {
        a
    }
}

/// The smaller of two numbers.
fn smaller_of(a: u64, b: u64) -> (c: u64)
    ensures
        c as int == smaller(a as int, b as int),
{
    if b < a {
        b
    } else {
        a
    }
}

/// The request that a payload makes of the part found for its position.
pub open spec fn chunk_request(payload: ReadSnapshot, found: PartFacts) -> ChunkRequest {
    let relative = payload.position - found.offset;
    let within = relative % (CHUNK_SIZE as int);
    ChunkRequest {
        part: found.part,
        chunk: (relative / (CHUNK_SIZE as int)) as u64,
        within: within as u64,
        length: smaller(smaller(payload.reach(), CHUNK_SIZE - within), found.size - relative) as u64,
    }
}

impl ReadSnapshot {
    /// The most bytes that the next fetch may bring.
    pub open spec fn reach(self) -> int {
        smaller(self.end - self.position, CHUNK_SIZE as int)
    }

    /// What to fetch next.
    pub fn next(&self) -> (request: ReadRequest)
        requires
            self.position <= self.end,
        ensures
            self.position == self.end ==> request is Done,
            self.position < self.end ==> match self.content_id {
                Some(id) => request == (ReadRequest::Part { id, position: self.position }),
                None => request == (ReadRequest::Inline {
                    position: self.position,
                    length: self.reach() as u64,
                }),
            },
    {
        if self.position == self.end {
            return ReadRequest::Done;
        }
        match self.content_id {
            Some(id) => ReadRequest::Part { id, position: self.position },
            None => ReadRequest::Inline {
                position: self.position,
                length: smaller_of(self.end - self.position, CHUNK_SIZE as u64),
            },
        }
    }

    /// The bytes of a chunk that hold the position, within the part found for it.
    pub fn locate(&self, found: PartFacts) -> (request: Result<ChunkRequest, StoreError>)
        requires
            self.position < self.end,
            0 <= found.offset <= self.position,
            0 <= found.size,
        ensures
            request is Err <==> self.position - found.offset >= found.size,
            request matches Err(error) ==> error is BadLayout,
            request matches Ok(request) ==> request == chunk_request(*self, found) && 0
                < request.length <= CHUNK_SIZE,
    {
        let relative: u64 = self.position - found.offset as u64;
        if relative >= found.size as u64 {
            return Err(StoreError::BadLayout);
        }
        let chunk_size: u64 = CHUNK_SIZE as u64;
        let chunk: u64 = relative / chunk_size;
        let within: u64 = relative % chunk_size;
        let length: u64 = smaller_of(self.end - self.position, chunk_size);
        let length: u64 = smaller_of(length, chunk_size - within);
        let length: u64 = smaller_of(length, found.size as u64 - relative);
        Ok(ChunkRequest { part: found.part, chunk, within, length })
    }

    /// Takes the bytes that were fetched, where they are as many as expected.
    pub fn accept(&mut self, expected: u64, bytes: &Vec<u8>) -> (taken: Result<(), StoreError>)
        requires
            old(self).position + expected <= old(self).end,
        ensures
            taken is Err <==> bytes@.len() != expected,
            taken matches Err(error) ==> error is Truncated && *final(self) == *old(self),
            taken is Ok ==> *final(self) == (ReadSnapshot {
                position: (old(self).position + expected) as u64,
                ..*old(self)
            }),
    {
        if bytes.len() as u64 != expected {
            return Err(StoreError::Truncated);
        }
        self.position = self.position + expected;
        Ok(())
    }
}

} // verus!
