//! The body of a response, read up to a limit.

use vstd::prelude::*;
use vstd::utf8::{decode_utf8, valid_utf8};

use crate::error::{fetch_failed, respond, FunctionCallError, FETCH_URL_TOO_LARGE};

verus! {

/// How many bytes of a body are read.
pub const MAX_FETCH_BODY_BYTES: usize = 1_048_576;

/// What `String::from_utf8_lossy` makes of `bytes`.
pub uninterp spec fn utf8_lossy(bytes: Seq<u8>) -> Seq<char>;

/// Calls `String::from_utf8_lossy`. Bytes that are valid UTF-8 are decoded; for
/// others the text depends on the bytes alone, and where replacement characters
/// stand in it is not said here.
#[verifier::external_body]
fn lossy_text(bytes: &[u8]) -> (text: String)
    ensures
        text@ == utf8_lossy(bytes@),
        valid_utf8(bytes@) ==> text@ == decode_utf8(bytes@),
{
    String::from_utf8_lossy(bytes).into_owned()
}

/// The part of `bytes` that is kept: as much of its start as the limit admits.
pub open spec fn limited(bytes: Seq<u8>) -> Seq<u8> {
    if bytes.len() <= MAX_FETCH_BODY_BYTES {
        bytes
    } else {
        bytes.take(MAX_FETCH_BODY_BYTES as int)
    }
}

/// Whether a response that announces `content_length` bytes, if it announces
/// them, is refused unread.
pub open spec fn too_large(content_length: Option<u64>) -> bool {
    match content_length {
        Some(len) => len > MAX_FETCH_BODY_BYTES,
        None => false,
    }
}

/// What a read of the response gave: a chunk, the end of the body, or what the
/// client reports in place of either.
pub open spec fn read_view(event: Result<Option<Vec<u8>>, String>) -> Result<
    Option<Seq<u8>>,
    Seq<char>,
> {
    match event {
        Ok(Some(chunk)) => Ok(Some(chunk@)),
        Ok(None) => Ok(None),
        Err(detail) => Err(detail@),
    }
}

/// How far a body is read.
pub enum Reading {
    /// These bytes were read, and there is room for more.
    More(Seq<u8>),
    /// Nothing more is read; these bytes are the body.
    Done(Seq<u8>),
    /// Give up with this message.
    Fail(Seq<char>),
}

/// Where a body of which `bytes` were read stands after `event`.
pub open spec fn read_outcome(
    bytes: Seq<u8>,
    event: Result<Option<Seq<u8>>, Seq<char>>,
) -> Reading {
    match event {
        Err(detail) => Reading::Fail("FetchURL failed: "@ + detail),
        Ok(None) => Reading::Done(bytes),
        Ok(Some(chunk)) => if (bytes + chunk).len() < MAX_FETCH_BODY_BYTES {
            Reading::More(bytes + chunk)
        } else {
            Reading::Done(limited(bytes + chunk))
        },
    }
}

/// A body that is being read and has room for more.
#[derive(Debug)]
pub struct BodyReader {
    bytes: Vec<u8>,
}

impl View for BodyReader {
    type V = Seq<u8>;

    closed spec fn view(&self) -> Seq<u8> {
        self.bytes@
    }
}

/// What a read calls for.
#[derive(Debug)]
pub enum BodyStep {
    /// Read on.
    More(BodyReader),
    /// Stop; this is the text of the body.
    Done(String),
    /// Give up.
    Fail(FunctionCallError),
}

/// Whether `step` is the one that `reading` describes.
pub open spec fn reads(step: BodyStep, reading: Reading) -> bool {
    match (step, reading) {
        (BodyStep::More(reader), Reading::More(bytes)) => reader@ == bytes,
        (BodyStep::Done(text), Reading::Done(bytes)) => text@ == utf8_lossy(bytes) && (valid_utf8(
            bytes,
        ) ==> text@ == decode_utf8(bytes)),
        (BodyStep::Fail(err), Reading::Fail(message)) => err@ == message,
        _ => false,
    }
}

impl BodyReader {
    #[verifier::type_invariant]
    spec fn inv(self) -> bool {
        self.bytes@.len() < MAX_FETCH_BODY_BYTES
    }

    /// A body of which nothing is read yet, unless the response announces too much.
    pub fn open(content_length: Option<u64>) -> (reader: Result<BodyReader, FunctionCallError>)
        ensures
            match reader {
                Ok(reader) => !too_large(content_length) && reader@ == Seq::<u8>::empty(),
                Err(err) => too_large(content_length) && err@ == FETCH_URL_TOO_LARGE@,
            },
    {
        if let Some(len) = content_length {
            if len > MAX_FETCH_BODY_BYTES as u64 {
                return Err(respond(FETCH_URL_TOO_LARGE));
            }
        }
        Ok(BodyReader { bytes: Vec::new() })
    }

    /// Takes what a read gave: a chunk, of which as much is kept as there is room
    /// for, the end of the body, or a failure.
    pub fn answer(self, event: Result<Option<Vec<u8>>, String>) -> (step: BodyStep)
        ensures
            self@.len() < MAX_FETCH_BODY_BYTES,
            reads(step, read_outcome(self@, read_view(event))),
    {
        proof {
            use_type_invariant(&self);
        }
        let mut bytes = self.bytes;
        let chunk = match event {
            Ok(Some(chunk)) => chunk,
            Ok(None) => {
                return BodyStep::Done(lossy_text(bytes.as_slice()));
            },
            Err(detail) => {
                return BodyStep::Fail(fetch_failed(detail.as_str()));
            },
        };
        let ghost before = bytes@;
        let room: usize = MAX_FETCH_BODY_BYTES - bytes.len();
        let n: usize = if chunk.len() > room {
            room
        } else {
            chunk.len()
        };
        for i in 0..n
            invariant
                n <= chunk@.len(),
                before.len() + n <= MAX_FETCH_BODY_BYTES,
                bytes@ == before + chunk@.take(i as int),
        {
            bytes.push(chunk[i]);
        }
        assert(bytes@ == limited(before + chunk@));
        if bytes.len() < MAX_FETCH_BODY_BYTES {
            BodyStep::More(BodyReader { bytes })
        } else {
            BodyStep::Done(lossy_text(bytes.as_slice()))
        }
    }
}

/// Where a body of which `bytes` were read stands after `events`, of which none is
/// asked for once the body is done or given up.
pub open spec fn read_run(
    bytes: Seq<u8>,
    events: Seq<Result<Option<Seq<u8>>, Seq<char>>>,
) -> Reading
    decreases events.len(),
{
    if events.len() == 0 {
        Reading::More(bytes)
    } else {
        match read_outcome(bytes, events[0]) {
            Reading::More(more) => read_run(more, events.skip(1)),
            reading => reading,
        }
    }
}

/// The bytes of the chunks among `events`.
pub open spec fn received(events: Seq<Result<Option<Seq<u8>>, Seq<char>>>) -> Seq<u8>
    decreases events.len(),
{
    if events.len() == 0 {
        Seq::empty()
    } else {
        match events[0] {
            Ok(Some(chunk)) => chunk + received(events.skip(1)),
            _ => received(events.skip(1)),
        }
    }
}

/// Whether event `i` is asked for after `bytes`: all before it are chunks, and
/// they do not reach the limit.
pub open spec fn reaches(
    bytes: Seq<u8>,
    events: Seq<Result<Option<Seq<u8>>, Seq<char>>>,
    i: int,
) -> bool {
    &&& 0 <= i <= events.len()
    &&& forall|j: int| 0 <= j < i ==> (#[trigger] events[j]) is Ok && events[j]->Ok_0 is Some
    &&& (bytes + received(events.take(i))).len() < MAX_FETCH_BODY_BYTES
}

/// An event that is asked for finds what the chunks before it left.
proof fn lemma_run_reaches(
    bytes: Seq<u8>,
    events: Seq<Result<Option<Seq<u8>>, Seq<char>>>,
    i: int,
)
    requires
        reaches(bytes, events, i),
    ensures
        read_run(bytes, events) == read_run(bytes + received(events.take(i)), events.skip(i)),
    decreases i,
{
    if i == 0 {
        assert(events.take(0) == Seq::<Result<Option<Seq<u8>>, Seq<char>>>::empty());
        assert(bytes + received(events.take(0)) == bytes);
        assert(events.skip(0) == events);
    } else {
        let rest = events.skip(1);
        let first = events[0]->Ok_0->Some_0;
        assert(events.take(i)[0] == events[0]);
        assert(events.take(i).skip(1) == rest.take(i - 1));
        assert(received(events.take(i)) == first + received(rest.take(i - 1)));
        assert(bytes + received(events.take(i)) == (bytes + first) + received(rest.take(i - 1)));
        assert(read_outcome(bytes, events[0]) == Reading::More(bytes + first));
        assert(reaches(bytes + first, rest, i - 1));
        lemma_run_reaches(bytes + first, rest, i - 1);
        assert(rest.skip(i - 1) == events.skip(i));
    }
}

/// Every run stops at some event that it asked for, or asks for more after all.
proof fn lemma_run_stops(
    bytes: Seq<u8>,
    events: Seq<Result<Option<Seq<u8>>, Seq<char>>>,
) -> (i: int)
    requires
        bytes.len() < MAX_FETCH_BODY_BYTES,
    ensures
        reaches(bytes, events, i),
        i < events.len() ==> {
            &&& !(read_run(bytes, events) is More)
            &&& read_run(bytes, events) == read_outcome(
                bytes + received(events.take(i)),
                events[i],
            )
        },
        i == events.len() ==> read_run(bytes, events) == Reading::More(bytes + received(events)),
    decreases events.len(),
{
    assert(events.take(0) == Seq::<Result<Option<Seq<u8>>, Seq<char>>>::empty());
    assert(bytes + received(events.take(0)) == bytes);
    if events.len() == 0 {
        assert(bytes + received(events) == bytes);
        0
    } else if let Reading::More(more) = read_outcome(bytes, events[0]) {
        let rest = events.skip(1);
        let k = lemma_run_stops(more, rest);
        let i = k + 1;
        assert(events.take(i)[0] == events[0]);
        assert(events.take(i).skip(1) == rest.take(k));
        assert(bytes + received(events.take(i)) == more + received(rest.take(k)));
        assert(bytes + received(events) == more + received(rest));
        assert forall|j: int| 0 <= j < i implies (#[trigger] events[j]) is Ok
            && events[j]->Ok_0 is Some by {
            if j > 0 {
                assert(events[j] == rest[j - 1]);
            }
        }
        assert(i < events.len() ==> events[i] == rest[k]);
        i
    } else {
        0
    }
}

/// Reading fails exactly if a read fails before the limit is reached and before
/// the body ends, and it then tells what that read reported.
pub proof fn law_reading_fails_with_a_read(
    events: Seq<Result<Option<Seq<u8>>, Seq<char>>>,
    message: Seq<char>,
)
    ensures
        read_run(Seq::empty(), events) == Reading::Fail(message) <==> exists|i: int|
            {
                &&& #[trigger] reaches(Seq::empty(), events, i)
                &&& i < events.len()
                &&& events[i] is Err
                &&& message == "FetchURL failed: "@ + events[i]->Err_0
            },
{
    let none = Seq::<u8>::empty();
    let stop = lemma_run_stops(none, events);
    if read_run(none, events) == Reading::Fail(message) {
        assert(reaches(none, events, stop));
        assert(stop < events.len() && events[stop] is Err);
    }
    assert forall|i: int|
        (#[trigger] reaches(none, events, i)) && i < events.len() && events[i] is Err && message
            == "FetchURL failed: "@ + events[i]->Err_0 implies read_run(none, events)
        == Reading::Fail(message) by {
        lemma_run_reaches(none, events, i);
        assert(events.skip(i)[0] == events[i]);
    }
}

/// Reading is done exactly where the body ends before the limit, or where a chunk
/// reaches the limit, and the body is then the start of what was received, up to
/// the limit.
pub proof fn law_reading_is_done(
    events: Seq<Result<Option<Seq<u8>>, Seq<char>>>,
    body: Seq<u8>,
)
    ensures
        read_run(Seq::empty(), events) == Reading::Done(body) <==> exists|i: int|
            {
                &&& #[trigger] reaches(Seq::empty(), events, i)
                &&& i < events.len()
                &&& events[i] is Ok
                &&& events[i]->Ok_0 is Some ==> received(events.take(i + 1)).len()
                    >= MAX_FETCH_BODY_BYTES
                &&& body == limited(received(events.take(i + 1)))
            },
{
    let none = Seq::<u8>::empty();
    let stop = lemma_run_stops(none, events);
    assert forall|i: int|
        #![trigger reaches(none, events, i)]
        reaches(none, events, i) && i < events.len() && events[i] is Ok implies none + received(
        events.take(i),
    ) == received(events.take(i)) && received(events.take(i + 1)) == (match events[i]->Ok_0 {
        Some(chunk) => received(events.take(i)) + chunk,
        None => received(events.take(i)),
    }) by {
        lemma_received_push(events.take(i), events[i]);
        assert(events.take(i + 1) == events.take(i).push(events[i]));
    }
    if read_run(none, events) == Reading::Done(body) {
        assert(reaches(none, events, stop));
        assert(stop < events.len() && events[stop] is Ok);
        assert(body == limited(received(events.take(stop + 1))));
    }
    assert forall|i: int|
        (#[trigger] reaches(none, events, i)) && i < events.len() && events[i] is Ok && (
        events[i]->Ok_0 is Some ==> received(events.take(i + 1)).len() >= MAX_FETCH_BODY_BYTES)
            && body == limited(received(events.take(i + 1))) implies read_run(none, events)
        == Reading::Done(body) by {
        lemma_run_reaches(none, events, i);
        assert(events.skip(i)[0] == events[i]);
    }
}

proof fn lemma_received_push(
    events: Seq<Result<Option<Seq<u8>>, Seq<char>>>,
    event: Result<Option<Seq<u8>>, Seq<char>>,
)
    ensures
        received(events.push(event)) == received(events) + (match event {
            Ok(Some(chunk)) => chunk,
            _ => Seq::empty(),
        }),
    decreases events.len(),
{
    let longer = events.push(event);
    if events.len() == 0 {
        assert(longer.skip(1) == events);
        assert(received(events) == Seq::<u8>::empty());
    } else {
        assert(longer.skip(1) == events.skip(1).push(event));
        assert(longer[0] == events[0]);
        lemma_received_push(events.skip(1), event);
    }
    assert(received(longer) == received(events) + (match event {
        Ok(Some(chunk)) => chunk,
        _ => Seq::empty(),
    }));
}

/// However a body is cut into chunks, its text is that of its start, up to the
/// limit.
pub proof fn law_chunks_do_not_matter(chunks: Seq<Seq<u8>>)
    ensures
        read_run(
            Seq::empty(),
            chunks.map_values(
                |chunk: Seq<u8>| Ok::<Option<Seq<u8>>, Seq<char>>(Some(chunk)),
            ).push(Ok(None)),
        ) == Reading::Done(limited(chunks.flatten())),
{
    lemma_chunks(Seq::empty(), chunks);
    assert(Seq::<u8>::empty() + chunks.flatten() == chunks.flatten());
}

proof fn lemma_chunks(bytes: Seq<u8>, chunks: Seq<Seq<u8>>)
    requires
        bytes.len() < MAX_FETCH_BODY_BYTES,
    ensures
        read_run(
            bytes,
            chunks.map_values(
                |chunk: Seq<u8>| Ok::<Option<Seq<u8>>, Seq<char>>(Some(chunk)),
            ).push(Ok(None)),
        ) == Reading::Done(limited(bytes + chunks.flatten())),
    decreases chunks.len(),
{
    let events = chunks.map_values(
        |chunk: Seq<u8>| Ok::<Option<Seq<u8>>, Seq<char>>(Some(chunk)),
    ).push(Ok(None));
    if chunks.len() == 0 {
        assert(events[0] == Ok::<Option<Seq<u8>>, Seq<char>>(None));
        assert(bytes + chunks.flatten() == bytes);
    } else {
        let rest = chunks.drop_first();
        assert(events.skip(1) == rest.map_values(
            |chunk: Seq<u8>| Ok::<Option<Seq<u8>>, Seq<char>>(Some(chunk)),
        ).push(Ok(None)));
        assert(bytes + chunks.flatten() == (bytes + chunks[0]) + rest.flatten());
        if (bytes + chunks[0]).len() < MAX_FETCH_BODY_BYTES {
            lemma_chunks(bytes + chunks[0], rest);
        } else {
            assert(limited(bytes + chunks[0]) == limited(
                (bytes + chunks[0]) + rest.flatten(),
            ));
        }
    }
}

/// Of a body, its first mebibyte is kept, or all of it where it has no more; a
/// response that announces more is refused.
pub proof fn law_limit(bytes: Seq<u8>, content_length: Option<u64>)
    ensures
        limited(bytes).is_prefix_of(bytes),
        bytes.len() <= 1_048_576 ==> limited(bytes).len() == bytes.len(),
        bytes.len() > 1_048_576 ==> limited(bytes).len() == 1_048_576,
        too_large(content_length) <==> content_length is Some && content_length->0 > 1_048_576,
{
    assert(limited(bytes) == bytes.subrange(0, limited(bytes).len() as int));
}

/// A read adds its chunk to what was read before it, as long as there is room; the
/// end of the body, or the last room, ends the reading with what was read so far; a
/// failure is quoted.
pub proof fn law_one_read(bytes: Seq<u8>, chunk: Seq<u8>, detail: Seq<char>)
    ensures
        read_outcome(bytes, Ok(None)) == Reading::Done(bytes),
        read_outcome(bytes, Err(detail)) == Reading::Fail("FetchURL failed: "@ + detail),
        bytes.len() + chunk.len() < 1_048_576 ==> read_outcome(bytes, Ok(Some(chunk)))
            == Reading::More(bytes + chunk),
        bytes.len() + chunk.len() >= 1_048_576 ==> read_outcome(bytes, Ok(Some(chunk)))
            == Reading::Done((bytes + chunk).take(1_048_576)),
{
    let all = bytes + chunk;
    if all.len() == 1_048_576 {
        assert(all.take(1_048_576) == all);
    }
}

/// What was received is the chunks of the reads, in order.
pub proof fn law_received(chunks: Seq<Seq<u8>>)
    ensures
        received(
            chunks.map_values(|chunk: Seq<u8>| Ok::<Option<Seq<u8>>, Seq<char>>(Some(chunk))),
        ) == chunks.flatten(),
    decreases chunks.len(),
{
    let events = chunks.map_values(
        |chunk: Seq<u8>| Ok::<Option<Seq<u8>>, Seq<char>>(Some(chunk)),
    );
    if chunks.len() > 0 {
        let rest = chunks.drop_first();
        assert(events.skip(1) == rest.map_values(
            |chunk: Seq<u8>| Ok::<Option<Seq<u8>>, Seq<char>>(Some(chunk)),
        ));
        law_received(rest);
    }
}

/// A step is the one that a reading describes only if it is of the same kind, holds
/// the bytes read so far or their text, and tells the same message.
pub proof fn law_body_steps(step: BodyStep, reading: Reading)
    ensures
        reads(step, reading) ==> match reading {
            Reading::More(bytes) => step matches BodyStep::More(reader) && reader@ == bytes,
            Reading::Done(bytes) => step matches BodyStep::Done(text) && text@ == utf8_lossy(bytes)
                && (valid_utf8(bytes) ==> text@ == decode_utf8(bytes)),
            Reading::Fail(message) => step matches BodyStep::Fail(err) && err@ == message,
        },
{
}

/// What a read gave is taken as it is.
pub proof fn law_read_contents(chunk: Vec<u8>, detail: String)
    ensures
        read_view(Ok(Some(chunk))) == Ok::<Option<Seq<u8>>, Seq<char>>(Some(chunk@)),
        read_view(Ok(None)) == Ok::<Option<Seq<u8>>, Seq<char>>(None),
        read_view(Err(detail)) == Err::<Option<Seq<u8>>, Seq<char>>(detail@),
{
}

} // verus!
