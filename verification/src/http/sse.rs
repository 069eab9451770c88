//! Server-sent-event framing of a streamed completion.
use vstd::prelude::*;
use crate::engine::task::{is_task_error_json, TaskError};
use crate::json::JsonValue;

verus! {

/// The two stream dialects: the native one ends after the final object, the
/// OpenAI one adds a `[DONE]` frame.
#[derive(Debug, Clone, Copy, PartialEq, Eq, Structural)]
pub enum StreamFraming {
    LegacySse,
    OaiSse,
}

/// What the task sent next.
#[derive(Debug, Clone, Copy, PartialEq, Eq, Structural)]
pub enum StreamEvent {
    /// A partial result.
    Chunk,
    /// The final result.
    Done,
    /// The task failed.
    Error,
    /// The task went away without a final result.
    Closed,
}

/// `data: ` in ASCII.
pub open spec fn data_prefix() -> Seq<u8> {
    seq![0x64u8, 0x61u8, 0x74u8, 0x61u8, 0x3au8, 0x20u8]
}

/// The blank line that ends an event.
pub open spec fn event_end() -> Seq<u8> {
    seq![0x0au8, 0x0au8]
}

/// `[DONE]` in ASCII.
pub open spec fn done_payload() -> Seq<u8> {
    seq![0x5bu8, 0x44u8, 0x4fu8, 0x4eu8, 0x45u8, 0x5du8]
}

/// The event that carries `payload`.
pub open spec fn frame_spec(payload: Seq<u8>) -> Seq<u8> {
    data_prefix() + payload + event_end()
}

/// The frames sent for an event, and whether the stream ends with it.
pub open spec fn stream_frames_spec(framing: StreamFraming, event: StreamEvent, payload: Seq<u8>) -> (
    Seq<Seq<u8>>,
    bool,
) {
    match event {
        StreamEvent::Chunk => (seq![frame_spec(payload)], false),
        StreamEvent::Done => if framing == StreamFraming::OaiSse {
            (seq![frame_spec(payload), frame_spec(done_payload())], true)
        } else {
            (seq![frame_spec(payload)], true)
        },
        StreamEvent::Error => (seq![frame_spec(payload)], true),
        StreamEvent::Closed => (Seq::empty(), true),
    }
}

fn push_all(out: &mut Vec<u8>, bytes: &[u8])
    ensures
        final(out)@ == old(out)@ + bytes@,
{
    let mut i: usize = 0;
    while i < bytes.len()
        invariant
            i <= bytes@.len(),
            out@ == old(out)@ + bytes@.subrange(0, i as int),
        decreases bytes@.len() - i,
    {
        out.push(bytes[i]);
        assert(bytes@.subrange(0, i + 1) =~= bytes@.subrange(0, i as int).push(bytes@[i as int]));
        i = i + 1;
    }
    assert(bytes@.subrange(0, bytes@.len() as int) =~= bytes@);
}

/// `data: {payload}` followed by a blank line.
pub fn sse_frame(payload: &[u8]) -> (f: Vec<u8>)
    ensures
        f@ == frame_spec(payload@),
{
    let mut out: Vec<u8> = vec![0x64u8, 0x61u8, 0x74u8, 0x61u8, 0x3au8, 0x20u8];
    push_all(&mut out, payload);
    out.push(0x0au8);
    out.push(0x0au8);
    assert(out@ =~= frame_spec(payload@));
    out
}

/// The frame that ends an OpenAI stream.
pub fn done_frame() -> (f: Vec<u8>)
    ensures
        f@ == frame_spec(done_payload()),
{
    let payload: Vec<u8> = vec![0x5bu8, 0x44u8, 0x4fu8, 0x4eu8, 0x45u8, 0x5du8];
    assert(payload@ =~= done_payload());
    sse_frame(payload.as_slice())
}

/// The frames to send for the next event of the task, `payload` being the
/// serialized JSON it carries, and whether the stream ends after them.
pub fn stream_frames(framing: StreamFraming, event: StreamEvent, payload: &[u8]) -> (r: (
    Vec<Vec<u8>>,
    bool,
))
    ensures
        r.0@.len() == stream_frames_spec(framing, event, payload@).0.len(),
        forall|i: int|
            0 <= i < r.0@.len() ==> #[trigger] r.0@[i]@ == stream_frames_spec(framing, event, payload@).0[i],
        r.1 == stream_frames_spec(framing, event, payload@).1,
{
    let mut frames: Vec<Vec<u8>> = Vec::new();
    match event {
        StreamEvent::Chunk => {
            frames.push(sse_frame(payload));
            (frames, false)
        },
        StreamEvent::Done => {
            frames.push(sse_frame(payload));
            if framing == StreamFraming::OaiSse {
                frames.push(done_frame());
            }
            (frames, true)
        },
        StreamEvent::Error => {
            frames.push(sse_frame(payload));
            (frames, true)
        },
        StreamEvent::Closed => (frames, true),
    }
}

/// The object an error event carries: `{"error": {..}}`.
pub fn error_event_json(err: &TaskError) -> (v: JsonValue)
    ensures
        v matches JsonValue::Object(entries) && entries@.len() == 1 && entries@[0].0@ == "error"@
            && is_task_error_json(entries@[0].1, *err),
{
    let mut entries: Vec<(String, JsonValue)> = Vec::new();
    entries.push((String::from_str("error"), err.to_json()));
    JsonValue::Object(entries)
}

/// The native stream never sends `[DONE]`; the OpenAI stream sends it
/// right after the final object. Only a partial result keeps the stream
/// open.
pub proof fn law_done_frame(framing: StreamFraming, event: StreamEvent, payload: Seq<u8>)
    requires
        payload != done_payload(),
    ensures
        ({
            let (frames, finished) = stream_frames_spec(framing, event, payload);
            &&& framing == StreamFraming::LegacySse ==> !frames.contains(frame_spec(done_payload()))
            &&& (framing == StreamFraming::OaiSse && event == StreamEvent::Done) ==> frames.last()
                == frame_spec(done_payload())
            &&& finished <==> event != StreamEvent::Chunk
        }),
{
    if framing == StreamFraming::LegacySse {
        let (frames, finished) = stream_frames_spec(framing, event, payload);
        if frames.len() > 0 {
            assert(frames =~= seq![frame_spec(payload)]);
            if frame_spec(payload) == frame_spec(done_payload()) {
                assert(payload =~= frame_spec(payload).subrange(6, frame_spec(payload).len() - 2));
                assert(done_payload() =~= frame_spec(done_payload()).subrange(
                    6,
                    frame_spec(done_payload()).len() - 2,
                ));
            }
        }
    }
}

proof fn lemma_frame_payload(p: Seq<u8>, q: Seq<u8>)
    requires
        frame_spec(p) == frame_spec(q),
    ensures
        p == q,
{
    assert(p =~= frame_spec(p).subrange(6, frame_spec(p).len() - 2));
    assert(q =~= frame_spec(q).subrange(6, frame_spec(q).len() - 2));
}

/// A partial result is sent as exactly one event carrying it, in both
/// dialects: `data: `, the payload, and a blank line; the stream stays open.
/// The `[DONE]` frame is sent only with the final object of an OpenAI
/// stream, never after a partial result, an error or in the native dialect.
pub proof fn law_a_chunk_is_one_frame(framing: StreamFraming, event: StreamEvent, payload: Seq<u8>)
    ensures
        stream_frames_spec(framing, StreamEvent::Chunk, payload) == (
            seq![seq![0x64u8, 0x61u8, 0x74u8, 0x61u8, 0x3au8, 0x20u8] + payload + seq![0x0au8, 0x0au8]],
            false,
        ),
        payload != done_payload() && stream_frames_spec(framing, event, payload).0.contains(
            seq![0x64u8, 0x61u8, 0x74u8, 0x61u8, 0x3au8, 0x20u8, 0x5bu8, 0x44u8, 0x4fu8, 0x4eu8, 0x45u8, 0x5du8, 0x0au8, 0x0au8],
        ) ==> event == StreamEvent::Done && framing == StreamFraming::OaiSse,
{
    let done = seq![0x64u8, 0x61u8, 0x74u8, 0x61u8, 0x3au8, 0x20u8, 0x5bu8, 0x44u8, 0x4fu8, 0x4eu8, 0x45u8, 0x5du8, 0x0au8, 0x0au8];
    assert(done =~= frame_spec(done_payload()));
    assert(frame_spec(payload) =~= seq![0x64u8, 0x61u8, 0x74u8, 0x61u8, 0x3au8, 0x20u8] + payload + seq![0x0au8, 0x0au8]);
    let frames = stream_frames_spec(framing, event, payload).0;
    if payload != done_payload() && frames.contains(done) {
        let i = choose|i: int| 0 <= i < frames.len() && frames[i] == done;
        if !(event == StreamEvent::Done && framing == StreamFraming::OaiSse) {
            assert(frames[i] == frame_spec(payload));
            lemma_frame_payload(payload, done_payload());
        } else {
        }
    }
}

} // verus!
