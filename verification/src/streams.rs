//! The streams of the control plane while they are open: what is written for whatever happens to
//! them, and when they end.

use vstd::prelude::*;
use vstd::utf8;
use crate::agent_api::{AudioChunk, VideoFrame};
use crate::agent_server;
use crate::agent_server::{EventText, EventTextView, TalkBuffer, KEEP_ALIVE};
use crate::http;
use crate::media;

verus! {

/// What happens to an event stream.
#[derive(Debug)]
pub enum FeedEvent {
    /// There is an event.
    Message(EventText),
    /// The client was too slow and lost events; the state now, put into words.
    Lagged(String),
    /// There will be no more events.
    Closed,
    Heartbeat,
    /// The stream has been open for long enough.
    Expired,
    /// The client has sent something.
    ClientSpoke,
    ClientGone,
}

/// What is to be done with a stream.
#[derive(Debug)]
pub enum StreamStep {
    /// To write these bytes.
    Write(Vec<u8>),
    /// To write these bytes and end the stream.
    Finish(Vec<u8>),
    /// To end the stream without another byte.
    Leave,
    /// Nothing.
    Wait,
}

/// What is to be done with a stream.
pub enum StepView {
    Write(Seq<u8>),
    Finish(Seq<u8>),
    Leave,
    Wait,
}

impl View for StreamStep {
    type V = StepView;

    open spec fn view(&self) -> StepView {
        match self {
            StreamStep::Write(bytes) => StepView::Write(bytes@),
            StreamStep::Finish(bytes) => StepView::Finish(bytes@),
            StreamStep::Leave => StepView::Leave,
            StreamStep::Wait => StepView::Wait,
        }
    }
}

/// What is written for an event of this name: one message, as a chunk of its own.
pub open spec fn message_chunk(e: EventTextView) -> Seq<u8> {
    http::chunk_bytes(utf8::encode_utf8(agent_server::message_text(e.seq, e.name, e.data)))
}

/// What is to be done with an event stream. A client that lost events gets a snapshot in their
/// place.
pub open spec fn feed_step(event: FeedEvent) -> StepView {
    match event {
        FeedEvent::Message(text) => StepView::Write(message_chunk(text@)),
        FeedEvent::Lagged(state) => StepView::Write(
            message_chunk(EventTextView { seq: 0, name: "snapshot"@, data: state@ }),
        ),
        FeedEvent::Heartbeat => StepView::Write(
            http::chunk_bytes(utf8::encode_utf8(KEEP_ALIVE@)),
        ),
        FeedEvent::Closed => StepView::Finish(http::last_chunk()),
        FeedEvent::Expired => StepView::Finish(http::last_chunk()),
        FeedEvent::ClientSpoke => StepView::Wait,
        FeedEvent::ClientGone => StepView::Leave,
    }
}

/// What is to be done with an event stream.
pub fn on_feed(event: FeedEvent) -> (r: StreamStep)
    ensures
        r@ == feed_step(event),
{
    match event {
        FeedEvent::Message(text) => {
            let message = agent_server::sse_message(
                text.seq,
                text.name.as_str(),
                text.data.as_str(),
            );
            StreamStep::Write(http::write_chunk(message.as_str().as_bytes()))
        },
        FeedEvent::Lagged(state) => {
            let message = agent_server::sse_message(0, "snapshot", state.as_str());
            StreamStep::Write(http::write_chunk(message.as_str().as_bytes()))
        },
        FeedEvent::Heartbeat => StreamStep::Write(http::write_chunk(KEEP_ALIVE.as_bytes())),
        FeedEvent::Closed => StreamStep::Finish(http::write_last_chunk()),
        FeedEvent::Expired => StreamStep::Finish(http::write_last_chunk()),
        FeedEvent::ClientSpoke => StreamStep::Wait,
        FeedEvent::ClientGone => StreamStep::Leave,
    }
}

/// What happens to a stream of frames.
#[derive(Debug)]
pub enum VideoEvent {
    Frame(VideoFrame),
    /// The client was too slow and lost frames.
    Lagged,
    Closed,
    ClientGone,
}

/// What is to be done with a stream of frames: each is a part of its own, and lost ones are not
/// made up for.
pub open spec fn video_step(event: VideoEvent) -> StepView {
    match event {
        VideoEvent::Frame(frame) => StepView::Write(
            agent_server::part_bytes(frame.jpeg@, frame.pts_us),
        ),
        VideoEvent::Lagged => StepView::Wait,
        VideoEvent::Closed => StepView::Leave,
        VideoEvent::ClientGone => StepView::Leave,
    }
}

/// What is to be done with a stream of frames.
pub fn on_video(event: VideoEvent) -> (r: StreamStep)
    ensures
        r@ == video_step(event),
{
    match event {
        VideoEvent::Frame(frame) => {
            StreamStep::Write(agent_server::video_part(&frame.jpeg, frame.pts_us))
        },
        VideoEvent::Lagged => StreamStep::Wait,
        VideoEvent::Closed => StreamStep::Leave,
        VideoEvent::ClientGone => StreamStep::Leave,
    }
}

/// What happens to a stream of samples.
#[derive(Debug)]
pub enum AudioEvent {
    Chunk(AudioChunk),
    /// The client was too slow and lost samples.
    Lagged,
    Closed,
    ClientGone,
}

/// What is to be done with a stream of samples: they go out in network order, and lost ones are
/// not made up for.
pub open spec fn audio_step(event: AudioEvent) -> StepView {
    match event {
        AudioEvent::Chunk(chunk) => StepView::Write(
            http::chunk_bytes(agent_server::swapped(chunk.pcm@)),
        ),
        AudioEvent::Lagged => StepView::Wait,
        AudioEvent::Closed => StepView::Finish(http::last_chunk()),
        AudioEvent::ClientGone => StepView::Leave,
    }
}

/// What is to be done with a stream of samples.
pub fn on_audio(event: AudioEvent) -> (r: StreamStep)
    ensures
        r@ == audio_step(event),
{
    match event {
        AudioEvent::Chunk(chunk) => {
            let samples = agent_server::network_order(&chunk.pcm);
            StreamStep::Write(http::write_chunk(&samples))
        },
        AudioEvent::Lagged => StreamStep::Wait,
        AudioEvent::Closed => StreamStep::Finish(http::write_last_chunk()),
        AudioEvent::ClientGone => StreamStep::Leave,
    }
}

/// What comes over the socket of a talk-back.
#[derive(Debug)]
pub enum TalkMessage {
    /// Samples.
    Binary(Vec<u8>),
    Ping(Vec<u8>),
    Close,
    /// The socket has failed.
    Failed,
    /// Anything else.
    Other,
}

/// What is to be done with a talk-back.
#[derive(Debug)]
pub enum TalkStep {
    /// To hand these frames to the Agent.
    Forward(Vec<Vec<u8>>),
    Pong(Vec<u8>),
    End,
    Nothing,
}

/// What is to be done with a talk-back.
pub enum TalkView {
    Forward(Seq<Seq<u8>>),
    Pong(Seq<u8>),
    End,
    Nothing,
}

impl View for TalkStep {
    type V = TalkView;

    open spec fn view(&self) -> TalkView {
        match self {
            TalkStep::Forward(frames) => TalkView::Forward(media::blob_views(frames@)),
            TalkStep::Pong(payload) => TalkView::Pong(payload@),
            TalkStep::End => TalkView::End,
            TalkStep::Nothing => TalkView::Nothing,
        }
    }
}

/// What is to be done once a message has come over the socket, where `pending` has been said
/// before and fills no frame.
pub open spec fn talk_step(pending: Seq<u8>, message: TalkMessage) -> TalkView {
    match message {
        TalkMessage::Binary(piece) => TalkView::Forward(
            agent_server::full_frames(pending + piece@),
        ),
        TalkMessage::Ping(payload) => TalkView::Pong(payload@),
        TalkMessage::Close => TalkView::End,
        TalkMessage::Failed => TalkView::End,
        TalkMessage::Other => TalkView::Nothing,
    }
}

/// What is left over once a message has come over the socket.
pub open spec fn talk_left(pending: Seq<u8>, message: TalkMessage) -> Seq<u8> {
    match message {
        TalkMessage::Binary(piece) => agent_server::unfilled(pending + piece@),
        _ => pending,
    }
}

/// Takes in a message of the socket of a talk-back.
pub fn on_talk(buffer: &mut TalkBuffer, message: TalkMessage) -> (r: TalkStep)
    ensures
        r@ == talk_step(old(buffer)@, message),
        final(buffer)@ == talk_left(old(buffer)@, message),
{
    match message {
        TalkMessage::Binary(piece) => {
            let frames = buffer.push(&piece);
            assert(media::blob_views(frames@) =~= frames@.map_values(|f: Vec<u8>| f@));
            TalkStep::Forward(frames)
        },
        TalkMessage::Ping(payload) => TalkStep::Pong(payload),
        TalkMessage::Close => TalkStep::End,
        TalkMessage::Failed => TalkStep::End,
        TalkMessage::Other => TalkStep::Nothing,
    }
}

/// A stream ends only where its source closes, its time is up or its client goes away: neither
/// a slow client nor a quiet one loses its stream.
pub proof fn law_slow_clients_stay(event: FeedEvent)
    requires
        event !is Closed,
        event !is Expired,
        event !is ClientGone,
    ensures
        feed_step(event) is Write || feed_step(event) is Wait,
        video_step(VideoEvent::Lagged) is Wait,
        audio_step(AudioEvent::Lagged) is Wait,
{
}

/// What a stream sends and when it ends. Each event goes out as one chunk with its message; one
/// that fell behind gets the snapshot instead; a heartbeat is a comment. A stream that is closed
/// or has lived its time ends with the last chunk, and nothing is sent to a client that is gone.
pub proof fn law_streams_send_what_comes(text: EventText, state: String, piece: AudioChunk, frame: VideoFrame)
    ensures
        feed_step(FeedEvent::Message(text)) == StepView::Write(
            http::chunk_bytes(
                utf8::encode_utf8(
                    agent_server::message_text(text@.seq, text@.name, text@.data),
                ),
            ),
        ),
        feed_step(FeedEvent::Lagged(state)) == StepView::Write(
            http::chunk_bytes(
                utf8::encode_utf8(agent_server::message_text(0, "snapshot"@, state@)),
            ),
        ),
        feed_step(FeedEvent::Heartbeat) == StepView::Write(
            http::chunk_bytes(utf8::encode_utf8(": keep-alive\n\n"@)),
        ),
        feed_step(FeedEvent::Closed) == StepView::Finish(http::last_chunk()),
        feed_step(FeedEvent::Expired) == StepView::Finish(http::last_chunk()),
        feed_step(FeedEvent::ClientSpoke) == StepView::Wait,
        feed_step(FeedEvent::ClientGone) == StepView::Leave,
        video_step(VideoEvent::Frame(frame)) == StepView::Write(
            agent_server::part_bytes(frame.jpeg@, frame.pts_us),
        ),
        video_step(VideoEvent::Closed) == StepView::Leave,
        video_step(VideoEvent::ClientGone) == StepView::Leave,
        audio_step(AudioEvent::Chunk(piece)) == StepView::Write(
            http::chunk_bytes(agent_server::swapped(piece.pcm@)),
        ),
        audio_step(AudioEvent::Closed) == StepView::Finish(http::last_chunk()),
        audio_step(AudioEvent::ClientGone) == StepView::Leave,
{
}

/// Nothing that a talker sends is lost or doubled: what is forwarded, with what is held back, is
/// what was held back before and what came in. Only whole pieces of 512 bytes are forwarded, and
/// less than one is held back. A ping is echoed, and the talk ends with a close or a failure.
pub proof fn law_talk_is_cut_into_frames(pending: Seq<u8>, piece: Vec<u8>, i: int)
    ensures
        ({
            let step = talk_step(pending, TalkMessage::Binary(piece));
            let left = talk_left(pending, TalkMessage::Binary(piece));
            let all = pending + piece@;
            let frames = step->Forward_0;
            &&& step is Forward
            &&& frames.len() == all.len() / 512
            &&& left.len() == all.len() % 512
            &&& left == all.skip(all.len() - all.len() % 512)
            &&& 0 <= i < frames.len() ==> frames[i] == all.subrange(i * 512, i * 512 + 512)
        }),
        talk_step(pending, TalkMessage::Ping(piece)) == TalkView::Pong(piece@),
        talk_step(pending, TalkMessage::Close) == TalkView::End,
        talk_step(pending, TalkMessage::Failed) == TalkView::End,
        talk_step(pending, TalkMessage::Other) == TalkView::Nothing,
        talk_left(pending, TalkMessage::Ping(piece)) == pending,
        talk_left(pending, TalkMessage::Other) == pending,
{
    agent_server::law_talk_frames_are_whole(pending + piece@, i);
}

} // verus!
