//! What becomes of the door's media on its way to a backend.

use vstd::prelude::*;
use crate::bytes;
use crate::protocol;
use crate::state;
use crate::text;

verus! {

/// Why a frame could not be handed on.
#[derive(Clone, Copy, Debug, PartialEq, Eq, Structural)]
pub enum MediaError {
    Write,
}

/// Something that takes in the door's JPEG frames.
pub trait MediaEngine: Send {
    fn push_jpeg(&mut self, jpeg: &[u8], timestamp_micros: u64) -> Result<(), MediaError>;

    fn static_snapshot(&self) -> &[u8];

    fn name(&self) -> &'static str;

    /// The next piece of encoded video; an engine that does not encode has none.
    fn poll_h264(&mut self) -> (r: Option<Vec<u8>>)
        default_ensures
            r is None,
            &*final(self) == &*old(self),
    {
        None
    }
}

/// An engine that never decodes the door's untrusted frames: it counts them and shows a fixed
/// picture.
pub struct LiteMediaEngine {
    pub snapshot: Vec<u8>,
    pub discarded_frames: u64,
}

impl LiteMediaEngine {
    /// An engine that shows `snapshot`, or `black` where there is none.
    pub fn new(snapshot: Option<Vec<u8>>, black: &[u8]) -> (r: Self)
        ensures
            r.snapshot@ == (match snapshot {
                Some(picture) => picture@,
                None => black@,
            }),
            r.discarded_frames == 0,
    {
        let snapshot: Vec<u8> = match snapshot {
            Some(picture) => picture,
            None => bytes::copy_of(black),
        };
        LiteMediaEngine { snapshot, discarded_frames: 0 }
    }
}

impl MediaEngine for LiteMediaEngine {
    /// Counts the frame, modulo 2^64, and drops it.
    fn push_jpeg(&mut self, jpeg: &[u8], timestamp_micros: u64) -> (r: Result<(), MediaError>)
        ensures
            r is Ok,
            final(self).discarded_frames == state::counted(old(self).discarded_frames),
            final(self).snapshot@ == old(self).snapshot@,
    {
        self.discarded_frames = state::count(self.discarded_frames);
        Ok(())
    }

    fn static_snapshot(&self) -> (r: &[u8])
        ensures
            r@ == self.snapshot@,
    {
        self.snapshot.as_slice()
    }

    fn name(&self) -> (r: &'static str)
        ensures
            r@ == "lite"@,
    {
        "lite"
    }
}

/// The filter with which ffmpeg scales the frames to the configured size and rate.
pub fn ffmpeg_filter(width: u16, height: u16, fps: u16) -> (r: String)
    ensures
        r@ == "scale="@ + text::decimal(width as nat) + ":"@ + text::decimal(height as nat)
            + ",fps="@ + text::decimal(fps as nat),
{
    let mut out = String::new();
    text::push_text(&mut out, "scale=");
    text::push_number(&mut out, width as u64, 10);
    text::push_text(&mut out, ":");
    text::push_number(&mut out, height as u64, 10);
    text::push_text(&mut out, ",fps=");
    text::push_number(&mut out, fps as u64, 10);
    assert(out@ =~= "scale="@ + text::decimal(width as nat) + ":"@ + text::decimal(height as nat)
        + ",fps="@ + text::decimal(fps as nat));
    out
}

/// How many bytes of samples one audio packet carries.
pub const PCM_FRAME: usize = 512;

/// How many packets samples of this length take.
pub open spec fn pcm_count(len: nat) -> nat {
    (len + 511) / 512
}

/// The samples of packet number `i`, counted from zero: 512 bytes, the last ones padded with
/// zeros.
pub open spec fn pcm_frame(pcm: Seq<u8>, i: int) -> Seq<u8> {
    let end = if (i + 1) * 512 <= pcm.len() {
        (i + 1) * 512
    } else {
        pcm.len() as int
    };
    let part = pcm.subrange(i * 512, end);
    part + bytes::zeros((512 - part.len()) as nat)
}

/// The samples of all packets.
pub open spec fn pcm_split(pcm: Seq<u8>) -> Seq<Seq<u8>> {
    Seq::new(pcm_count(pcm.len()), |i: int| pcm_frame(pcm, i))
}

/// What the byte strings hold.
pub open spec fn blob_views(v: Seq<Vec<u8>>) -> Seq<Seq<u8>> {
    v.map_values(|b: Vec<u8>| b@)
}

/// Cuts samples into packets of 512 bytes; the last one is padded with silence.
pub fn pcm_frames(pcm: &[u8]) -> (r: Vec<Vec<u8>>)
    ensures
        blob_views(r@) == pcm_split(pcm@),
{
    let len: usize = pcm.len();
    let mut out: Vec<Vec<u8>> = Vec::new();
    let mut start: usize = 0;
    while start < len
        invariant
            len == pcm@.len(),
            start <= len,
            start < len ==> start == out@.len() * 512,
            start == len ==> out@.len() == pcm_count(pcm@.len()),
            forall|i: int| 0 <= i < out@.len() ==> (#[trigger] out@[i])@ == pcm_frame(pcm@, i),
        decreases len - start,
    {
        let end: usize = if len - start > PCM_FRAME {
            start + PCM_FRAME
        } else {
            len
        };
        let mut frame: Vec<u8> = bytes::copy_of(&pcm[start..end]);
        bytes::append_zeros(&mut frame, PCM_FRAME - (end - start));
        assert(frame@ =~= pcm_frame(pcm@, out@.len() as int));
        out.push(frame);
        start = end;
    }
    assert(blob_views(out@) =~= pcm_split(pcm@));
    out
}

/// Every packet of samples has the one length that an audio packet takes.
pub proof fn law_pcm_frames_fit(pcm: Seq<u8>)
    ensures
        forall|i: int|
            0 <= i < pcm_split(pcm).len() ==> (#[trigger] pcm_split(pcm)[i]).len() == PCM_FRAME,
{
}

/// The packets one behind the other are the samples, followed by less than a packet of silence.
pub proof fn law_pcm_frames_join(pcm: Seq<u8>)
    ensures
        protocol::joined(pcm_split(pcm)) == pcm + bytes::zeros(
            (pcm_count(pcm.len()) * 512 - pcm.len()) as nat,
        ),
        pcm_count(pcm.len()) * 512 - pcm.len() < 512,
    decreases pcm.len(),
{
    if pcm.len() == 0 {
        assert(pcm_split(pcm) =~= Seq::empty());
        assert(protocol::joined(pcm_split(pcm)) =~= pcm + bytes::zeros(0));
    } else if pcm.len() <= 512 {
        let first = pcm_frame(pcm, 0);
        assert(pcm_split(pcm) =~= seq![first]);
        assert(seq![first].drop_first() =~= Seq::empty());
        assert(protocol::joined(Seq::<Seq<u8>>::empty()) =~= Seq::empty());
        assert(first =~= pcm + bytes::zeros((512 - pcm.len()) as nat));
        assert(protocol::joined(pcm_split(pcm)) =~= first);
    } else {
        let rest = pcm.skip(512);
        law_pcm_frames_join(rest);
        assert(pcm_count(pcm.len()) == pcm_count(rest.len()) + 1);
        assert(pcm_split(pcm).drop_first() =~= pcm_split(rest)) by {
            assert forall|i: int| 0 <= i < pcm_count(rest.len()) implies pcm_frame(pcm, i + 1)
                == #[trigger] pcm_frame(rest, i) by {
                assert(pcm_frame(pcm, i + 1) =~= pcm_frame(rest, i));
            }
        }
        assert(pcm_frame(pcm, 0) =~= pcm.take(512));
        let tail = bytes::zeros((pcm_count(pcm.len()) * 512 - pcm.len()) as nat);
        assert(pcm.take(512) + (rest + tail) =~= pcm + tail);
    }
}

/// Samples are cut into pieces of 512 bytes, as many as it takes; each byte stands where it stood,
/// and the last piece is filled with silence.
pub proof fn law_pcm_bytes_keep_their_places(pcm: Seq<u8>, i: int, j: int)
    ensures
        pcm_split(pcm).len() == (pcm.len() + 511) / 512,
        0 <= i < pcm_split(pcm).len() && 0 <= j < 512 ==> {
            &&& pcm_split(pcm)[i].len() == 512
            &&& i * 512 + j < pcm.len() ==> pcm_split(pcm)[i][j] == pcm[i * 512 + j]
            &&& i * 512 + j >= pcm.len() ==> pcm_split(pcm)[i][j] == 0
        },
{
    if 0 <= i < pcm_split(pcm).len() && 0 <= j < 512 {
        assert(pcm_split(pcm)[i] == pcm_frame(pcm, i));
    }
}

} // verus!
