//! Decoding audio files into interleaved stereo 16-bit PCM.
//!
//! WAV files are read with `hound`, MP3 files with `minimp3`; the library
//! turns what they return into stereo sample streams.

use std::io::Cursor;

use vstd::prelude::*;
use vstd::string::StringSliceAdditionalSpecFns;

use crate::model::prefixed;

verus! {

/// Decoded PCM audio: interleaved samples.
#[derive(Debug, Clone)]
pub struct WavPcm {
    pub sample_rate: u32,
    pub channels: u16,
    pub samples: Vec<i16>,
}

// ---------------------------------------------------------------------------
// Stereo interleaving
// ---------------------------------------------------------------------------

/// Interleaved stereo samples of `raw`, which has `ch` channels (`ch >= 1`):
/// mono is doubled, stereo kept, and wider streams keep the first two
/// channels of each frame (a last, short frame with one channel is doubled).
pub open spec fn stereo_of(raw: Seq<i16>, ch: int) -> Seq<i16> {
    if ch == 1 {
        Seq::new(2 * raw.len(), |i: int| raw[i / 2])
    } else if ch == 2 {
        raw
    } else {
        let frames = (raw.len() + ch - 1) / ch;
        Seq::new(
            (2 * frames) as nat,
            |i: int|
                {
                    let f = i / 2;
                    if i % 2 == 0 || f * ch + 1 >= raw.len() {
                        raw[f * ch]
                    } else {
                        raw[f * ch + 1]
                    }
                },
        )
    }
}

/// Append the stereo samples of `raw` (with `ch` channels) to `out`.
fn push_stereo(out: &mut Vec<i16>, raw: &Vec<i16>, ch: usize)
    requires
        ch >= 1,
    ensures
        final(out)@ == old(out)@ + stereo_of(raw@, ch as int),
{
    let ghost base = out@;
    let n = raw.len();
    if ch == 1 {
        let mut i: usize = 0;
        while i < n
            invariant
                i <= n,
                n == raw@.len(),
                out@ == base + Seq::new(2 * i as nat, |k: int| raw@[k / 2]),
            decreases n - i,
        {
            out.push(raw[i]);
            out.push(raw[i]);
            i = i + 1;
            assert(out@ =~= base + Seq::new(2 * i as nat, |k: int| raw@[k / 2]));
        }
        assert(out@ =~= base + stereo_of(raw@, 1));
    } else if ch == 2 {
        let mut i: usize = 0;
        while i < n
            invariant
                i <= n,
                n == raw@.len(),
                out@ == base + raw@.subrange(0, i as int),
            decreases n - i,
        {
            out.push(raw[i]);
            i = i + 1;
            assert(out@ =~= base + raw@.subrange(0, i as int));
        }
        assert(raw@.subrange(0, n as int) =~= raw@);
    } else {
        let ghost chi = ch as int;
        let ghost target = stereo_of(raw@, chi);
        let mut start: usize = 0;
        let ghost mut f: int = 0;
        while start < n
            invariant
                n == raw@.len(),
                chi == ch as int,
                ch > 2,
                (f * chi < n && start == f * chi) || (f * chi >= n && start == n),
                0 <= f,
                f * chi < n + chi,
                target == stereo_of(raw@, chi),
                out@ == base + target.subrange(0, 2 * f),
                2 * f <= target.len(),
            decreases n - start,
        {
            let l = raw[start];
            let r = if start + 1 < n { raw[start + 1] } else { l };
            out.push(l);
            out.push(r);
            proof {
                let frames = (n + chi - 1) / chi;
                assert(f < frames) by (nonlinear_arith)
                    requires
                        f * chi < n,
                        chi > 2,
                        frames == (n + chi - 1) / chi,
                {
                }
                assert((2 * f) / 2 == f);
                assert((2 * f + 1) / 2 == f);
                assert(target[2 * f] == l);
                assert(target[2 * f + 1] == r);
                assert(target.subrange(0, 2 * f + 2) =~= target.subrange(0, 2 * f).push(l).push(r));
                f = f + 1;
                assert(f * chi == (f - 1) * chi + chi) by (nonlinear_arith);
            }
            if n - start <= ch {
                start = n;
            } else {
                start = start + ch;
            }
            proof {
                let frames = (n + chi - 1) / chi;
                assert(2 * f <= target.len()) by (nonlinear_arith)
                    requires
                        (f - 1) * chi < n,
                        chi > 2,
                        frames == (n + chi - 1) / chi,
                        target.len() == 2 * frames,
                {
                }
            }
        }
        proof {
            let frames = (n + chi - 1) / chi;
            assert(f == frames) by (nonlinear_arith)
                requires
                    f * chi >= n,
                    f * chi < n + chi,
                    chi > 2,
                    frames == (n + chi - 1) / chi,
            {
            }
            assert(target.subrange(0, 2 * f) =~= target);
        }
    }
}

// ---------------------------------------------------------------------------
// WAV
// ---------------------------------------------------------------------------

/// What `hound` reads from the header of the WAV file `bytes`: channels,
/// sample rate and bits per sample, or its error text.
pub uninterp spec fn wav_header(bytes: Seq<u8>) -> Result<(u16, u32, u16), Seq<char>>;

/// The 16-bit samples `hound` reads from the WAV file `bytes`, or the text
/// of the first error it meets.
pub uninterp spec fn wav_sample_values(bytes: Seq<u8>) -> Result<Seq<i16>, Seq<char>>;

/// Opens `bytes` with `hound::WavReader::new` and returns the channels,
/// sample rate and bits per sample of its `spec()`, or the error's text.
/// Claimed: the result is [`wav_header`] of the bytes.
#[verifier::external_body]
fn wav_open(bytes: &Vec<u8>) -> (r: Result<(u16, u32, u16), String>)
    ensures
        match r {
            Ok(h) => wav_header(bytes@) == Ok::<(u16, u32, u16), Seq<char>>(h),
            Err(e) => wav_header(bytes@) == Err::<(u16, u32, u16), Seq<char>>(e@),
        },
{
    match hound::WavReader::new(Cursor::new(bytes.clone())) {
        Ok(reader) => {
            let spec = reader.spec();
            Ok((spec.channels, spec.sample_rate, spec.bits_per_sample))
        },
        Err(e) => Err(e.to_string()),
    }
}

/// Opens `bytes` with `hound::WavReader::new` and reads every sample with
/// `samples::<i16>()`, stopping at the first error, whose text is returned.
/// Claimed: the result is [`wav_sample_values`] of the bytes.
#[verifier::external_body]
fn wav_samples(bytes: &Vec<u8>) -> (r: Result<Vec<i16>, String>)
    ensures
        match r {
            Ok(v) => wav_sample_values(bytes@) == Ok::<Seq<i16>, Seq<char>>(v@),
            Err(e) => wav_sample_values(bytes@) == Err::<Seq<i16>, Seq<char>>(e@),
        },
{
    let mut reader = hound::WavReader::new(Cursor::new(bytes.clone())).map_err(|e| e.to_string())?;
    reader.samples::<i16>().collect::<Result<Vec<i16>, _>>().map_err(|e| e.to_string())
}

/// The PCM of a WAV file given its header and samples as `hound` reads them.
pub open spec fn wav_pcm(header: Result<(u16, u32, u16), Seq<char>>, samples: Result<Seq<i16>, Seq<char>>) -> Result<(u32, Seq<i16>), Seq<char>> {
    match header {
        Err(e) => Err("open wav bytes: "@ + e),
        Ok(h) => if h.2 != 16 {
            Err("only 16-bit wav is supported for speed shift"@)
        } else {
            match samples {
                Err(e) => Err("read wav sample: "@ + e),
                Ok(raw) => Ok((h.1, stereo_of(raw, if h.0 >= 1 { h.0 as int } else { 1 }))),
            }
        },
    }
}

/// The channel count and sample rate of a WAV header as `hound` read it, or
/// the error: `open wav bytes: ` and the reader's text when it could not
/// open the file, a refusal when the samples are not 16-bit.
pub fn check_wav_header(header: Result<(u16, u32, u16), String>) -> (r: Result<(u16, u32), String>)
    ensures
        match header {
            Err(e) => r matches Err(m) && m@ == "open wav bytes: "@ + e@,
            Ok(h) => if h.2 != 16 {
                r matches Err(m) && m@ == "only 16-bit wav is supported for speed shift"@
            } else {
                r == Ok::<(u16, u32), String>((h.0, h.1))
            },
        },
{
    match header {
        Err(e) => Err(prefixed("open wav bytes: ", &e)),
        Ok((channels, sample_rate, bits)) => {
            if bits != 16 {
                Err(String::from_str("only 16-bit wav is supported for speed shift"))
            } else {
                Ok((channels, sample_rate))
            }
        },
    }
}

/// Stereo PCM at `sample_rate` from interleaved samples of `channels`
/// channels (none counts as one), or the error `read wav sample: ` and the
/// reader's text.
pub fn stereo_pcm(channels: u16, sample_rate: u32, raw: Result<Vec<i16>, String>) -> (r: Result<WavPcm, String>)
    ensures
        match raw {
            Err(e) => r matches Err(m) && m@ == "read wav sample: "@ + e@,
            Ok(v) => r matches Ok(pcm) && pcm.sample_rate == sample_rate && pcm.channels == 2
                && pcm.samples@ == stereo_of(v@, if channels >= 1 { channels as int } else { 1 }),
        },
{
    match raw {
        Err(e) => Err(prefixed("read wav sample: ", &e)),
        Ok(v) => {
            let ch: usize = if channels >= 1 { channels as usize } else { 1 };
            let mut samples: Vec<i16> = Vec::new();
            push_stereo(&mut samples, &v, ch);
            assert(samples@ =~= stereo_of(v@, ch as int));
            Ok(WavPcm { sample_rate, channels: 2, samples })
        },
    }
}

/// Decode a 16-bit WAV file into stereo PCM at its own sample rate.
pub fn load_wav_pcm_from_bytes(bytes: &Vec<u8>) -> (r: Result<WavPcm, String>)
    ensures
        match wav_pcm(wav_header(bytes@), wav_sample_values(bytes@)) {
            Ok(p) => r matches Ok(pcm) && pcm.sample_rate == p.0 && pcm.channels == 2 && pcm.samples@ == p.1,
            Err(e) => r matches Err(m) && m@ == e,
        },
{
    let (channels, sample_rate) = match check_wav_header(wav_open(bytes)) {
        Ok(h) => h,
        Err(e) => {
            return Err(e);
        },
    };
    stereo_pcm(channels, sample_rate, wav_samples(bytes))
}

// ---------------------------------------------------------------------------
// MP3
// ---------------------------------------------------------------------------

#[verifier::external_type_specification]
#[verifier::external_body]
#[verifier::reject_recursive_types(R)]
pub struct ExMp3Decoder<R>(minimp3::Decoder<R>);

#[verifier::external_type_specification]
#[verifier::external_body]
#[verifier::reject_recursive_types(T)]
pub struct ExCursor<T>(std::io::Cursor<T>);

/// One decoded MP3 frame: interleaved samples, sample rate, channel count.
#[derive(Debug, Clone)]
pub struct Mp3Frame {
    pub data: Vec<i16>,
    pub sample_rate: i32,
    pub channels: usize,
}

/// The content of an [`Mp3Frame`].
pub struct Mp3FrameView {
    pub data: Seq<i16>,
    pub sample_rate: i32,
    pub channels: usize,
}

impl View for Mp3Frame {
    type V = Mp3FrameView;

    open spec fn view(&self) -> Mp3FrameView {
        Mp3FrameView { data: self.data@, sample_rate: self.sample_rate, channels: self.channels }
    }
}

/// What the `i`-th call (counting from 0) of `Decoder::next_frame` returns on
/// a `minimp3::Decoder` reading `bytes`: a frame, `None` at the end of the
/// stream, or the error's text.
pub uninterp spec fn mp3_frame_at(bytes: Seq<u8>, i: nat) -> Result<Option<Mp3FrameView>, Seq<char>>;

/// A `minimp3` decoder over a byte buffer, with the bytes it reads and the
/// number of frames asked of it so far.
pub struct Mp3Stream {
    decoder: minimp3::Decoder<Cursor<Vec<u8>>>,
    bytes: Ghost<Seq<u8>>,
    count: Ghost<nat>,
}

impl Mp3Stream {
    /// The bytes the decoder reads.
    pub closed spec fn bytes(&self) -> Seq<u8> {
        self.bytes@
    }

    /// How many frames were asked of the decoder.
    pub closed spec fn count(&self) -> nat {
        self.count@
    }
}

/// Creates a `minimp3::Decoder` reading `bytes` through a `Cursor`. Claimed:
/// the stream reads exactly these bytes, and no frame was asked of it yet.
#[verifier::external_body]
fn mp3_decoder(bytes: Vec<u8>) -> (s: Mp3Stream)
    ensures
        s.bytes() == bytes@,
        s.count() == 0,
{
    let ghost b = bytes@;
    Mp3Stream { decoder: minimp3::Decoder::new(Cursor::new(bytes)), bytes: Ghost(b), count: Ghost(0) }
}

/// Calls `Decoder::next_frame`: the next frame's samples, sample rate and
/// channel count; `None` at the end of the stream (`Error::Eof`); the error's
/// text for any other error. Claimed: the result is [`mp3_frame_at`] of the
/// bytes and the number of earlier calls. Of a frame it is also claimed that
/// it is mono or stereo (the decoder sets the channel count from the frame
/// header, 1 or 2), that it holds a positive number of samples per channel
/// (`data` is cut to samples times channels, and a frame is only returned for
/// a positive sample count), and that it lies within the bytes: each frame
/// consumes at least one byte of the input, so the frame of call `i` needs
/// more than `i` bytes.
#[verifier::external_body]
fn mp3_next_frame(s: &mut Mp3Stream) -> (r: Result<Option<Mp3Frame>, String>)
    ensures
        final(s).bytes() == old(s).bytes(),
        final(s).count() == old(s).count() + 1,
        match r {
            Ok(Some(f)) => mp3_frame_at(old(s).bytes(), old(s).count()) == Ok::<Option<Mp3FrameView>, Seq<char>>(Some(f@)),
            Ok(None) => mp3_frame_at(old(s).bytes(), old(s).count()) == Ok::<Option<Mp3FrameView>, Seq<char>>(None),
            Err(e) => mp3_frame_at(old(s).bytes(), old(s).count()) == Err::<Option<Mp3FrameView>, Seq<char>>(e@),
        },
        r matches Ok(Some(f)) ==> (f.channels == 1 || f.channels == 2) && f.data@.len() > 0
            && (f.data@.len() as int) % (f.channels as int) == 0 && old(s).count() < old(s).bytes().len(),
{
    let r = match s.decoder.next_frame() {
        Ok(f) => Ok(Some(Mp3Frame { data: f.data, sample_rate: f.sample_rate, channels: f.channels })),
        Err(minimp3::Error::Eof) => Ok(None),
        Err(e) => Err(e.to_string()),
    };
    s.count = Ghost(s.count@ + 1);
    r
}

/// The frames the decoder yields from the `i`-th call on, up to the end of
/// the stream, or the text of the first error. (A frame spans at least one
/// byte, so no frame comes from call `bytes.len()` or later.)
pub open spec fn mp3_frames_from(bytes: Seq<u8>, i: nat) -> Result<Seq<Mp3FrameView>, Seq<char>>
    decreases bytes.len() - i,
{
    match mp3_frame_at(bytes, i) {
        Err(e) => Err(e),
        Ok(None) => Ok(Seq::empty()),
        Ok(Some(f)) => if i < bytes.len() {
            match mp3_frames_from(bytes, i + 1) {
                Ok(rest) => Ok(seq![f] + rest),
                Err(e) => Err(e),
            }
        } else {
            Ok(Seq::empty())
        },
    }
}

/// Stereo samples of the first `k` frames, one after the other.
pub open spec fn frames_samples(frames: Seq<Mp3FrameView>, k: int) -> Seq<i16>
    decreases k,
{
    if k <= 0 {
        Seq::empty()
    } else {
        frames_samples(frames, k - 1) + stereo_of(frames[k - 1].data, frames[k - 1].channels as int)
    }
}

/// Samples dropped at the start of a decoded MP3: the LAME encoder delay of
/// 1764 stereo frames (about 40 ms at 44.1 kHz).
pub const ENCODER_DELAY_SAMPLES: usize = 3528;

/// The PCM of an MP3 stream given its decoded frames: the stereo samples of
/// every frame without the encoder delay (when there is more than it), at
/// the first frame's sample rate (44100 without frames); an error when there
/// is no sample at all.
pub open spec fn frames_pcm(frames: Seq<Mp3FrameView>) -> Result<(u32, Seq<i16>), Seq<char>> {
    let all = frames_samples(frames, frames.len() as int);
    if all.len() == 0 {
        Err("mp3 decode produced empty pcm"@)
    } else {
        let rate = if frames.len() > 0 { frames[0].sample_rate as u32 } else { 44100u32 };
        let kept = if all.len() > ENCODER_DELAY_SAMPLES { all.skip(ENCODER_DELAY_SAMPLES as int) } else { all };
        Ok((rate, kept))
    }
}

pub open spec fn frames_have_channels(frames: Seq<Mp3FrameView>) -> bool {
    forall|i: int| 0 <= i < frames.len() ==> (#[trigger] frames[i]).channels >= 1
}

pub open spec fn frames_view(frames: Seq<Mp3Frame>) -> Seq<Mp3FrameView> {
    frames.map_values(|f: Mp3Frame| f@)
}

/// The PCM of an MP3 stream from its decoded frames (see [`frames_pcm`]).
pub fn mp3_pcm_from_frames(frames: &Vec<Mp3Frame>) -> (r: Result<WavPcm, String>)
    requires
        frames_have_channels(frames_view(frames@)),
    ensures
        match frames_pcm(frames_view(frames@)) {
            Ok(p) => r matches Ok(pcm) && pcm.sample_rate == p.0 && pcm.channels == 2 && pcm.samples@ == p.1,
            Err(e) => r matches Err(m) && m@ == e,
        },
{
    let ghost fv = frames_view(frames@);
    let mut all: Vec<i16> = Vec::new();
    let mut k: usize = 0;
    while k < frames.len()
        invariant
            k <= frames@.len(),
            fv == frames_view(frames@),
            frames_have_channels(fv),
            all@ == frames_samples(fv, k as int),
        decreases frames.len() - k,
    {
        assert(fv[k as int].channels >= 1);
        push_stereo(&mut all, &frames[k].data, frames[k].channels);
        k = k + 1;
    }
    if all.len() == 0 {
        return Err(String::from_str("mp3 decode produced empty pcm"));
    }
    let samples = if all.len() > ENCODER_DELAY_SAMPLES {
        all.split_off(ENCODER_DELAY_SAMPLES)
    } else {
        all
    };
    let sample_rate = if frames.len() > 0 { frames[0].sample_rate as u32 } else { 44100 };
    Ok(WavPcm { sample_rate, channels: 2, samples })
}

/// `prefix` before the frames of `rest`, or the error of `rest`.
pub open spec fn frames_then(prefix: Seq<Mp3FrameView>, rest: Result<Seq<Mp3FrameView>, Seq<char>>) -> Result<Seq<Mp3FrameView>, Seq<char>> {
    match rest {
        Ok(fs) => Ok(prefix + fs),
        Err(e) => Err(e),
    }
}

/// When calls `i..fs.len()` yielded the frames `fs[i..]`, the frames from
/// call `i` on are those, then the frames from call `fs.len()` on.
proof fn lemma_frames_from_prefix(bytes: Seq<u8>, fs: Seq<Mp3FrameView>, i: nat)
    requires
        i <= fs.len() <= bytes.len(),
        forall|j: int| i <= j < fs.len() ==> mp3_frame_at(bytes, j as nat) == Ok::<Option<Mp3FrameView>, Seq<char>>(Some(fs[j])),
    ensures
        mp3_frames_from(bytes, i) == frames_then(fs.subrange(i as int, fs.len() as int), mp3_frames_from(bytes, fs.len())),
    decreases fs.len() - i,
{
    if i < fs.len() {
        lemma_frames_from_prefix(bytes, fs, i + 1);
        assert(mp3_frame_at(bytes, i) == Ok::<Option<Mp3FrameView>, Seq<char>>(Some(fs[i as int])));
        match mp3_frames_from(bytes, fs.len()) {
            Ok(rest) => {
                assert(seq![fs[i as int]] + (fs.subrange(i as int + 1, fs.len() as int) + rest)
                    =~= fs.subrange(i as int, fs.len() as int) + rest);
            },
            Err(e) => {},
        }
    } else {
        assert(fs.subrange(i as int, fs.len() as int) =~= Seq::<Mp3FrameView>::empty());
        match mp3_frames_from(bytes, fs.len()) {
            Ok(rest) => {
                assert(Seq::<Mp3FrameView>::empty() + rest =~= rest);
            },
            Err(e) => {},
        }
    }
}

/// The PCM of the MP3 file `bytes`: the PCM of every frame the decoder
/// yields up to the end of the stream (see [`frames_pcm`]), or
/// `decode mp3 frame: ` and the text of the decoder's first error.
pub open spec fn mp3_pcm(bytes: Seq<u8>) -> Result<(u32, Seq<i16>), Seq<char>> {
    match mp3_frames_from(bytes, 0) {
        Ok(frames) => frames_pcm(frames),
        Err(e) => Err("decode mp3 frame: "@ + e),
    }
}

/// Decode an MP3 file into stereo PCM at its own sample rate: frames are
/// read until the decoder reports the end of the stream, and a decoder error
/// ends the decoding (see [`mp3_pcm`]).
pub fn load_mp3_pcm_from_bytes(bytes: &Vec<u8>) -> (r: Result<WavPcm, String>)
    ensures
        match mp3_pcm(bytes@) {
            Ok(p) => r matches Ok(pcm) && pcm.sample_rate == p.0 && pcm.channels == 2 && pcm.samples@ == p.1,
            Err(e) => r matches Err(m) && m@ == e,
        },
{
    let ghost b = bytes@;
    let mut decoder = mp3_decoder(bytes.clone());
    let mut frames: Vec<Mp3Frame> = Vec::new();
    loop
        invariant
            b == bytes@,
            decoder.bytes() == b,
            decoder.count() == frames@.len(),
            frames@.len() <= b.len(),
            frames_have_channels(frames_view(frames@)),
            forall|j: int| 0 <= j < frames@.len() ==>
                mp3_frame_at(b, j as nat) == Ok::<Option<Mp3FrameView>, Seq<char>>(Some(#[trigger] frames_view(frames@)[j])),
        decreases b.len() - frames@.len(),
    {
        let ghost before = frames@;
        match mp3_next_frame(&mut decoder) {
            Ok(Some(frame)) => {
                frames.push(frame);
                assert(frames_view(frames@) =~= frames_view(before).push(frames@.last()@));
            },
            Ok(None) => {
                proof {
                    let fs = frames_view(frames@);
                    lemma_frames_from_prefix(b, fs, 0);
                    assert(fs.subrange(0, fs.len() as int) =~= fs);
                    assert(fs + Seq::<Mp3FrameView>::empty() =~= fs);
                }
                return mp3_pcm_from_frames(&frames);
            },
            Err(e) => {
                proof {
                    let fs = frames_view(frames@);
                    lemma_frames_from_prefix(b, fs, 0);
                }
                return Err(prefixed("decode mp3 frame: ", &e));
            },
        }
    }
}

// ---------------------------------------------------------------------------
// Choosing the decoder
// ---------------------------------------------------------------------------

pub open spec fn ascii_lower(b: u8) -> u8 {
    if 65 <= b <= 90 { (b + 32) as u8 } else { b }
}

/// `ext` is `wav` in any ASCII letter case.
pub open spec fn is_wav_ext(ext: Seq<u8>) -> bool {
    ext.len() == 3 && ascii_lower(ext[0]) == 119 && ascii_lower(ext[1]) == 97 && ascii_lower(ext[2]) == 118
}

fn lower(b: u8) -> (r: u8)
    ensures
        r == ascii_lower(b),
{
    if 65 <= b && b <= 90 { b + 32 } else { b }
}

/// Decode an audio file by its extension: `wav` (any case) with the WAV
/// decoder, anything else with the MP3 decoder.
pub fn decode_pcm(bytes: &Vec<u8>, ext: &str) -> (r: Result<WavPcm, String>)
    ensures
        is_wav_ext(ext.spec_bytes()) ==> match wav_pcm(wav_header(bytes@), wav_sample_values(bytes@)) {
            Ok(p) => r matches Ok(pcm) && pcm.sample_rate == p.0 && pcm.channels == 2 && pcm.samples@ == p.1,
            Err(e) => r matches Err(m) && m@ == e,
        },
        !is_wav_ext(ext.spec_bytes()) ==> match mp3_pcm(bytes@) {
            Ok(p) => r matches Ok(pcm) && pcm.sample_rate == p.0 && pcm.channels == 2 && pcm.samples@ == p.1,
            Err(e) => r matches Err(m) && m@ == e,
        },
{
    let b = ext.as_bytes();
    let wav = b.len() == 3 && lower(b[0]) == 119 && lower(b[1]) == 97 && lower(b[2]) == 118;
    if wav {
        load_wav_pcm_from_bytes(bytes)
    } else {
        load_mp3_pcm_from_bytes(bytes)
    }
}

} // verus!
