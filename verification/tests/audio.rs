use std::io::Cursor;

use lambda_dx::audio::{
    check_wav_header, decode_pcm, load_mp3_pcm_from_bytes, load_wav_pcm_from_bytes, mp3_pcm_from_frames, stereo_pcm,
    Mp3Frame,
};

fn wav(channels: u16, rate: u32, bits: u16, samples: &[i16]) -> Vec<u8> {
    let spec = hound::WavSpec { channels, sample_rate: rate, bits_per_sample: bits, sample_format: hound::SampleFormat::Int };
    let mut bytes: Vec<u8> = Vec::new();
    {
        let mut w = hound::WavWriter::new(Cursor::new(&mut bytes), spec).unwrap();
        for &s in samples {
            if bits == 8 {
                w.write_sample(s as i8).unwrap();
            } else {
                w.write_sample(s).unwrap();
            }
        }
        w.finalize().unwrap();
    }
    bytes
}

#[test]
fn mono_wav_is_doubled() {
    let pcm = load_wav_pcm_from_bytes(&wav(1, 22050, 16, &[1, -2, 3])).unwrap();
    assert_eq!(pcm.sample_rate, 22050);
    assert_eq!(pcm.channels, 2);
    assert_eq!(pcm.samples, vec![1, 1, -2, -2, 3, 3]);
}

#[test]
fn stereo_wav_is_kept() {
    let pcm = load_wav_pcm_from_bytes(&wav(2, 44100, 16, &[1, 2, 3, 4])).unwrap();
    assert_eq!(pcm.samples, vec![1, 2, 3, 4]);
}

#[test]
fn wide_wav_keeps_two_channels() {
    let pcm = load_wav_pcm_from_bytes(&wav(3, 48000, 16, &[1, 2, 3, 4, 5, 6])).unwrap();
    assert_eq!(pcm.samples, vec![1, 2, 4, 5]);
}

#[test]
fn eight_bit_wav_is_refused() {
    let e = load_wav_pcm_from_bytes(&wav(1, 8000, 8, &[1, 2])).err().unwrap();
    assert_eq!(e, "only 16-bit wav is supported for speed shift");
}

#[test]
fn garbage_is_not_a_wav() {
    let e = load_wav_pcm_from_bytes(&vec![1, 2, 3, 4]).err().unwrap();
    assert!(e.starts_with("open wav bytes: "), "{e}");
}

#[test]
fn garbage_is_not_an_mp3() {
    let e = load_mp3_pcm_from_bytes(&vec![0; 64]).err().unwrap();
    assert_eq!(e, "mp3 decode produced empty pcm");
}

#[test]
fn extension_picks_the_decoder() {
    let bytes = wav(1, 22050, 16, &[5]);
    assert_eq!(decode_pcm(&bytes, "WaV").unwrap().samples, vec![5, 5]);
    assert!(decode_pcm(&bytes, "mp3").is_err());
}

#[test]
fn wav_parts() {
    assert_eq!(check_wav_header(Ok((2, 44100, 16))), Ok((2, 44100)));
    assert_eq!(check_wav_header(Ok((2, 44100, 24))), Err("only 16-bit wav is supported for speed shift".to_string()));
    assert_eq!(check_wav_header(Err("no RIFF tag found".to_string())), Err("open wav bytes: no RIFF tag found".to_string()));
    let pcm = stereo_pcm(0, 8000, Ok(vec![4, 5])).unwrap();
    assert_eq!(pcm.samples, vec![4, 4, 5, 5]);
    assert_eq!(pcm.sample_rate, 8000);
    assert_eq!(stereo_pcm(2, 8000, Err("eof".to_string())).err().unwrap(), "read wav sample: eof");
}

#[test]
fn mp3_frames_to_pcm() {
    let frames = vec![
        Mp3Frame { data: vec![1, 2], sample_rate: 32000, channels: 1 },
        Mp3Frame { data: vec![3, 4, 5, 6], sample_rate: 48000, channels: 2 },
    ];
    let pcm = mp3_pcm_from_frames(&frames).unwrap();
    assert_eq!(pcm.sample_rate, 32000);
    assert_eq!(pcm.samples, vec![1, 1, 2, 2, 3, 4, 5, 6]);
    // The encoder delay is dropped from long streams.
    let long = vec![Mp3Frame { data: (0..4000).map(|i| i as i16).collect(), sample_rate: 44100, channels: 2 }];
    let pcm = mp3_pcm_from_frames(&long).unwrap();
    assert_eq!(pcm.samples.len(), 4000 - 3528);
    assert_eq!(pcm.samples[0], 3528);
    assert_eq!(mp3_pcm_from_frames(&vec![]).err().unwrap(), "mp3 decode produced empty pcm");
}

/// `count` silent MPEG-1 Layer III frames (128 kbit/s, 44.1 kHz, mono).
fn silent_mp3(count: usize) -> Vec<u8> {
    let mut bytes = Vec::new();
    for _ in 0..count {
        let mut frame = vec![0u8; 417];
        frame[..4].copy_from_slice(&[0xFF, 0xFB, 0x90, 0xC0]);
        bytes.extend_from_slice(&frame);
    }
    bytes
}

#[test]
fn silent_mp3_decodes_to_stereo_silence() {
    let pcm = load_mp3_pcm_from_bytes(&silent_mp3(20)).unwrap();
    assert_eq!(pcm.sample_rate, 44100);
    assert_eq!(pcm.channels, 2);
    assert!(!pcm.samples.is_empty());
    assert_eq!(pcm.samples.len() % 2, 0);
    assert!(pcm.samples.iter().all(|&s| s == 0));
    let same = decode_pcm(&silent_mp3(20), "MP3").unwrap();
    assert_eq!(same.samples, pcm.samples);
}
