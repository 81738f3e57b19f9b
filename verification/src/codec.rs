//! What to ask of the `ffmpeg` program.
//!
//! Decoding and encoding are the caller's to do, by running `ffmpeg` with a
//! pipe on either side. The one fixed point between the two sides is the
//! raw format: stereo, 48 kHz, signed 16 bit, little-endian, which
//! [`crate::sound::Sound::from_pcm_bytes`] reads and
//! [`crate::sound::Sound::to_pcm_bytes`] writes. The argument lists here ask
//! for exactly that.

use crate::text::{decimal, digits};
use vstd::prelude::*;
use vstd::string::StringExecFns;

verus! {

/// The texts of `args`, in their order.
pub open spec fn texts(args: Seq<String>) -> Seq<Seq<char>> {
    Seq::new(args.len(), |i: int| args[i]@)
}

/// The arguments that make `ffmpeg` decode what it is piped to raw samples
/// on its output, with `extra` arguments for the input.
pub open spec fn decoding(extra: Seq<Seq<char>>) -> Seq<Seq<char>> {
    seq!["-i"@, "-"@] + extra + seq!["-ac"@, "2"@, "-f"@, "s16le"@, "-ar"@, "48k"@, "-"@]
}

/// The arguments that make `ffmpeg` encode the raw samples it is piped, at
/// `bitrate` frames per second, to the file `path`, at a constant 480 kbit/s.
pub open spec fn encoding(bitrate: u32, path: Seq<char>) -> Seq<Seq<char>> {
    seq![
        "-y"@,
        "-f"@,
        "s16le"@,
        "-c:a"@,
        "pcm_s16le"@,
        "-ar"@,
        digits(bitrate as nat),
        "-ac"@,
        "2"@,
        "-i"@,
        "-"@,
        "-b:a"@,
        "480k"@,
        "-maxrate"@,
        "480k"@,
        "-bufsize"@,
        "480k"@,
        "-minrate"@,
        "480k"@,
        path,
    ]
}

/// Makes the argument list of a decoding run.
pub fn decode_args(extra: &[String]) -> (args: Vec<String>)
    ensures
        texts(args@) == decoding(texts(extra@)),
{
    let mut args: Vec<String> = Vec::new();
    args.push(String::from_str("-i"));
    args.push(String::from_str("-"));
    let ghost head = args@;
    let mut i: usize = 0;
    while i < extra.len()
        invariant
            i <= extra@.len(),
            texts(args@) == texts(head) + texts(extra@).subrange(0, i as int),
        decreases extra@.len() - i,
    {
        let ghost before = args@;
        args.push(extra[i].clone());
        assert(texts(args@) =~= texts(before).push(extra@[i as int]@));
        assert(texts(extra@).subrange(0, i + 1) =~= texts(extra@).subrange(0, i as int).push(
            extra@[i as int]@,
        ));
        i = i + 1;
    }
    let ghost body = args@;
    args.push(String::from_str("-ac"));
    args.push(String::from_str("2"));
    args.push(String::from_str("-f"));
    args.push(String::from_str("s16le"));
    args.push(String::from_str("-ar"));
    args.push(String::from_str("48k"));
    args.push(String::from_str("-"));
    proof {
        let tail = seq!["-ac"@, "2"@, "-f"@, "s16le"@, "-ar"@, "48k"@, "-"@];
        assert(texts(head) =~= seq!["-i"@, "-"@]);
        assert(texts(extra@).subrange(0, extra@.len() as int) =~= texts(extra@));
        assert(texts(body) == seq!["-i"@, "-"@] + texts(extra@));
        assert forall|k: int| 0 <= k < body.len() implies texts(args@)[k] == texts(body)[k] by {
            assert(args@[k] == body[k]);
        }
        assert(texts(args@) =~= texts(body) + tail);
    }
    args
}

/// Makes the argument list of an encoding run.
pub fn encode_args(bitrate: u32, path: &str) -> (args: Vec<String>)
    ensures
        texts(args@) == encoding(bitrate, path@),
{
    let mut args: Vec<String> = Vec::new();
    args.push(String::from_str("-y"));
    args.push(String::from_str("-f"));
    args.push(String::from_str("s16le"));
    args.push(String::from_str("-c:a"));
    args.push(String::from_str("pcm_s16le"));
    args.push(String::from_str("-ar"));
    args.push(decimal(bitrate as usize));
    args.push(String::from_str("-ac"));
    args.push(String::from_str("2"));
    args.push(String::from_str("-i"));
    args.push(String::from_str("-"));
    args.push(String::from_str("-b:a"));
    args.push(String::from_str("480k"));
    args.push(String::from_str("-maxrate"));
    args.push(String::from_str("480k"));
    args.push(String::from_str("-bufsize"));
    args.push(String::from_str("480k"));
    args.push(String::from_str("-minrate"));
    args.push(String::from_str("480k"));
    args.push(String::from_str(path));
    assert(texts(args@) =~= encoding(bitrate, path@));
    args
}

} // verus!
