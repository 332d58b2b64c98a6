//! Video streams: their properties as a probe prints them, and their frames.

use crate::text::{
    chars_of, cut, parse_u32, split, split_ranges, text_of, trim_range, trimmed,
    u32_value,
};
use vstd::prelude::*;
use vstd::string::StringExecFns;

verus! {

/// The properties of a video stream.
#[derive(Debug)]
pub struct VideoInfo {
    pub width: u32,
    pub height: u32,
    /// The frame rate, as it was printed.
    pub fps: String,
}

/// Why the output of a probe cannot be used.
#[derive(Clone, Copy, Debug, PartialEq, Eq, Structural)]
pub enum ProbeError {
    /// It has fewer than three fields.
    TooFewFields,
    /// Its first field is no width.
    Width,
    /// Its second field is no height.
    Height,
}

/// The fields of a probe's output, which are separated by commas, without white
/// space around them.
pub open spec fn probe_field(text: Seq<char>, i: int) -> Seq<char> {
    trimmed(split(trimmed(text), ',')[i])
}

/// Number of fields of a probe's output.
pub open spec fn probe_fields(text: Seq<char>) -> nat {
    split(trimmed(text), ',').len()
}

/// Reads the output of a probe: width, height, frame rate, and perhaps more.
pub fn parse_probe(text: &str) -> (res: Result<VideoInfo, ProbeError>)
    ensures
        if probe_fields(text@) < 3 {
            res == Err::<VideoInfo, ProbeError>(ProbeError::TooFewFields)
        } else if u32_value(probe_field(text@, 0)) is None {
            res == Err::<VideoInfo, ProbeError>(ProbeError::Width)
        } else if u32_value(probe_field(text@, 1)) is None {
            res == Err::<VideoInfo, ProbeError>(ProbeError::Height)
        } else {
            &&& res matches Ok(info)
            &&& Some(info.width) == u32_value(probe_field(text@, 0))
            &&& Some(info.height) == u32_value(probe_field(text@, 1))
            &&& info.fps@ == probe_field(text@, 2)
        },
{
    let chars = chars_of(text);
    let (from, to) = trim_range(&chars, 0, chars.len());
    assert(chars@.subrange(0, chars@.len() as int) =~= text@);
    let parts = split_ranges(&chars, from, to, ',');
    let ghost pieces = split(trimmed(text@), ',');
    assert(cut(chars@, parts@) == pieces);
    assert(pieces.len() == parts@.len());
    if parts.len() < 3 {
        return Err(ProbeError::TooFewFields);
    }
    proof {
        assert(pieces[0] == cut(chars@, parts@)[0]);
        assert(pieces[1] == cut(chars@, parts@)[1]);
        assert(pieces[2] == cut(chars@, parts@)[2]);
    }
    let (a, b) = parts[0];
    let (a, b) = trim_range(&chars, a, b);
    let width = match parse_u32(&chars, a, b) {
        Some(v) => v,
        None => {
            return Err(ProbeError::Width);
        },
    };
    let (a, b) = parts[1];
    let (a, b) = trim_range(&chars, a, b);
    let height = match parse_u32(&chars, a, b) {
        Some(v) => v,
        None => {
            return Err(ProbeError::Height);
        },
    };
    let (a, b) = parts[2];
    let (a, b) = trim_range(&chars, a, b);
    Ok(VideoInfo { width, height, fps: text_of(text, a, b) })
}

/// Bytes of a packed frame of `w` by `h` pixels.
pub fn frame_bytes(w: u32, h: u32) -> (res: usize)
    requires
        w * h * 3 <= u32::MAX,
    ensures
        res == w * h * 3,
{
    proof {
        assert(0 <= w * h) by (nonlinear_arith);
    }
    (w * h * 3) as usize
}

/// Whether progress is shown after this many frames: after every fifty.
pub fn progress_due(frame_count: u64) -> (res: bool)
    ensures
        res == (frame_count % 50 == 0),
{
    frame_count % 50 == 0
}

/// A video of which no frame could be decoded is an error.
pub fn check_decoded(frame_count: u64, path: &str) -> (res: Result<(), String>)
    ensures
        frame_count > 0 ==> res is Ok,
        frame_count == 0 ==> (res matches Err(text) && text@ == "No frames decoded from "@ + path@),
{
    if frame_count > 0 {
        Ok(())
    } else {
        let mut text = "No frames decoded from ".to_owned();
        text.append(path);
        Err(text)
    }
}

} // verus!
