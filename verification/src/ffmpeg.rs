//! How the `ffmpeg` and `ffprobe` command-line tools are driven, and what is made of
//! what they say.
use vstd::prelude::*;
use vstd::string::*;

use crate::config::EncodeConfig;
use crate::text::{self, chars_of, same_text, split_lines, split_words, string_of, trimmed};
use crate::utf8::{self, shown_text};

verus! {

/// The AV1 encoders that can be driven, in order of preference.
#[derive(Clone, Copy, Debug, PartialEq, Eq, Structural)]
pub enum Av1Encoder {
    SvtAv1,
    Aom,
    Rav1e,
}

/// Why there is no encoder to use.
#[derive(Clone, Copy, Debug, PartialEq, Eq, Structural)]
pub enum DetectError {
    /// `ffmpeg` could not be run.
    NotRun,
    /// It has no AV1 encoder.
    NoEncoder,
}

impl DetectError {
    pub open spec fn text(self) -> Seq<char> {
        match self {
            DetectError::NotRun => "failed to run `ffmpeg -encoders`"@,
            DetectError::NoEncoder =>
                "this ffmpeg has no AV1 encoder (need libsvtav1, libaom-av1 or librav1e)"@,
        }
    }

    pub fn message(self) -> (r: &'static str)
        ensures
            r@ == self.text(),
    {
        match self {
            DetectError::NotRun => "failed to run `ffmpeg -encoders`",
            DetectError::NoEncoder =>
                "this ffmpeg has no AV1 encoder (need libsvtav1, libaom-av1 or librav1e)",
        }
    }
}

/// Whether a listing of encoders has the encoder `name`: the second word of some line.
pub open spec fn lists(listing: Seq<char>, name: Seq<char>) -> bool {
    exists|i: int|
        0 <= i < text::lines(listing).len() && second_word_is(
            #[trigger] text::lines(listing)[i],
            name,
        )
}

pub open spec fn second_word_is(line: Seq<char>, name: Seq<char>) -> bool {
    text::words(line).len() > 1 && text::words(line)[1] == name
}

/// The most preferred encoder of a listing.
pub open spec fn preferred(listing: Seq<char>) -> Option<Av1Encoder> {
    if lists(listing, Av1Encoder::SvtAv1.name()) {
        Some(Av1Encoder::SvtAv1)
    } else if lists(listing, Av1Encoder::Aom.name()) {
        Some(Av1Encoder::Aom)
    } else if lists(listing, Av1Encoder::Rav1e.name()) {
        Some(Av1Encoder::Rav1e)
    } else {
        None
    }
}

impl Av1Encoder {
    /// The name that `ffmpeg` has for the encoder.
    pub open spec fn name(self) -> Seq<char> {
        match self {
            Av1Encoder::SvtAv1 => "libsvtav1"@,
            Av1Encoder::Aom => "libaom-av1"@,
            Av1Encoder::Rav1e => "librav1e"@,
        }
    }

    /// The name that `ffmpeg` has for the encoder.
    pub fn ffmpeg_name(self) -> (r: &'static str)
        ensures
            r@ == self.name(),
    {
        match self {
            Av1Encoder::SvtAv1 => "libsvtav1",
            Av1Encoder::Aom => "libaom-av1",
            Av1Encoder::Rav1e => "librav1e",
        }
    }

    /// The best AV1 encoder in what `ffmpeg -encoders` wrote, or `None` if it was not run.
    pub fn detect(stdout: Option<Vec<u8>>) -> (r: Result<Av1Encoder, DetectError>)
        ensures
            match stdout {
                None => r == Err::<Av1Encoder, _>(DetectError::NotRun),
                Some(bytes) => match preferred(utf8::shown(bytes@)) {
                    Some(e) => r == Ok::<_, DetectError>(e),
                    None => r == Err::<Av1Encoder, _>(DetectError::NoEncoder),
                },
            },
    {
        match stdout {
            None => Err(DetectError::NotRun),
            Some(bytes) => {
                let listing = shown_text(bytes.as_slice());
                match best_encoder(listing.as_str()) {
                    Some(e) => Ok(e),
                    None => Err(DetectError::NoEncoder),
                }
            },
        }
    }
}

/// Whether a listing of encoders has an encoder.
fn has_encoder(listing: &Vec<Vec<char>>, name: &str) -> (r: bool)
    ensures
        r == exists|i: int|
            0 <= i < text::texts(listing@).len() && second_word_is(
                #[trigger] text::texts(listing@)[i],
                name@,
            ),
{
    let ghost ls = text::texts(listing@);
    let mut i: usize = 0;
    while i < listing.len()
        invariant
            i <= listing.len(),
            ls == text::texts(listing@),
            forall|j: int| 0 <= j < i ==> !second_word_is(#[trigger] ls[j], name@),
        decreases listing.len() - i,
    {
        let ws = split_words(listing[i].as_slice());
        assert(ls[i as int] == listing@[i as int]@);
        assert(ws.len() == text::words(ls[i as int]).len());
        if ws.len() > 1 {
            assert(text::texts(ws@)[1] == ws@[1]@);
            if same_text(ws[1].as_slice(), name) {
                assert(second_word_is(ls[i as int], name@));
                return true;
            }
        }
        i += 1;
    }
    false
}

/// The most preferred encoder of a listing.
pub fn best_encoder(listing: &str) -> (r: Option<Av1Encoder>)
    ensures
        r == preferred(listing@),
{
    let chars = chars_of(listing);
    let ls = split_lines(chars.as_slice());
    if has_encoder(&ls, Av1Encoder::SvtAv1.ffmpeg_name()) {
        Some(Av1Encoder::SvtAv1)
    } else if has_encoder(&ls, Av1Encoder::Aom.ffmpeg_name()) {
        Some(Av1Encoder::Aom)
    } else if has_encoder(&ls, Av1Encoder::Rav1e.ffmpeg_name()) {
        Some(Av1Encoder::Rav1e)
    } else {
        None
    }
}

pub struct EncodeOptions {
    pub encoder: Av1Encoder,
    pub crf: u8,
    pub preset: i32,
    pub audio_bitrate_kbps: u32,
    pub bit_depth: u8,
}

impl EncodeOptions {
    pub fn new(encoder: Av1Encoder, cfg: &EncodeConfig) -> (r: EncodeOptions)
        ensures
            r == (EncodeOptions {
                encoder,
                crf: cfg.crf,
                preset: cfg.preset,
                audio_bitrate_kbps: cfg.audio_bitrate,
                bit_depth: cfg.bit_depth,
            }),
    {
        EncodeOptions {
            encoder,
            crf: cfg.crf,
            preset: cfg.preset,
            audio_bitrate_kbps: cfg.audio_bitrate,
            bit_depth: cfg.bit_depth,
        }
    }
}

/// A tool that could not be run.
#[derive(Clone, Copy, Debug, PartialEq, Eq, Structural)]
pub enum Tool {
    Ffmpeg,
    Ffprobe,
}

impl Tool {
    pub open spec fn name(self) -> Seq<char> {
        match self {
            Tool::Ffmpeg => "ffmpeg"@,
            Tool::Ffprobe => "ffprobe"@,
        }
    }

    /// What is said where the tool cannot be run.
    pub open spec fn text(self) -> Seq<char> {
        "`"@ + self.name() + "` was not found on PATH"@
    }

    pub fn program(self) -> (r: &'static str)
        ensures
            r@ == self.name(),
    {
        match self {
            Tool::Ffmpeg => "ffmpeg",
            Tool::Ffprobe => "ffprobe",
        }
    }

    /// What is said where the tool cannot be run.
    pub fn missing_message(self) -> (r: String)
        ensures
            r@ == self.text(),
    {
        let mut s: String = "`".to_owned();
        s.append(self.program());
        s.append("` was not found on PATH");
        s
    }
}

/// Whether both tools can be run, or the first that cannot.
pub fn check_tools(ffmpeg_runs: bool, ffprobe_runs: bool) -> (r: Result<(), Tool>)
    ensures
        r == (if !ffmpeg_runs {
            Err(Tool::Ffmpeg)
        } else if !ffprobe_runs {
            Err(Tool::Ffprobe)
        } else {
            Ok(())
        }),
{
    if !ffmpeg_runs {
        return Err(Tool::Ffmpeg);
    }
    if !ffprobe_runs {
        return Err(Tool::Ffprobe);
    }
    Ok(())
}

/// Codecs of cover art and still images.
pub open spec fn image_codec_names() -> Seq<Seq<char>> {
    seq!["mjpeg"@, "png"@, "bmp"@, "gif"@, "tiff"@, "webp"@, "ppm"@, "pgm"@]
}

/// The first of the lines, without the space around it, that is not empty and no
/// codec of images.
pub open spec fn first_real(ls: Seq<Seq<char>>) -> Option<Seq<char>>
    decreases ls.len(),
{
    if ls.len() == 0 {
        None
    } else {
        let codec = text::trim(ls[0]);
        if codec.len() == 0 || image_codec_names().contains(codec) {
            first_real(ls.drop_first())
        } else {
            Some(codec)
        }
    }
}

/// The codec of the first real video stream in a list of codecs, one to a line.
pub open spec fn codec_in(listing: Seq<char>) -> Option<Seq<char>> {
    first_real(text::lines(listing))
}

pub open spec fn string_view(s: Option<String>) -> Option<Seq<char>> {
    match s {
        Some(s) => Some(s@),
        None => None,
    }
}

/// Codecs of cover art and still images.
pub fn image_codecs() -> (r: Vec<&'static str>)
    ensures
        r@.map_values(|s: &'static str| s@) == image_codec_names(),
{
    let r: Vec<&'static str> = vec!["mjpeg", "png", "bmp", "gif", "tiff", "webp", "ppm", "pgm"];
    assert(r@.map_values(|s: &'static str| s@) =~= image_codec_names());
    r
}

fn is_image_codec(codec: &Vec<char>) -> (r: bool)
    ensures
        r == image_codec_names().contains(codec@),
{
    let known = image_codecs();
    let ghost list = known@.map_values(|s: &'static str| s@);
    let mut i: usize = 0;
    while i < known.len()
        invariant
            i <= known.len(),
            list == image_codec_names(),
            list == known@.map_values(|s: &'static str| s@),
            forall|j: int| 0 <= j < i ==> list[j] != codec@,
        decreases known.len() - i,
    {
        assert(list[i as int] == known@[i as int]@);
        if same_text(codec.as_slice(), known[i]) {
            return true;
        }
        i += 1;
    }
    false
}

/// The codec of the first real video stream in a list of codecs.
pub fn first_codec(listing: &str) -> (r: Option<String>)
    ensures
        string_view(r) == codec_in(listing@),
{
    let chars = chars_of(listing);
    let ls = split_lines(chars.as_slice());
    let ghost all = text::texts(ls@);
    let mut i: usize = 0;
    assert(all.skip(0) =~= all);
    while i < ls.len()
        invariant
            i <= ls.len(),
            all == text::texts(ls@),
            all == text::lines(listing@),
            first_real(all) == first_real(all.skip(i as int)),
        decreases ls.len() - i,
    {
        let codec = trimmed(ls[i].as_slice());
        assert(all.skip(i as int)[0] == ls@[i as int]@);
        assert(all.skip(i as int).drop_first() =~= all.skip(i + 1));
        if codec.len() != 0 && !is_image_codec(&codec) {
            return Some(string_of(codec.as_slice()));
        }
        i += 1;
    }
    None
}

/// What running `ffprobe` on a file gave.
#[derive(Debug)]
pub enum ProbeRun {
    /// It could not be run.
    NotRun,
    Ran { success: bool, stdout: Vec<u8>, stderr: Vec<u8> },
}

/// Why the codec of a file is not known.
#[derive(Debug)]
pub enum ProbeError {
    NotRun,
    /// What `ffprobe` said.
    Refused(String),
}

impl ProbeError {
    pub open spec fn text(self) -> Seq<char> {
        match self {
            ProbeError::NotRun => "failed to run ffprobe"@,
            ProbeError::Refused(s) => s@,
        }
    }

    pub fn message(&self) -> (r: String)
        ensures
            r@ == self.text(),
    {
        match self {
            ProbeError::NotRun => "failed to run ffprobe".to_owned(),
            ProbeError::Refused(s) => s.clone(),
        }
    }
}

/// Codec name of the first "real" video stream, or `None` for audio-only files and
/// files whose only video stream is cover art or a still image.
pub fn video_codec(run: ProbeRun) -> (r: Result<Option<String>, ProbeError>)
    ensures
        match run {
            ProbeRun::NotRun => r == Err::<Option<String>, _>(ProbeError::NotRun),
            ProbeRun::Ran { success, stdout, stderr } => if success {
                r matches Ok(c) && string_view(c) == codec_in(utf8::shown(stdout@))
            } else {
                r matches Err(ProbeError::Refused(s)) && s@ == text::trim(utf8::shown(stderr@))
            },
        },
{
    match run {
        ProbeRun::NotRun => Err(ProbeError::NotRun),
        ProbeRun::Ran { success, stdout, stderr } => {
            if !success {
                let said = shown_text(stderr.as_slice());
                let chars = chars_of(said.as_str());
                let t = trimmed(chars.as_slice());
                return Err(ProbeError::Refused(string_of(t.as_slice())));
            }
            let listing = shown_text(stdout.as_slice());
            Ok(first_codec(listing.as_str()))
        },
    }
}

} // verus!
