//! The command lines of `ffmpeg` and `ffprobe`, and what becomes of a running encoder.
use vstd::prelude::*;
use vstd::string::*;

use crate::ffmpeg::{Av1Encoder, EncodeOptions};
use crate::path::FilePath;
use crate::text::{self, decimal_string, signed_decimal_string};

verus! {

/// One argument of a command line.
#[derive(Debug)]
pub enum Arg {
    Word(String),
    Path(FilePath),
}

#[verifier::ext_equal]
pub enum ArgView {
    Word(Seq<char>),
    Path(Seq<u8>),
}

impl View for Arg {
    type V = ArgView;

    open spec fn view(&self) -> ArgView {
        match self {
            Arg::Word(s) => ArgView::Word(s@),
            Arg::Path(p) => ArgView::Path(p@),
        }
    }
}

pub open spec fn args_view(v: Seq<Arg>) -> Seq<ArgView> {
    v.map_values(|a: Arg| a@)
}

/// Words as arguments.
pub open spec fn as_args(ws: Seq<Seq<char>>) -> Seq<ArgView> {
    ws.map_values(|w: Seq<char>| ArgView::Word(w))
}

/// The arguments that are the same for every encoder, up to the choice of the pixel
/// format: the first video stream and every audio stream are taken, subtitles, data
/// streams, attachments and chapters are not.
pub open spec fn input_args(input: Seq<u8>, bit_depth: u8) -> Seq<ArgView> {
    as_args(seq!["-hide_banner"@, "-loglevel"@, "warning"@, "-nostats"@, "-y"@, "-i"@]).push(
        ArgView::Path(input),
    ) + as_args(
        seq![
            "-map"@, "0:v:0"@, "-map"@, "0:a?"@, "-sn"@, "-dn"@, "-map_chapters"@, "-1"@,
            "-pix_fmt"@,
            if bit_depth == 10 {
                "yuv420p10le"@
            } else {
                "yuv420p"@
            },
        ],
    )
}

/// The quantizer that rav1e is given for a quality level.
pub open spec fn rav1e_quantizer(crf: u8) -> nat {
    if crf * 4 > 255 {
        255
    } else {
        (crf * 4) as nat
    }
}

/// The arguments for the video encoder.
pub open spec fn video_args(opts: EncodeOptions) -> Seq<ArgView> {
    let crf = text::decimal(opts.crf as nat);
    let preset = text::signed_decimal(opts.preset as int);
    match opts.encoder {
        Av1Encoder::SvtAv1 => as_args(
            seq![
                "-c:v"@, "libsvtav1"@, "-crf"@, crf, "-preset"@, preset, "-svtav1-params"@,
                "tune=0"@,
            ],
        ),
        Av1Encoder::Aom => as_args(
            seq![
                "-c:v"@, "libaom-av1"@, "-crf"@, crf, "-b:v"@, "0"@, "-cpu-used"@, preset,
                "-row-mt"@, "1"@, "-tiles"@, "2x2"@,
            ],
        ),
        Av1Encoder::Rav1e => as_args(
            seq![
                "-c:v"@, "librav1e"@, "-qp"@, text::decimal(rav1e_quantizer(opts.crf)),
                "-rav1e-params"@, "speed="@ + preset,
            ],
        ),
    }
}

/// The arguments for the audio encoder.
pub open spec fn audio_args(opts: EncodeOptions) -> Seq<ArgView> {
    as_args(
        seq![
            "-c:a"@, "libopus"@, "-b:a"@,
            text::decimal(opts.audio_bitrate_kbps as nat).push('k'),
        ],
    )
}

/// The arguments of `ffmpeg` that re-encode `input` to AV1 and Opus at `output`.
pub open spec fn encode_args(input: Seq<u8>, output: Seq<u8>, opts: EncodeOptions) -> Seq<
    ArgView,
> {
    (input_args(input, opts.bit_depth) + video_args(opts) + audio_args(opts)).push(
        ArgView::Path(output),
    )
}

/// The arguments of `ffprobe` that list the codecs of the video streams of `input`.
pub open spec fn probe_args(input: Seq<u8>) -> Seq<ArgView> {
    as_args(
        seq![
            "-v"@, "error"@, "-select_streams"@, "v"@, "-show_entries"@, "stream=codec_name"@,
            "-of"@, "csv=p=0"@,
        ],
    ).push(ArgView::Path(input))
}

fn push_word(v: &mut Vec<Arg>, word: &str)
    ensures
        args_view(final(v)@) == args_view(old(v)@).push(ArgView::Word(word@)),
{
    v.push(Arg::Word(word.to_owned()));
    assert(args_view(v@) =~= args_view(old(v)@).push(ArgView::Word(word@)));
}

fn push_words(v: &mut Vec<Arg>, words: &[&str])
    ensures
        args_view(final(v)@) == args_view(old(v)@) + as_args(words@.map_values(|w: &str| w@)),
{
    let ghost start = args_view(v@);
    let ghost ws = words@.map_values(|w: &str| w@);
    let mut i: usize = 0;
    assert(args_view(v@) =~= start + as_args(ws.take(0)));
    while i < words.len()
        invariant
            i <= words.len(),
            ws == words@.map_values(|w: &str| w@),
            args_view(v@) == start + as_args(ws.take(i as int)),
        decreases words.len() - i,
    {
        push_word(v, words[i]);
        assert(ws[i as int] == words@[i as int]@);
        assert(args_view(v@) =~= start + as_args(ws.take(i + 1)));
        i += 1;
    }
    assert(ws.take(ws.len() as int) =~= ws);
}

fn push_path(v: &mut Vec<Arg>, p: &FilePath)
    ensures
        args_view(final(v)@) == args_view(old(v)@).push(ArgView::Path(p@)),
{
    v.push(Arg::Path(p.copy()));
    assert(args_view(v@) =~= args_view(old(v)@).push(ArgView::Path(p@)));
}

fn push_input_args(v: &mut Vec<Arg>, input: &FilePath, bit_depth: u8)
    ensures
        args_view(final(v)@) == args_view(old(v)@) + input_args(input@, bit_depth),
{
    let pix_fmt: &str = if bit_depth == 10 {
        "yuv420p10le"
    } else {
        "yuv420p"
    };
    let first: [&str; 6] = ["-hide_banner", "-loglevel", "warning", "-nostats", "-y", "-i"];
    let second: [&str; 10] = [
        "-map", "0:v:0", "-map", "0:a?", "-sn", "-dn", "-map_chapters", "-1", "-pix_fmt", pix_fmt,
    ];
    push_words(v, first.as_slice());
    push_path(v, input);
    push_words(v, second.as_slice());
    proof {
        assert(first@.map_values(|w: &str| w@) =~= seq![
            "-hide_banner"@, "-loglevel"@, "warning"@, "-nostats"@, "-y"@, "-i"@,
        ]);
        assert(second@.map_values(|w: &str| w@) =~= seq![
            "-map"@, "0:v:0"@, "-map"@, "0:a?"@, "-sn"@, "-dn"@, "-map_chapters"@, "-1"@,
            "-pix_fmt"@,
            if bit_depth == 10 {
                "yuv420p10le"@
            } else {
                "yuv420p"@
            },
        ]);
        assert(args_view(v@) =~= args_view(old(v)@) + input_args(input@, bit_depth));
    }
}

fn push_video_args(v: &mut Vec<Arg>, opts: &EncodeOptions)
    ensures
        args_view(final(v)@) == args_view(old(v)@) + video_args(*opts),
{
    let crf = decimal_string(opts.crf as u64);
    let preset = signed_decimal_string(opts.preset);
    match opts.encoder {
        Av1Encoder::SvtAv1 => {
            let ws: [&str; 8] = [
                "-c:v", "libsvtav1", "-crf", crf.as_str(), "-preset", preset.as_str(),
                "-svtav1-params", "tune=0",
            ];
            push_words(v, ws.as_slice());
            assert(ws@.map_values(|w: &str| w@) =~= seq![
                "-c:v"@, "libsvtav1"@, "-crf"@, crf@, "-preset"@, preset@, "-svtav1-params"@,
                "tune=0"@,
            ]);
        },
        Av1Encoder::Aom => {
            let ws: [&str; 12] = [
                "-c:v", "libaom-av1", "-crf", crf.as_str(), "-b:v", "0", "-cpu-used",
                preset.as_str(), "-row-mt", "1", "-tiles", "2x2",
            ];
            push_words(v, ws.as_slice());
            assert(ws@.map_values(|w: &str| w@) =~= seq![
                "-c:v"@, "libaom-av1"@, "-crf"@, crf@, "-b:v"@, "0"@, "-cpu-used"@, preset@,
                "-row-mt"@, "1"@, "-tiles"@, "2x2"@,
            ]);
        },
        Av1Encoder::Rav1e => {
            let product: u64 = (opts.crf as u64) * 4;
            let quantizer: u64 = if product > 255 {
                255
            } else {
                product
            };
            let qp = decimal_string(quantizer);
            let mut speed: String = "speed=".to_owned();
            speed.append(preset.as_str());
            let ws: [&str; 6] = [
                "-c:v", "librav1e", "-qp", qp.as_str(), "-rav1e-params", speed.as_str(),
            ];
            push_words(v, ws.as_slice());
            assert(ws@.map_values(|w: &str| w@) =~= seq![
                "-c:v"@, "librav1e"@, "-qp"@, qp@, "-rav1e-params"@, speed@,
            ]);
        },
    }
}

fn push_audio_args(v: &mut Vec<Arg>, opts: &EncodeOptions)
    ensures
        args_view(final(v)@) == args_view(old(v)@) + audio_args(*opts),
{
    let mut bitrate = decimal_string(opts.audio_bitrate_kbps as u64);
    bitrate.push('k');
    let ws: [&str; 4] = ["-c:a", "libopus", "-b:a", bitrate.as_str()];
    push_words(v, ws.as_slice());
    assert(ws@.map_values(|w: &str| w@) =~= seq!["-c:a"@, "libopus"@, "-b:a"@, bitrate@]);
}

/// The arguments of `ffmpeg` that re-encode `input` to AV1 and Opus in a WebM container
/// at `output`.
pub fn encode(input: &FilePath, output: &FilePath, opts: &EncodeOptions) -> (r: Vec<Arg>)
    ensures
        args_view(r@) == encode_args(input@, output@, *opts),
{
    let mut v: Vec<Arg> = Vec::new();
    push_input_args(&mut v, input, opts.bit_depth);
    push_video_args(&mut v, opts);
    push_audio_args(&mut v, opts);
    push_path(&mut v, output);
    assert(args_view(v@) =~= encode_args(input@, output@, *opts));
    v
}

/// The arguments of `ffprobe` that list the codecs of the video streams of `input`.
pub fn probe(input: &FilePath) -> (r: Vec<Arg>)
    ensures
        args_view(r@) == probe_args(input@),
{
    let ws: [&str; 8] = [
        "-v", "error", "-select_streams", "v", "-show_entries", "stream=codec_name", "-of",
        "csv=p=0",
    ];
    let mut v: Vec<Arg> = Vec::new();
    push_words(&mut v, ws.as_slice());
    push_path(&mut v, input);
    proof {
        assert(ws@.map_values(|w: &str| w@) =~= seq![
            "-v"@, "error"@, "-select_streams"@, "v"@, "-show_entries"@, "stream=codec_name"@,
            "-of"@, "csv=p=0"@,
        ]);
        assert(args_view(v@) =~= probe_args(input@));
    }
    v
}

/// The arguments of `ffmpeg` that list its encoders.
pub fn list_encoders() -> (r: Vec<Arg>)
    ensures
        args_view(r@) == as_args(seq!["-hide_banner"@, "-encoders"@]),
{
    let ws: [&str; 2] = ["-hide_banner", "-encoders"];
    let mut v: Vec<Arg> = Vec::new();
    push_words(&mut v, ws.as_slice());
    proof {
        assert(ws@.map_values(|w: &str| w@) =~= seq!["-hide_banner"@, "-encoders"@]);
        assert(args_view(v@) =~= as_args(seq!["-hide_banner"@, "-encoders"@]));
    }
    v
}

/// How an encoder ended that did not fail.
#[derive(Clone, Copy, Debug, PartialEq, Eq, Structural)]
pub enum EncodeResult {
    Finished,
    /// It was asked to stop. This is no failure.
    Interrupted,
}

/// Why an encoder failed.
#[derive(Debug)]
pub enum EncodeError {
    /// It could not be started.
    Spawn,
    /// It could not be waited for.
    Wait,
    /// It ended with this status.
    Exit(String),
}

impl EncodeError {
    pub open spec fn text(self) -> Seq<char> {
        match self {
            EncodeError::Spawn => "failed to spawn ffmpeg"@,
            EncodeError::Wait => "waiting on ffmpeg"@,
            EncodeError::Exit(status) => "ffmpeg exited with "@ + status@,
        }
    }

    pub fn message(&self) -> (r: String)
        ensures
            r@ == self.text(),
    {
        match self {
            EncodeError::Spawn => "failed to spawn ffmpeg".to_owned(),
            EncodeError::Wait => "waiting on ffmpeg".to_owned(),
            EncodeError::Exit(status) => {
                let mut s: String = "ffmpeg exited with ".to_owned();
                s.append(status.as_str());
                s
            },
        }
    }
}

/// What a look at the encoder showed.
#[derive(Debug)]
pub enum Child {
    Running,
    /// It could not be waited for.
    Lost,
    Exited { success: bool, status: String },
}

/// What to do with the encoder.
#[derive(Debug)]
pub enum EncodeStep {
    /// Look again after so many milliseconds.
    Sleep(u64),
    /// Kill it, wait for its end, remove what it wrote, and end with `result` whatever its
    /// status is.
    Stop { result: Result<EncodeResult, EncodeError> },
    /// It is through: remove what it wrote if `remove_output`, and end with `result`.
    End { remove_output: bool, result: Result<EncodeResult, EncodeError> },
}

/// What to do with a running encoder. A request to stop comes before anything else.
pub open spec fn step(shutdown: bool, child: Child) -> EncodeStep {
    if shutdown {
        EncodeStep::Stop { result: Ok(EncodeResult::Interrupted) }
    } else {
        match child {
            Child::Running => EncodeStep::Sleep(200),
            Child::Lost => EncodeStep::End { remove_output: false, result: Err(EncodeError::Wait) },
            Child::Exited { success, status } => if success {
                EncodeStep::End { remove_output: false, result: Ok(EncodeResult::Finished) }
            } else {
                EncodeStep::End { remove_output: true, result: Err(EncodeError::Exit(status)) }
            },
        }
    }
}

/// What to do with a running encoder.
pub fn encode_step(shutdown: bool, child: Child) -> (r: EncodeStep)
    ensures
        r == step(shutdown, child),
{
    if shutdown {
        return EncodeStep::Stop { result: Ok(EncodeResult::Interrupted) };
    }
    match child {
        Child::Running => EncodeStep::Sleep(200),
        Child::Lost => EncodeStep::End { remove_output: false, result: Err(EncodeError::Wait) },
        Child::Exited { success, status } => {
            if success {
                EncodeStep::End { remove_output: false, result: Ok(EncodeResult::Finished) }
            } else {
                EncodeStep::End { remove_output: true, result: Err(EncodeError::Exit(status)) }
            }
        },
    }
}

impl EncodeStep {
    /// What the encoding ends with, if it ends here.
    pub open spec fn ended(self) -> Option<Result<EncodeResult, EncodeError>> {
        match self {
            EncodeStep::Sleep(_) => None,
            EncodeStep::Stop { result } => Some(result),
            EncodeStep::End { result, .. } => Some(result),
        }
    }

    /// Whether what the encoder wrote is removed.
    pub open spec fn removes_output(self) -> bool {
        match self {
            EncodeStep::Sleep(_) => false,
            EncodeStep::Stop { .. } => true,
            EncodeStep::End { remove_output, .. } => remove_output,
        }
    }
}

/// The step that an encoding ends with, looked at again and again: each look shows whether
/// to stop, and the encoder. `None` where it goes on after the last look.
pub open spec fn last_step(looks: Seq<(bool, Child)>) -> Option<EncodeStep>
    decreases looks.len(),
{
    if looks.len() == 0 {
        None
    } else {
        let first = step(looks[0].0, looks[0].1);
        if first.ended() is Some {
            Some(first)
        } else {
            last_step(looks.drop_first())
        }
    }
}

/// An encoder that is asked to stop before it ended is interrupted, which is no error
/// whatever its status is, and what it wrote is removed.
pub proof fn law_stopped_is_interrupted(looks: Seq<(bool, Child)>, at: int)
    requires
        0 <= at < looks.len(),
        looks[at].0,
        forall|i: int| 0 <= i < at ==> (#[trigger] looks[i]).0 || looks[i].1 is Running,
    ensures
        ({
            let last = last_step(looks);
            &&& last is Some
            &&& last->0.ended() == Some(Ok::<_, EncodeError>(EncodeResult::Interrupted))
            &&& last->0.removes_output()
        }),
    decreases at,
{
    if !looks[0].0 {
        let rest = looks.drop_first();
        assert(rest[at - 1] == looks[at]);
        assert forall|i: int| 0 <= i < at - 1 implies (#[trigger] rest[i]).0
            || rest[i].1 is Running by {
            assert(rest[i] == looks[i + 1]);
        }
        law_stopped_is_interrupted(rest, at - 1);
    }
}

/// Whether the word `value` follows the word `name` somewhere in the arguments.
pub open spec fn has_option(args: Seq<ArgView>, name: Seq<char>, value: Seq<char>) -> bool {
    exists|i: int|
        0 <= i < args.len() - 1 && #[trigger] args[i] == ArgView::Word(name) && args[i + 1]
            == ArgView::Word(value)
}

proof fn lemma_decimal_start(n: nat)
    ensures
        text::decimal(n).len() > 0,
        '0' <= text::decimal(n)[0] <= '9',
    decreases n,
{
    if n >= 10 {
        lemma_decimal_start(n / 10);
    }
}

/// What the words of the encoders' options are not.
proof fn lemma_no_other_map(opts: EncodeOptions, i: int)
    requires
        0 <= i < (video_args(opts) + audio_args(opts)).len(),
    ensures
        (video_args(opts) + audio_args(opts))[i] != ArgView::Word("-map"@),
{
    reveal_strlit("-map");
    reveal_strlit("-c:v");
    reveal_strlit("libsvtav1");
    reveal_strlit("-crf");
    reveal_strlit("-preset");
    reveal_strlit("-svtav1-params");
    reveal_strlit("tune=0");
    reveal_strlit("libaom-av1");
    reveal_strlit("-b:v");
    reveal_strlit("0");
    reveal_strlit("-cpu-used");
    reveal_strlit("-row-mt");
    reveal_strlit("1");
    reveal_strlit("-tiles");
    reveal_strlit("2x2");
    reveal_strlit("librav1e");
    reveal_strlit("-qp");
    reveal_strlit("-rav1e-params");
    reveal_strlit("speed=");
    reveal_strlit("-c:a");
    reveal_strlit("libopus");
    reveal_strlit("-b:a");
    assert("-map"@[1] == 'm');
    assert("-c:v"@[1] == 'c' && "-crf"@[1] == 'c' && "-c:a"@[1] == 'c');
    assert("-b:v"@[1] == 'b' && "-b:a"@[1] == 'b');
    lemma_decimal_start(opts.crf as nat);
    lemma_decimal_start(rav1e_quantizer(opts.crf));
    lemma_decimal_start(opts.audio_bitrate_kbps as nat);
    let preset = text::signed_decimal(opts.preset as int);
    if opts.preset < 0 {
        lemma_decimal_start((-opts.preset) as nat);
        assert(preset[1] != 'm');
    } else {
        lemma_decimal_start(opts.preset as nat);
        assert(preset[0] != '-');
    }
    assert(preset != "-map"@);
    assert(("speed="@ + preset)[0] == 's');
    let bitrate = text::decimal(opts.audio_bitrate_kbps as nat).push('k');
    assert(bitrate[0] != '-');
    let map = "-map"@;
    let crf = text::decimal(opts.crf as nat);
    assert(crf[0] != '-');
    assert(map[0] == '-');
}

/// `ffmpeg` reads the source alone and writes the result, overwriting what is there. It
/// takes the first video stream and every audio stream, and no other; the video is
/// encoded by the chosen encoder and the audio to Opus.
pub proof fn law_streams_of_result(input: Seq<u8>, output: Seq<u8>, opts: EncodeOptions)
    ensures
        ({
            let args = encode_args(input, output, opts);
            &&& args[5] == ArgView::Word("-i"@)
            &&& args[6] == ArgView::Path(input)
            &&& args.last() == ArgView::Path(output)
            &&& args.contains(ArgView::Word("-y"@))
            &&& has_option(args, "-map"@, "0:v:0"@)
            &&& has_option(args, "-map"@, "0:a?"@)
            &&& args.contains(ArgView::Word("-sn"@))
            &&& args.contains(ArgView::Word("-dn"@))
            &&& has_option(args, "-map_chapters"@, "-1"@)
            &&& has_option(args, "-c:v"@, opts.encoder.name())
            &&& has_option(args, "-c:a"@, "libopus"@)
            &&& forall|i: int|
                0 <= i < args.len() && #[trigger] args[i] == ArgView::Word("-map"@) ==> args[i + 1]
                    == ArgView::Word("0:v:0"@) || args[i + 1] == ArgView::Word("0:a?"@)
        }),
{
    let args = encode_args(input, output, opts);
    let start = input_args(input, opts.bit_depth);
    let rest = video_args(opts) + audio_args(opts);
    assert(args =~= (start + rest).push(ArgView::Path(output)));
    assert(start.len() == 17);
    assert(args[4] == ArgView::Word("-y"@));
    assert(args[7] == ArgView::Word("-map"@) && args[8] == ArgView::Word("0:v:0"@));
    assert(args[9] == ArgView::Word("-map"@) && args[10] == ArgView::Word("0:a?"@));
    assert(args[11] == ArgView::Word("-sn"@));
    assert(args[12] == ArgView::Word("-dn"@));
    assert(args[13] == ArgView::Word("-map_chapters"@) && args[14] == ArgView::Word("-1"@));
    assert(args[17] == ArgView::Word("-c:v"@) && args[18] == ArgView::Word(opts.encoder.name()));
    let a = 17 + video_args(opts).len() as int;
    assert(args[a] == ArgView::Word("-c:a"@) && args[a + 1] == ArgView::Word("libopus"@));
    assert forall|i: int|
        0 <= i < args.len() && #[trigger] args[i] == ArgView::Word("-map"@) implies args[i + 1]
        == ArgView::Word("0:v:0"@) || args[i + 1] == ArgView::Word("0:a?"@) by {
        if i < 17 {
            reveal_strlit("-map");
            reveal_strlit("-hide_banner");
            reveal_strlit("-loglevel");
            reveal_strlit("warning");
            reveal_strlit("-nostats");
            reveal_strlit("-y");
            reveal_strlit("-i");
            reveal_strlit("0:v:0");
            reveal_strlit("0:a?");
            reveal_strlit("-sn");
            reveal_strlit("-dn");
            reveal_strlit("-map_chapters");
            reveal_strlit("-1");
            reveal_strlit("-pix_fmt");
            reveal_strlit("yuv420p10le");
            reveal_strlit("yuv420p");
            let map = "-map"@;
            assert("0:a?"@[0] == '0' && map[0] == '-');
            assert(args[i] == start[i]);
            let first = seq![
                "-hide_banner"@, "-loglevel"@, "warning"@, "-nostats"@, "-y"@, "-i"@,
            ];
            let format = if opts.bit_depth == 10 {
                "yuv420p10le"@
            } else {
                "yuv420p"@
            };
            let second = seq![
                "-map"@, "0:v:0"@, "-map"@, "0:a?"@, "-sn"@, "-dn"@, "-map_chapters"@, "-1"@,
                "-pix_fmt"@, format,
            ];
            if i < 6 {
                assert(start[i] == ArgView::Word(first[i]));
                assert(first[i].len() != map.len());
            } else if i > 6 {
                assert(start[i] == ArgView::Word(second[i - 7]));
                assert(i == 7 || i == 9 || i == 10 || second[i - 7].len() != map.len());
            }
        } else if i < args.len() - 1 {
            assert(args[i] == rest[i - 17]);
            lemma_no_other_map(opts, i - 17);
        }
    }
}

} // verus!
