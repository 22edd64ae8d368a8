//! How the tools are called.
use vstd::prelude::*;

use crate::command::{self, Arg, ArgView, Child, EncodeError, EncodeResult, EncodeStep};
use crate::ffmpeg::{Av1Encoder, EncodeOptions};
use crate::laws::texts;
use crate::text;

verus! {

pub open spec fn is_word(arg: ArgView, word: Seq<char>) -> bool {
    arg == ArgView::Word(word)
}

/// An argument that reads as this number.
pub open spec fn is_number(arg: ArgView, n: int) -> bool {
    arg is Word && texts::is_numeral(arg->Word_0) && texts::value(arg->Word_0) == n
}

/// An argument that reads as this number, with a minus sign where it is negative.
pub open spec fn is_signed(arg: ArgView, n: int) -> bool {
    if n < 0 {
        arg is Word && arg->Word_0.len() > 1 && arg->Word_0[0] == '-' && is_number(
            ArgView::Word(arg->Word_0.skip(1)),
            -n,
        )
    } else {
        is_number(arg, n)
    }
}

/// An argument that reads as so many thousands.
pub open spec fn is_rate(arg: ArgView, n: int) -> bool {
    arg is Word && arg->Word_0.len() > 1 && arg->Word_0.last() == 'k' && is_number(
        ArgView::Word(arg->Word_0.drop_last()),
        n,
    )
}

/// Arguments are what they hold.
pub proof fn law_arguments_are_what_they_hold(v: Seq<Arg>, i: int)
    requires
        0 <= i < v.len(),
    ensures
        command::args_view(v).len() == v.len(),
        match v[i] {
            Arg::Word(w) => is_word(command::args_view(v)[i], w@),
            Arg::Path(p) => command::args_view(v)[i] == ArgView::Path(p.bytes@),
        },
{
}

/// What every command starts with.
pub open spec fn starts_right(args: Seq<ArgView>, input: Seq<u8>, opts: EncodeOptions) -> bool {
    &&& is_word(args[0], "-hide_banner"@)
    &&& is_word(args[1], "-loglevel"@)
    &&& is_word(args[2], "warning"@)
    &&& is_word(args[3], "-nostats"@)
    &&& is_word(args[4], "-y"@)
    &&& is_word(args[5], "-i"@)
    &&& args[6] == ArgView::Path(input)
    &&& is_word(args[7], "-map"@)
    &&& is_word(args[8], "0:v:0"@)
    &&& is_word(args[9], "-map"@)
    &&& is_word(args[10], "0:a?"@)
    &&& is_word(args[11], "-sn"@)
    &&& is_word(args[12], "-dn"@)
    &&& is_word(args[13], "-map_chapters"@)
    &&& is_word(args[14], "-1"@)
    &&& is_word(args[15], "-pix_fmt"@)
    &&& is_word(
        args[16],
        if opts.bit_depth == 10 {
            "yuv420p10le"@
        } else {
            "yuv420p"@
        },
    )
}

pub open spec fn is_svt_command(
    args: Seq<ArgView>,
    output: Seq<u8>,
    opts: EncodeOptions,
) -> bool {
    &&& is_word(args[17], "-c:v"@)
    &&& is_word(args[18], "libsvtav1"@)
    &&& is_word(args[19], "-crf"@)
    &&& is_number(args[20], opts.crf as int)
    &&& is_word(args[21], "-preset"@)
    &&& is_signed(args[22], opts.preset as int)
    &&& is_word(args[23], "-svtav1-params"@)
    &&& is_word(args[24], "tune=0"@)
    &&& is_word(args[25], "-c:a"@)
    &&& is_word(args[26], "libopus"@)
    &&& is_word(args[27], "-b:a"@)
    &&& is_rate(args[28], opts.audio_bitrate_kbps as int)
    &&& args[29] == ArgView::Path(output)
    &&& args.len() == 30
}

pub open spec fn is_aom_command(
    args: Seq<ArgView>,
    output: Seq<u8>,
    opts: EncodeOptions,
) -> bool {
    &&& is_word(args[17], "-c:v"@)
    &&& is_word(args[18], "libaom-av1"@)
    &&& is_word(args[19], "-crf"@)
    &&& is_number(args[20], opts.crf as int)
    &&& is_word(args[21], "-b:v"@)
    &&& is_word(args[22], "0"@)
    &&& is_word(args[23], "-cpu-used"@)
    &&& is_signed(args[24], opts.preset as int)
    &&& is_word(args[25], "-row-mt"@)
    &&& is_word(args[26], "1"@)
    &&& is_word(args[27], "-tiles"@)
    &&& is_word(args[28], "2x2"@)
    &&& is_word(args[29], "-c:a"@)
    &&& is_word(args[30], "libopus"@)
    &&& is_word(args[31], "-b:a"@)
    &&& is_rate(args[32], opts.audio_bitrate_kbps as int)
    &&& args[33] == ArgView::Path(output)
    &&& args.len() == 34
}

pub open spec fn is_rav1e_command(
    args: Seq<ArgView>,
    output: Seq<u8>,
    opts: EncodeOptions,
) -> bool {
    let quantizer: int = if 4 * opts.crf <= 255 {
        4 * opts.crf
    } else {
        255
    };
    &&& is_word(args[17], "-c:v"@)
    &&& is_word(args[18], "librav1e"@)
    &&& is_word(args[19], "-qp"@)
    &&& is_number(args[20], quantizer)
    &&& is_word(args[21], "-rav1e-params"@)
    &&& args[22] is Word
    &&& args[22]->Word_0.len() > 6
    &&& args[22]->Word_0.take(6) == "speed="@
    &&& is_signed(ArgView::Word(args[22]->Word_0.skip(6)), opts.preset as int)
    &&& is_word(args[23], "-c:a"@)
    &&& is_word(args[24], "libopus"@)
    &&& is_word(args[25], "-b:a"@)
    &&& is_rate(args[26], opts.audio_bitrate_kbps as int)
    &&& args[27] == ArgView::Path(output)
    &&& args.len() == 28
}

/// The encoder is called with the source, the streams to take, the pixel format of the bit
/// depth, its own options with the quality and speed that were asked for, the audio bitrate
/// that was asked for and the result, and nothing else. The numbers read as those asked for;
/// rav1e's quantizer is four times the quality level, at most 255.
#[verifier::spinoff_prover]
pub proof fn law_the_command_asks_for_what_was_wanted(
    input: Seq<u8>,
    output: Seq<u8>,
    opts: EncodeOptions,
)
    ensures
        ({
            let args = command::encode_args(input, output, opts);
            &&& starts_right(args, input, opts)
            &&& match opts.encoder {
                Av1Encoder::SvtAv1 => is_svt_command(args, output, opts),
                Av1Encoder::Aom => is_aom_command(args, output, opts),
                Av1Encoder::Rav1e => is_rav1e_command(args, output, opts),
            }
        }),
{
    let rate = text::decimal(opts.audio_bitrate_kbps as nat);
    let preset = text::signed_decimal(opts.preset as int);
    texts::law_decimals_read_back(opts.crf as nat);
    texts::law_decimals_read_back(command::rav1e_quantizer(opts.crf));
    texts::law_decimals_read_back(opts.audio_bitrate_kbps as nat);
    texts::law_signed_decimals_read_back(opts.preset as int);
    reveal_strlit("speed=");
    assert(rate.push('k').drop_last() =~= rate);
    assert(("speed="@ + preset).take(6) =~= "speed="@);
    assert(("speed="@ + preset).skip(6) =~= preset);
}

/// Commands that are the same were asked for the same: other files, another encoder, speed,
/// bitrate or pixel format, or but for rav1e another quality, give another command.
pub proof fn law_other_options_give_another_command(
    input: Seq<u8>,
    output: Seq<u8>,
    opts: EncodeOptions,
    other_input: Seq<u8>,
    other_output: Seq<u8>,
    other: EncodeOptions,
)
    requires
        command::encode_args(input, output, opts) == command::encode_args(
            other_input,
            other_output,
            other,
        ),
    ensures
        input == other_input,
        output == other_output,
        opts.encoder == other.encoder,
        opts.encoder != Av1Encoder::Rav1e ==> opts.crf == other.crf,
        opts.preset == other.preset,
        opts.audio_bitrate_kbps == other.audio_bitrate_kbps,
        opts.bit_depth == 10 <==> other.bit_depth == 10,
{
    law_the_command_asks_for_what_was_wanted(input, output, opts);
    law_the_command_asks_for_what_was_wanted(other_input, other_output, other);
    reveal_strlit("libsvtav1");
    reveal_strlit("libaom-av1");
    reveal_strlit("librav1e");
    reveal_strlit("yuv420p10le");
    reveal_strlit("yuv420p");
    let args = command::encode_args(input, output, opts);
    assert(opts.encoder == other.encoder) by {
        assert(args.len() == 30 || args.len() == 34 || args.len() == 28);
    }
    assert("yuv420p10le"@.len() != "yuv420p"@.len());
    lemma_one_sign();
}

/// A word reads as one number only.
proof fn lemma_one_sign()
    ensures
        forall|a: ArgView, m: int, n: int| is_signed(a, m) && is_signed(a, n) ==> m == n,
{
    assert forall|a: ArgView, m: int, n: int| is_signed(a, m) && is_signed(a, n) implies m == n by {
        let w = a->Word_0;
        if m < 0 && n >= 0 {
            assert('0' <= w[0] <= '9');
        }
        if n < 0 && m >= 0 {
            assert('0' <= w[0] <= '9');
        }
    }
}

/// A file is probed for the codecs of its video streams and nothing else.
pub proof fn law_the_probe_asks_for_codecs(input: Seq<u8>)
    ensures
        ({
            let args = command::probe_args(input);
            &&& args.len() == 9
            &&& is_word(args[0], "-v"@)
            &&& is_word(args[1], "error"@)
            &&& is_word(args[2], "-select_streams"@)
            &&& is_word(args[3], "v"@)
            &&& is_word(args[4], "-show_entries"@)
            &&& is_word(args[5], "stream=codec_name"@)
            &&& is_word(args[6], "-of"@)
            &&& is_word(args[7], "csv=p=0"@)
            &&& args[8] == ArgView::Path(input)
        }),
{
}

/// An encoder that nobody stops is waited for; it finished where it ended successfully, and
/// failed with its status where not. What it wrote is removed where it failed or was stopped.
pub proof fn law_how_an_encoder_ends(shutdown: bool, child: Child)
    ensures
        ({
            let step = command::step(shutdown, child);
            &&& step.ended() is None <==> !shutdown && child is Running
            &&& shutdown ==> step.ended() == Some(Ok::<_, EncodeError>(EncodeResult::Interrupted))
                && step.removes_output()
            &&& !shutdown ==> match child {
                Child::Running => step == EncodeStep::Sleep(200) && !step.removes_output(),
                Child::Lost => step.ended() == Some(Err::<EncodeResult, _>(EncodeError::Wait))
                    && !step.removes_output(),
                Child::Exited { success: true, .. } => step.ended() == Some(
                    Ok::<_, EncodeError>(EncodeResult::Finished),
                ) && !step.removes_output(),
                Child::Exited { success: false, status } => step.ended() == Some(
                    Err::<EncodeResult, _>(EncodeError::Exit(status)),
                ) && step.removes_output(),
            }
        }),
{
}

} // verus!
