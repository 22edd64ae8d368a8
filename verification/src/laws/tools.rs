//! What the output of the tools says.
use vstd::prelude::*;

use crate::ffmpeg::{self, Av1Encoder};
use crate::logging::{self, LogError, LogLevel};
use crate::text;
use crate::utf8;

verus! {

/// Whether some line of a listing has `name` as its second word.
pub open spec fn has_second_word(listing: Seq<char>, name: Seq<char>) -> bool {
    exists|i: int|
        0 <= i < text::lines(listing).len() && text::words(#[trigger] text::lines(listing)[i]).len()
            >= 2 && text::words(text::lines(listing)[i])[1] == name
}

/// An encoder is chosen that is listed, and none that is preferred to it is: SVT-AV1 to
/// libaom, and that to rav1e. Where one of the three is listed, one is chosen.
pub proof fn law_preferred_encoder(listing: Seq<char>)
    ensures
        ({
            let svt = has_second_word(listing, "libsvtav1"@);
            let aom = has_second_word(listing, "libaom-av1"@);
            let rav1e = has_second_word(listing, "librav1e"@);
            let chosen = ffmpeg::preferred(listing);
            &&& chosen == Some(Av1Encoder::SvtAv1) <==> svt
            &&& chosen == Some(Av1Encoder::Aom) <==> aom && !svt
            &&& chosen == Some(Av1Encoder::Rav1e) <==> rav1e && !svt && !aom
            &&& chosen is None <==> !svt && !aom && !rav1e
        }),
{
    lemma_lists(listing, "libsvtav1"@);
    lemma_lists(listing, "libaom-av1"@);
    lemma_lists(listing, "librav1e"@);
}

proof fn lemma_lists(listing: Seq<char>, name: Seq<char>)
    ensures
        ffmpeg::lists(listing, name) <==> has_second_word(listing, name),
{
    let ls = text::lines(listing);
    if ffmpeg::lists(listing, name) {
        let i = choose|i: int|
            0 <= i < ls.len() && ffmpeg::second_word_is(#[trigger] text::lines(listing)[i], name);
        assert(text::words(text::lines(listing)[i])[1] == name);
    }
    if has_second_word(listing, name) {
        let i = choose|i: int|
            0 <= i < ls.len() && text::words(#[trigger] text::lines(listing)[i]).len() >= 2
                && text::words(text::lines(listing)[i])[1] == name;
        assert(ffmpeg::second_word_is(text::lines(listing)[i], name));
    }
}

/// Whether a line names no video: it is blank, or names a codec of pictures.
pub open spec fn names_no_video(line: Seq<char>) -> bool {
    let t = text::trim(line);
    ||| t.len() == 0
    ||| t == "mjpeg"@
    ||| t == "png"@
    ||| t == "bmp"@
    ||| t == "gif"@
    ||| t == "tiff"@
    ||| t == "webp"@
    ||| t == "ppm"@
    ||| t == "pgm"@
}

proof fn lemma_image_codecs(t: Seq<char>)
    ensures
        ffmpeg::image_codec_names().contains(t) <==> t == "mjpeg"@ || t == "png"@ || t == "bmp"@
            || t == "gif"@ || t == "tiff"@ || t == "webp"@ || t == "ppm"@ || t == "pgm"@,
{
    let list = ffmpeg::image_codec_names();
    assert(list[0] == "mjpeg"@);
    assert(list[1] == "png"@);
    assert(list[2] == "bmp"@);
    assert(list[3] == "gif"@);
    assert(list[4] == "tiff"@);
    assert(list[5] == "webp"@);
    assert(list[6] == "ppm"@);
    assert(list[7] == "pgm"@);
}

/// The codec of a file is the first line of the listing that names a video, without the
/// space around it; there is none where no line does.
pub proof fn law_codec_of_a_file(listing: Seq<char>)
    ensures
        ({
            let ls = text::lines(listing);
            match ffmpeg::codec_in(listing) {
                Some(codec) => exists|i: int|
                    0 <= i < ls.len() && codec == text::trim(#[trigger] ls[i]) && !names_no_video(
                        ls[i],
                    ) && (forall|j: int| 0 <= j < i ==> names_no_video(#[trigger] ls[j])),
                None => forall|j: int| 0 <= j < ls.len() ==> names_no_video(#[trigger] ls[j]),
            }
        }),
{
    lemma_first_real(text::lines(listing));
}

proof fn lemma_first_real(ls: Seq<Seq<char>>)
    ensures
        match ffmpeg::first_real(ls) {
            Some(codec) => exists|i: int|
                0 <= i < ls.len() && codec == text::trim(#[trigger] ls[i]) && !names_no_video(
                    ls[i],
                ) && (forall|j: int| 0 <= j < i ==> names_no_video(#[trigger] ls[j])),
            None => forall|j: int| 0 <= j < ls.len() ==> names_no_video(#[trigger] ls[j]),
        },
    decreases ls.len(),
{
    if ls.len() > 0 {
        let d = ls.drop_first();
        lemma_image_codecs(text::trim(ls[0]));
        if names_no_video(ls[0]) {
            lemma_first_real(d);
            if ffmpeg::first_real(d) is Some {
                let codec = ffmpeg::first_real(d)->0;
                let i = choose|i: int|
                    0 <= i < d.len() && codec == text::trim(#[trigger] d[i]) && !names_no_video(
                        d[i],
                    ) && (forall|j: int| 0 <= j < i ==> names_no_video(#[trigger] d[j]));
                assert(ls[i + 1] == d[i]);
                assert forall|j: int| 0 <= j < i + 1 implies names_no_video(#[trigger] ls[j]) by {
                    if j > 0 {
                        assert(d[j - 1] == ls[j]);
                    }
                }
            } else {
                assert forall|j: int| 0 <= j < ls.len() implies names_no_video(
                    #[trigger] ls[j],
                ) by {
                    if j > 0 {
                        assert(d[j - 1] == ls[j]);
                    }
                }
            }
        } else {
            assert(ffmpeg::first_real(ls) == Some(text::trim(ls[0])));
        }
    }
}

/// The name of an encoder.
pub proof fn law_names_of_encoders(encoder: Av1Encoder)
    ensures
        encoder.name() == match encoder {
            Av1Encoder::SvtAv1 => "libsvtav1"@,
            Av1Encoder::Aom => "libaom-av1"@,
            Av1Encoder::Rav1e => "librav1e"@,
        },
{
}

/// A level has the name that it has in lower case, whatever the case, and no other text
/// names one.
pub proof fn law_names_of_levels(name: Seq<char>, level: LogLevel)
    ensures
        logging::level_named(name) == Some(level) <==> text::ascii_lower(name) == match level {
            LogLevel::Off => "off"@,
            LogLevel::Error => "error"@,
            LogLevel::Warn => "warn"@,
            LogLevel::Info => "info"@,
            LogLevel::Debug => "debug"@,
            LogLevel::Trace => "trace"@,
        },
{
    reveal_strlit("off");
    reveal_strlit("error");
    reveal_strlit("warn");
    reveal_strlit("info");
    reveal_strlit("debug");
    reveal_strlit("trace");
    assert("error"@[0] == 'e' && "debug"@[0] == 'd' && "trace"@[0] == 't');
    assert("warn"@[0] == 'w' && "info"@[0] == 'i');
}

/// What is said where logging cannot be set up names what is wrong.
pub proof fn law_log_errors_name_what_is_wrong(error: LogError)
    ensures
        error.text() == match error {
            LogError::Level(name) => "invalid log level "@ + logging::quoted(name@),
            LogError::Dir(p) => "creating log dir "@ + utf8::shown(p.bytes@),
            LogError::File(p) => "opening log file "@ + utf8::shown(p.bytes@),
            LogError::Logger => "initialising logger"@,
        },
{
}

} // verus!
