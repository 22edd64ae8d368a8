use vidwatcher::command::{
    encode, encode_step, list_encoders, probe, Arg, Child, EncodeError, EncodeResult, EncodeStep,
};
use vidwatcher::config::EncodeConfig;
use vidwatcher::ffmpeg::{
    best_encoder, check_tools, first_codec, image_codecs, video_codec, Av1Encoder, DetectError,
    EncodeOptions, ProbeError, ProbeRun, Tool,
};
use vidwatcher::path::FilePath;

fn words(args: Vec<Arg>) -> Vec<String> {
    args.into_iter()
        .map(|a| match a {
            Arg::Word(w) => w,
            Arg::Path(p) => format!("<{}>", String::from_utf8(p.bytes).unwrap()),
        })
        .collect()
}

fn options(encoder: Av1Encoder) -> EncodeOptions {
    EncodeOptions { encoder, crf: 32, preset: 6, audio_bitrate_kbps: 128, bit_depth: 10 }
}

fn listing(names: &[&str]) -> String {
    let mut s = "Encoders:\n V..... = Video\n ------\n".to_string();
    for n in names {
        s.push_str(&format!(" V....D {n}            some words (codec av1)\n"));
    }
    s
}

#[test]
fn best_encoder_is_preferred() {
    let best = |names: &[&str]| best_encoder(&listing(names));
    assert_eq!(best(&["librav1e", "libaom-av1", "libsvtav1"]), Some(Av1Encoder::SvtAv1));
    assert_eq!(best(&["librav1e", "libaom-av1"]), Some(Av1Encoder::Aom));
    assert_eq!(best(&["librav1e", "libx264"]), Some(Av1Encoder::Rav1e));
    assert_eq!(best(&["libx264", "libsvtav1x"]), None);
    assert_eq!(best_encoder("libsvtav1 is mentioned first"), None);
    assert_eq!(best_encoder("a\tlibsvtav1"), Some(Av1Encoder::SvtAv1));
    assert_eq!(best_encoder(""), None);
}

#[test]
fn encoders_are_detected_in_bytes() {
    let out = listing(&["libaom-av1"]).into_bytes();
    assert_eq!(Av1Encoder::detect(Some(out)), Ok(Av1Encoder::Aom));
    let mut odd = b" V.. x\xff\n".to_vec();
    odd.extend_from_slice(b" V.. librav1e r\r\n");
    assert_eq!(Av1Encoder::detect(Some(odd)), Ok(Av1Encoder::Rav1e));
    assert_eq!(Av1Encoder::detect(Some(vec![])), Err(DetectError::NoEncoder));
    assert_eq!(Av1Encoder::detect(None), Err(DetectError::NotRun));
    assert_eq!(DetectError::NotRun.message(), "failed to run `ffmpeg -encoders`");
    assert_eq!(
        DetectError::NoEncoder.message(),
        "this ffmpeg has no AV1 encoder (need libsvtav1, libaom-av1 or librav1e)"
    );
}

#[test]
fn encoder_names() {
    assert_eq!(Av1Encoder::SvtAv1.ffmpeg_name(), "libsvtav1");
    assert_eq!(Av1Encoder::Aom.ffmpeg_name(), "libaom-av1");
    assert_eq!(Av1Encoder::Rav1e.ffmpeg_name(), "librav1e");
}

#[test]
fn options_from_a_configuration() {
    let cfg = EncodeConfig { crf: 1, preset: -2, audio_bitrate: 3, bit_depth: 8 };
    let o = EncodeOptions::new(Av1Encoder::Rav1e, &cfg);
    assert_eq!(o.encoder, Av1Encoder::Rav1e);
    assert_eq!((o.crf, o.preset, o.audio_bitrate_kbps, o.bit_depth), (1, -2, 3, 8));
}

#[test]
fn tools_are_checked_in_turn() {
    assert_eq!(check_tools(true, true), Ok(()));
    assert_eq!(check_tools(false, true), Err(Tool::Ffmpeg));
    assert_eq!(check_tools(false, false), Err(Tool::Ffmpeg));
    assert_eq!(check_tools(true, false), Err(Tool::Ffprobe));
    assert_eq!(Tool::Ffmpeg.program(), "ffmpeg");
    assert_eq!(Tool::Ffprobe.missing_message(), "`ffprobe` was not found on PATH");
}

#[test]
fn first_real_codec() {
    assert_eq!(first_codec("h264\n"), Some("h264".to_string()));
    assert_eq!(first_codec("mjpeg\r\n\n  hevc \nav1\n"), Some("hevc".to_string()));
    assert_eq!(first_codec("png\n"), None);
    assert_eq!(first_codec(""), None);
    assert_eq!(
        image_codecs(),
        vec!["mjpeg", "png", "bmp", "gif", "tiff", "webp", "ppm", "pgm"]
    );
    for c in image_codecs() {
        assert_eq!(first_codec(c), None);
    }
    assert_eq!(first_codec("mjpeg2000"), Some("mjpeg2000".to_string()));
}

#[test]
fn codecs_of_files() {
    let ran = |success, out: &[u8], err: &[u8]| {
        video_codec(ProbeRun::Ran { success, stdout: out.to_vec(), stderr: err.to_vec() })
    };
    assert_eq!(ran(true, b"png\nvp9\n", b"").unwrap(), Some("vp9".to_string()));
    assert_eq!(ran(true, b"\n", b"noise").unwrap(), None);
    assert_eq!(ran(true, b"x\xff\n", b"").unwrap(), Some("x\u{fffd}".to_string()));
    let e = ran(false, b"h264\n", b"  bad file\xff \n").unwrap_err();
    assert_eq!(e.message(), "bad file\u{fffd}");
    let e = video_codec(ProbeRun::NotRun).unwrap_err();
    assert!(matches!(e, ProbeError::NotRun));
    assert_eq!(e.message(), "failed to run ffprobe");
}

#[test]
fn command_for_svt() {
    let args = words(encode(
        &FilePath::from_text("/v/a.mkv"),
        &FilePath::from_text("/v/a.webm"),
        &options(Av1Encoder::SvtAv1),
    ));
    let expected = "-hide_banner -loglevel warning -nostats -y -i </v/a.mkv> -map 0:v:0 -map 0:a? \
        -sn -dn -map_chapters -1 -pix_fmt yuv420p10le -c:v libsvtav1 -crf 32 -preset 6 \
        -svtav1-params tune=0 -c:a libopus -b:a 128k </v/a.webm>";
    assert_eq!(args.join(" "), expected);
}

#[test]
fn command_for_aom() {
    let mut o = options(Av1Encoder::Aom);
    o.bit_depth = 8;
    o.preset = -1;
    let args = words(encode(&FilePath::from_text("a"), &FilePath::from_text("b"), &o)).join(" ");
    assert!(args.contains(" -pix_fmt yuv420p -c:v libaom-av1 -crf 32 -b:v 0 -cpu-used -1 "));
    assert!(args.ends_with(" -row-mt 1 -tiles 2x2 -c:a libopus -b:a 128k <b>"));
}

#[test]
fn command_for_rav1e() {
    for (crf, qp) in [(0, 0), (32, 128), (63, 252), (64, 255), (255, 255)] {
        let mut o = options(Av1Encoder::Rav1e);
        o.crf = crf;
        let args = words(encode(&FilePath::from_text("a"), &FilePath::from_text("b"), &o)).join(" ");
        let part = format!(" -c:v librav1e -qp {qp} -rav1e-params speed=6 -c:a libopus ");
        assert!(args.contains(&part), "{args}");
    }
}

#[test]
fn every_command_takes_one_video_and_all_audio() {
    for e in [Av1Encoder::SvtAv1, Av1Encoder::Aom, Av1Encoder::Rav1e] {
        let args = words(encode(&FilePath::from_text("a"), &FilePath::from_text("b"), &options(e)));
        let maps: Vec<&String> =
            args.iter().zip(args.iter().skip(1)).filter(|(a, _)| *a == "-map").map(|(_, b)| b).collect();
        assert_eq!(maps, ["0:v:0", "0:a?"]);
        assert_eq!(args.iter().filter(|a| *a == "-i").count(), 1);
        assert_eq!(args.last().unwrap(), "<b>");
    }
}

#[test]
fn other_commands() {
    assert_eq!(
        words(probe(&FilePath::from_text("/v/a.mkv"))).join(" "),
        "-v error -select_streams v -show_entries stream=codec_name -of csv=p=0 </v/a.mkv>"
    );
    assert_eq!(words(list_encoders()), ["-hide_banner", "-encoders"]);
}

#[test]
fn running_encoders() {
    assert!(matches!(encode_step(false, Child::Running), EncodeStep::Sleep(200)));
    let interrupted = |step| {
        matches!(step, EncodeStep::Stop { result: Ok(EncodeResult::Interrupted) })
    };
    assert!(interrupted(encode_step(true, Child::Running)));
    assert!(interrupted(encode_step(true, Child::Lost)));
    let ended = Child::Exited { success: true, status: "exit status: 0".to_string() };
    assert!(interrupted(encode_step(true, ended)));
    let ended = Child::Exited { success: true, status: "exit status: 0".to_string() };
    assert!(matches!(
        encode_step(false, ended),
        EncodeStep::End { remove_output: false, result: Ok(EncodeResult::Finished) }
    ));
    assert!(matches!(
        encode_step(false, Child::Lost),
        EncodeStep::End { remove_output: false, result: Err(EncodeError::Wait) }
    ));
    match encode_step(false, Child::Exited { success: false, status: "exit status: 1".to_string() }) {
        EncodeStep::End { remove_output: true, result: Err(e) } => {
            assert_eq!(e.message(), "ffmpeg exited with exit status: 1");
        }
        other => panic!("{other:?}"),
    }
    assert_eq!(EncodeError::Spawn.message(), "failed to spawn ffmpeg");
    assert_eq!(EncodeError::Wait.message(), "waiting on ffmpeg");
}
