use greyer::color::{correct_rgb_hex, Rgb};
use greyer::correction::{get_correction, Config, ConfigError};
use greyer::cue::{ffmpeg_timestamp, timestamp_millis, Cue, Timestamp};
use greyer::pipeline::{prepend_watermark, process_cue, renumber, PipelineError};
use greyer::rewrite::{add_color_to_sub, recolor_text, replace_existing_sub_colors, rewrite_cue_text, wrap_text};
use greyer::sampler::{
    is_blank, parse_brightness, read_brightness_text, read_full_decode_output, read_keyframe_output,
    read_yavg_capture, resolve_sample, sample_outcome, sampler_args, sampler_program, FailurePolicy, SampleError, SamplingStrategy,
};

const GREY: Rgb = Rgb { r: 127, g: 127, b: 127 };

fn config(midpoint: u32, coefficient: u32) -> Config {
    Config::new(midpoint, coefficient, GREY).unwrap()
}

fn stamp(h: u8, m: u8, s: u8, ms: u16) -> Timestamp {
    Timestamp { hours: h, minutes: m, seconds: s, milliseconds: ms }
}

fn cue(num: usize, text: &str) -> Cue {
    Cue { num, start: stamp(0, 0, num as u8, 0), end: stamp(0, 0, num as u8, 500), text: text.to_string() }
}

#[test]
fn timestamp_to_millis() {
    assert_eq!(timestamp_millis((1, 2, 3, 500)), 3_723_500);
    assert_eq!(timestamp_millis((0, 0, 0, 0)), 0);
    assert_eq!(timestamp_millis((255, 255, 255, 65535)), 255 * 3_600_000 + 255 * 60_000 + 255_000 + 65_535);
}

#[test]
fn timestamp_to_seconds_text() {
    assert_eq!(ffmpeg_timestamp((1, 2, 3, 500)), "3723.500");
    assert_eq!(ffmpeg_timestamp((0, 0, 0, 0)), "0.000");
    assert_eq!(ffmpeg_timestamp((0, 0, 12, 7)), "12.007");
    assert_eq!(ffmpeg_timestamp((0, 0, 0, 1999)), "1.999");
    assert_eq!(stamp(1, 2, 3, 500).get(), (1, 2, 3, 500));
}

#[test]
fn tag_free_cue_gets_corrected_default() {
    assert_eq!(rewrite_cue_text("hello", 37, GREY), "<font color=\"#a4a4a4\">hello</font>");
    assert_eq!(wrap_text("", 0, GREY), "<font color=\"#7f7f7f\"></font>");
}

#[test]
fn existing_black_tag_clamps_at_zero() {
    let text = "<font color=\"#000000\">hi</font>";
    assert_eq!(rewrite_cue_text(text, -50, GREY), text);
}

#[test]
fn multiple_tags_each_corrected_in_order() {
    let text = "<font color=\"#102030\">a</font> b <font color=\"#FFffFF\">c</font> <font color=\"#0a0B0c\">d</font>";
    let out = rewrite_cue_text(text, 16, GREY);
    assert_eq!(
        out,
        "<font color=\"#203040\">a</font> b <font color=\"#ffffff\">c</font> <font color=\"#1a1b1c\">d</font>"
    );
    assert_eq!(out.matches("<font").count(), 3);
}

#[test]
fn adjacent_and_partial_colors() {
    assert_eq!(
        recolor_text("<font color=\"#000000\"><font color=\"#fefefe\">x</font></font>", 1),
        "<font color=\"#010101\"><font color=\"#ffffff\">x</font></font>"
    );
    assert_eq!(
        recolor_text("<font color=\"#12345\"> <font color=\"#123456\">7", 1),
        "<font color=\"#12345\"> <font color=\"#133557\">7"
    );
    assert_eq!(recolor_text("no colors", 5), "no colors");
    assert_eq!(recolor_text("", 5), "");
    assert_eq!(rewrite_cue_text("#12345g", 0, GREY), "<font color=\"#7f7f7f\">#12345g</font>");
}

#[test]
fn plain_text_hex_is_not_a_tag() {
    assert_eq!(
        rewrite_cue_text("<font color=\"#000000\">see #101010</font>", 5, GREY),
        "<font color=\"#050505\">see #101010</font>"
    );
    assert_eq!(rewrite_cue_text("Call #facade", 10, GREY), "<font color=\"#898989\">Call #facade</font>");
    assert_eq!(
        rewrite_cue_text("<font face=\"x\" color=\"#101010\">a</font>", 10, GREY),
        "<font color=\"#898989\"><font face=\"x\" color=\"#101010\">a</font></font>"
    );
    assert_eq!(
        rewrite_cue_text("<FONT COLOR=\"#101010\">a</FONT>", 0, GREY),
        "<font color=\"#7f7f7f\"><FONT COLOR=\"#101010\">a</FONT></font>"
    );
    let mut a = cue(9, "#000000 <font color=\"#ABCDEF\">x</font>");
    replace_existing_sub_colors(&mut a, -1);
    assert_eq!(a.text, "#000000 <font color=\"#aaccee\">x</font>");
}

#[test]
fn rewriting_twice_is_not_idempotent() {
    let once = rewrite_cue_text("hello", 37, GREY);
    let twice = rewrite_cue_text(&once, 37, GREY);
    assert_ne!(once, twice);
    assert_eq!(twice, "<font color=\"#c9c9c9\">hello</font>");
    let tagged = "<font color=\"#101010\">x</font>";
    let t1 = rewrite_cue_text(tagged, -5, GREY);
    let t2 = rewrite_cue_text(&t1, -5, GREY);
    assert_eq!(t1, "<font color=\"#0b0b0b\">x</font>");
    assert_eq!(t2, "<font color=\"#060606\">x</font>");
}

#[test]
fn end_to_end_correction_and_tag() {
    let c = config(127_000, 500);
    let correction = get_correction(200_000, &c);
    assert_eq!(correction, 37);
    assert_eq!(rewrite_cue_text("line", correction, c.default_color), "<font color=\"#a4a4a4\">line</font>");
}

#[test]
fn correction_rounding_and_extremes() {
    assert_eq!(get_correction(54_000, &config(127_000, 500)), -37);
    assert_eq!(get_correction(200_000, &config(127_000, 0)), 0);
    assert_eq!(get_correction(200_000, &config(127_000, 1000)), 73);
    assert_eq!(get_correction(255_000, &config(127_000, 250)), 32);
    assert_eq!(get_correction(0, &config(127_000, 250)), -32);
    assert_eq!(get_correction(127_000, &config(127_000, 250)), 0);
    assert_eq!(get_correction(128_999, &config(127_000, 250)), 0);
    assert_eq!(get_correction(129_000, &config(127_000, 250)), 1);
}

#[test]
fn correction_monotonic_and_clamped_channels() {
    let c = config(127_000, 730);
    let mut prev = i32::MIN;
    let mut b: u32 = 0;
    while b <= 255_000 {
        let d = get_correction(b, &c);
        assert!(d >= prev);
        prev = d;
        for v in [0u8, 1, 127, 254, 255] {
            let hex = format!("#{:02x}{:02x}{:02x}", v, v, v);
            let out = correct_rgb_hex(&hex, d);
            assert_eq!(out.len(), 7);
            let clamped = (v as i32 + d).clamp(0, 255);
            assert_eq!(out, format!("#{:02x}{:02x}{:02x}", clamped, clamped, clamped));
        }
        b += 1_250;
    }
}

#[test]
fn config_validation() {
    assert_eq!(Config::new(127_000, 1001, GREY), Err(ConfigError::CoefficientOutOfRange));
    assert_eq!(Config::new(255_001, 500, GREY), Err(ConfigError::MidpointOutOfRange));
    assert_eq!(
        Config::new(127_000, 1000, GREY),
        Ok(Config { midpoint: 127_000, coefficient: 1000, default_color: GREY })
    );
    let s = Config::standard();
    assert_eq!((s.midpoint, s.coefficient, s.default_color), (127_000, 250, GREY));
}

#[test]
fn hex_color_correction() {
    assert_eq!(correct_rgb_hex("#7f7f7f", 37), "#a4a4a4");
    assert_eq!(correct_rgb_hex("#ABCDEF", 0), "#abcdef");
    assert_eq!(correct_rgb_hex("#f0f0f0", 100), "#ffffff");
    assert_eq!(correct_rgb_hex("#102030", -20), "#000c1c");
    assert_eq!(Rgb { r: 0, g: 15, b: 255 }.to_hex(), "#000fff");
}

#[test]
fn brightness_text_parsing() {
    assert_eq!(parse_brightness("200\n"), Some(200_000));
    assert_eq!(parse_brightness("87.25"), Some(87_250));
    assert_eq!(parse_brightness("87.2567 \r\n"), Some(87_256));
    assert_eq!(parse_brightness("0.5"), Some(500));
    assert_eq!(parse_brightness("255"), Some(255_000));
    assert_eq!(parse_brightness("0255.000"), Some(255_000));
    assert_eq!(parse_brightness("255.5"), None);
    assert_eq!(parse_brightness("100000"), None);
    assert_eq!(parse_brightness("abc"), None);
    assert_eq!(parse_brightness(" 5"), None);
    assert_eq!(parse_brightness("5.5.5"), None);
    assert_eq!(parse_brightness(""), None);
    assert!(is_blank(" \n"));
}

#[test]
fn brightness_float_token_forms() {
    assert_eq!(parse_brightness(".5"), Some(500));
    assert_eq!(parse_brightness("5."), Some(5_000));
    assert_eq!(parse_brightness("+5"), Some(5_000));
    assert_eq!(parse_brightness("1e2\n"), Some(100_000));
    assert_eq!(parse_brightness("1E+2"), Some(100_000));
    assert_eq!(parse_brightness("2.55e2"), Some(255_000));
    assert_eq!(parse_brightness("2.551e2"), None);
    assert_eq!(parse_brightness("1.2e-07"), Some(0));
    assert_eq!(parse_brightness("12345e-3"), Some(12_345));
    assert_eq!(parse_brightness("1234567e-7"), Some(123));
    assert_eq!(parse_brightness("0.0001"), Some(0));
    assert_eq!(parse_brightness("000e999999999999999999999999"), Some(0));
    assert_eq!(parse_brightness("1e999999999999999999999999"), None);
    assert_eq!(parse_brightness("5e-999999999999999999999999"), Some(0));
    assert_eq!(parse_brightness("."), None);
    assert_eq!(parse_brightness("+"), None);
    assert_eq!(parse_brightness("e5"), None);
    assert_eq!(parse_brightness("1e"), None);
    assert_eq!(parse_brightness("1e+"), None);
    assert_eq!(parse_brightness("1e2.5"), None);
    assert_eq!(parse_brightness("-5"), None);
    assert_eq!(parse_brightness("++5"), None);
    assert_eq!(read_keyframe_output("1e2\n"), Ok(100_000));
    assert!(!is_blank(" x "));
}

#[test]
fn keyframe_output_reading() {
    assert_eq!(read_keyframe_output("131.2\n"), Ok(131_200));
    assert_eq!(read_keyframe_output(""), Err(SampleError::NoFrameError));
    assert_eq!(read_keyframe_output("\n"), Err(SampleError::NoFrameError));
    assert_eq!(read_keyframe_output("N/A\n"), Err(SampleError::ParseError));
    assert_eq!(read_brightness_text("300"), Err(SampleError::ParseError));
}

#[test]
fn full_decode_output_reading() {
    let log = "frame=    1 fps=0.0\n[Parsed_metadata_1 @ 0x55] frame:0    pts:0\n[Parsed_metadata_1 @ 0x55] lavfi.signalstats.YAVG=123.456\n[Parsed_metadata_1 @ 0x55] lavfi.signalstats.YAVG=99.5\n";
    assert_eq!(read_full_decode_output(log), Ok(123_456));
    assert_eq!(read_full_decode_output("nothing decoded\n"), Err(SampleError::NoFrameError));
    assert_eq!(read_full_decode_output("lavfi.signalstats.YAVG=300.0"), Err(SampleError::ParseError));
    assert_eq!(read_yavg_capture(Some("12.5")), Ok(12_500));
    assert_eq!(read_yavg_capture(None), Err(SampleError::NoFrameError));
}

#[test]
fn sample_outcomes_by_process_state() {
    let k = SamplingStrategy::NearestKeyframe;
    let f = SamplingStrategy::FullDecode;
    assert_eq!(sample_outcome(k, false, false, "", ""), Err(SampleError::ProcessSpawnError));
    assert_eq!(sample_outcome(f, true, false, "", ""), Err(SampleError::ProcessExitError));
    assert_eq!(sample_outcome(k, true, true, "64\n", "lavfi.signalstats.YAVG=1.0"), Ok(64_000));
    assert_eq!(sample_outcome(f, true, true, "64\n", "lavfi.signalstats.YAVG=1.0"), Ok(1_000));
}

#[test]
fn failure_policies() {
    let c = config(127_000, 250);
    assert_eq!(resolve_sample(FailurePolicy::FailFast, Ok(5), &c), Ok(5));
    assert_eq!(resolve_sample(FailurePolicy::SubstituteDefault, Ok(5), &c), Ok(5));
    assert_eq!(
        resolve_sample(FailurePolicy::FailFast, Err(SampleError::ParseError), &c),
        Err(SampleError::ParseError)
    );
    assert_eq!(resolve_sample(FailurePolicy::SubstituteDefault, Err(SampleError::NoFrameError), &c), Ok(127_000));
}

#[test]
fn process_cue_steps() {
    let c = config(127_000, 500);
    let mut a = cue(3, "hi");
    assert_eq!(process_cue(&mut a, Err(SampleError::ProcessExitError), FailurePolicy::FailFast, &c), Err(SampleError::ProcessExitError));
    assert_eq!(a.text, "hi");
    assert_eq!(process_cue(&mut a, Err(SampleError::ProcessExitError), FailurePolicy::SubstituteDefault, &c), Ok(0));
    assert_eq!(a.text, "<font color=\"#7f7f7f\">hi</font>");
    let mut b = cue(4, "<font color=\"#000000\">hi</font>");
    assert_eq!(process_cue(&mut b, Ok(200_000), FailurePolicy::FailFast, &c), Ok(37));
    assert_eq!(b.text, "<font color=\"#252525\">hi</font>");
    assert_eq!(b.num, 4);
}

#[test]
fn cue_level_rewrites() {
    let mut a = cue(1, "x <font color=\"#010203\">y</font>");
    replace_existing_sub_colors(&mut a, 2);
    assert_eq!(a.text, "x <font color=\"#030405\">y</font>");
    let mut b = cue(2, "plain");
    add_color_to_sub(&mut b, -27, GREY);
    assert_eq!(b.text, "<font color=\"#646464\">plain</font>");
    assert_eq!(b.num, 2);
}

#[test]
fn watermark_prepended_and_renumbered() {
    let mut empty: Vec<Cue> = Vec::new();
    assert_eq!(prepend_watermark(&mut empty, "mark".to_string()), Err(PipelineError::NoCues));
    assert!(empty.is_empty());
    let mut cues = vec![cue(1, "a"), cue(2, "b"), cue(7, "c")];
    assert_eq!(prepend_watermark(&mut cues, "mark".to_string()), Ok(()));
    assert_eq!(cues.len(), 4);
    assert_eq!(cues[0].text, "mark");
    assert_eq!(cues[0].start, stamp(0, 0, 0, 0));
    assert_eq!(cues[0].end, stamp(0, 0, 1, 0));
    let nums: Vec<usize> = cues.iter().map(|c| c.num).collect();
    assert_eq!(nums, vec![1, 2, 3, 4]);
    let texts: Vec<&str> = cues.iter().map(|c| c.text.as_str()).collect();
    assert_eq!(texts, vec!["mark", "a", "b", "c"]);
    assert_eq!(cues[3].start, stamp(0, 0, 7, 0));
}

#[test]
fn renumber_from_one() {
    let mut cues = vec![cue(5, "a"), cue(5, "b")];
    renumber(&mut cues);
    assert_eq!((cues[0].num, cues[1].num), (1, 2));
    assert_eq!(cues[1].text, "b");
}

#[test]
fn decoder_invocations() {
    assert_eq!(sampler_program(SamplingStrategy::NearestKeyframe), "ffprobe");
    assert_eq!(sampler_program(SamplingStrategy::FullDecode), "ffmpeg");
    assert_eq!(
        sampler_args(SamplingStrategy::NearestKeyframe, "3723.500", "in.mkv"),
        vec![
            "-v",
            "quiet",
            "-hide_banner",
            "-f",
            "lavfi",
            "movie=in.mkv:seek_point=3723.500,signalstats,trim=end_frame=1",
            "-show_entries",
            "frame_tags=lavfi.signalstats.YAVG",
            "-of",
            "default=noprint_wrappers=1:nokey=1",
        ]
    );
    assert_eq!(
        sampler_args(SamplingStrategy::FullDecode, "12.007", "in.mkv"),
        vec![
            "-y",
            "-hide_banner",
            "-accurate_seek",
            "-ss",
            "12.007",
            "-i",
            "in.mkv",
            "-filter_complex",
            "signalstats,metadata=print:key=lavfi.signalstats.YAVG,trim=end_frame=0",
            "-an",
            "-f",
            "null",
            "-",
        ]
    );
}
