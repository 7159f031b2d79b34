use caving::player::{c_path, decimal_text, file_argument, status_text, DecodePass, FrameCounter, Mode};

#[test]
fn file_is_the_first_argument() {
    let args = vec!["caving".to_string(), "movie.mkv".to_string(), "extra".to_string()];
    assert_eq!(file_argument(&args), Some("movie.mkv".to_string()));
    assert_eq!(file_argument(&vec!["caving".to_string()]), None);
    assert_eq!(file_argument(&vec![]), None);
}

#[test]
fn decimal_numbers() {
    assert_eq!(decimal_text(0), "0");
    assert_eq!(decimal_text(7), "7");
    assert_eq!(decimal_text(10), "10");
    assert_eq!(decimal_text(60), "60");
    assert_eq!(decimal_text(1234567), "1234567");
    assert_eq!(decimal_text(u32::MAX), "4294967295");
    for n in (0..100_000u32).step_by(997) {
        assert_eq!(decimal_text(n), n.to_string());
        assert_eq!(decimal_text(n).parse::<u32>().unwrap(), n);
    }
}

#[test]
fn status_lines() {
    assert_eq!(
        status_text("0.1.0", 60, Mode::Playing),
        "Caving 0.1.0 - FPS: 60\nDecoding-Playing…"
    );
    assert_eq!(status_text("2.3.4", 0, Mode::Finished), "Caving 2.3.4 - FPS: 0\nFinished!");
}

#[test]
fn modes() {
    assert!(Mode::Playing.decodes());
    assert!(!Mode::Finished.decodes());
    assert_eq!(Mode::Playing.after_frame(false), Mode::Playing);
    assert_eq!(Mode::Playing.after_frame(true), Mode::Finished);
    assert_eq!(Mode::Finished.after_frame(false), Mode::Finished);
    assert_eq!(Mode::Finished.after_frame(true), Mode::Finished);
    assert_eq!(Mode::Playing.note(), "Decoding-Playing…");
    assert_eq!(Mode::Finished.note(), "Finished!");
}

#[test]
fn decode_pass_waits_for_a_frame() {
    let mut pass = DecodePass::new();
    assert!(pass.waiting && !pass.ended);
    assert!(pass.step(false, false));
    assert!(pass.step(true, false));
    assert!(pass.ended);
    assert!(!pass.step(false, true));
    assert!(pass.ended);
    assert!(!pass.waiting);
}

#[test]
fn decode_pass_stops_after_the_first_frame() {
    let mut pass = DecodePass::new();
    assert!(!pass.step(false, true));
    assert!(!pass.ended);
}

#[test]
fn frame_counter_reports_each_second() {
    let mut counter = FrameCounter::new();
    for _ in 0..59 {
        assert_eq!(counter.tick(false), None);
    }
    assert_eq!(counter.tick(true), Some(60));
    assert_eq!(counter.frames, 0);
    assert_eq!(counter.tick(true), Some(1));
    assert_eq!(counter.tick(false), None);
    assert_eq!(counter.frames, 1);
}

#[test]
fn c_paths() {
    assert_eq!(c_path("movie.mkv"), Some(b"movie.mkv\0".to_vec()));
    assert_eq!(c_path(""), Some(vec![0]));
    assert_eq!(c_path("bad\0name"), None);
    assert_eq!(c_path("\0"), None);
    assert_eq!(c_path("é.ogv"), Some("é.ogv\0".as_bytes().to_vec()));
}

#[test]
fn frame_bookkeeping_writes_the_status_each_second() {
    let mut counter = FrameCounter::new();
    let mut info = String::new();
    for _ in 0..29 {
        assert!(!counter.count_frame(false, "0.1.0", Mode::Playing, &mut info));
        assert_eq!(info, "");
    }
    assert!(counter.count_frame(true, "0.1.0", Mode::Playing, &mut info));
    assert_eq!(info, "Caving 0.1.0 - FPS: 30\nDecoding-Playing…");
    assert_eq!(counter.frames, 0);
    assert!(!counter.count_frame(false, "0.1.0", Mode::Finished, &mut info));
    assert_eq!(info, "Caving 0.1.0 - FPS: 30\nDecoding-Playing…");
    assert!(counter.count_frame(true, "0.1.0", Mode::Finished, &mut info));
    assert_eq!(info, "Caving 0.1.0 - FPS: 2\nFinished!");
}

#[test]
fn both_modes_keep_the_same_counts() {
    let mut playing = FrameCounter { frames: 41 };
    let mut finished = FrameCounter { frames: 41 };
    let mut a = "old".to_string();
    let mut b = "old".to_string();
    playing.count_frame(true, "1.0", Mode::Playing, &mut a);
    finished.count_frame(true, "1.0", Mode::Finished, &mut b);
    assert_eq!(playing.frames, finished.frames);
    let (head_a, note_a) = a.split_once('\n').unwrap();
    let (head_b, note_b) = b.split_once('\n').unwrap();
    assert_eq!(head_a, head_b);
    assert_eq!(head_a, "Caving 1.0 - FPS: 42");
    assert_eq!((note_a, note_b), ("Decoding-Playing…", "Finished!"));
}
