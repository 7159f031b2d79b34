use caving::media::{PixelFormat, SampleFormat};

#[test]
fn pixel_format_codes() {
    assert_eq!(PixelFormat::from_code(-1), Some(PixelFormat::Unknown));
    assert_eq!(PixelFormat::from_code(0), Some(PixelFormat::Yuv420p));
    assert_eq!(PixelFormat::from_code(12), Some(PixelFormat::Yuvj420p));
    assert_eq!(PixelFormat::from_code(26), Some(PixelFormat::Rgba));
    assert_eq!(PixelFormat::from_code(43), Some(PixelFormat::Bgr555le));
    assert_eq!(PixelFormat::from_code(44), None);
    assert_eq!(PixelFormat::from_code(-2), None);
    assert_eq!(PixelFormat::Bgra.code(), 28);
    assert_eq!(format!("{:?}", PixelFormat::Yuv420p), "Yuv420p");
}

#[test]
fn pixel_format_codes_round_trip() {
    for c in -5..60 {
        match PixelFormat::from_code(c) {
            Some(f) => assert_eq!(f.code(), c),
            None => assert!(c < -1 || c > 43),
        }
    }
}

#[test]
fn sample_format_codes_round_trip() {
    for c in -5..20 {
        match SampleFormat::from_code(c) {
            Some(f) => assert_eq!(f.code(), c),
            None => assert!(c < -1 || c > 10),
        }
    }
    assert_eq!(SampleFormat::from_code(0), Some(SampleFormat::U8));
    assert_eq!(SampleFormat::from_code(10), Some(SampleFormat::Nb));
}

#[test]
fn sample_format_names() {
    let expected = [
        (-1, "ERROR: None"),
        (0, "u8"),
        (1, "s16"),
        (2, "s32"),
        (3, "f32"),
        (4, "f64"),
        (5, "u8p"),
        (6, "s16p"),
        (7, "s32p"),
        (8, "f32p"),
        (9, "f64p"),
        (10, "ERROR: Nb"),
    ];
    for (code, name) in expected {
        assert_eq!(SampleFormat::from_code(code).unwrap().name(), name);
    }
}
