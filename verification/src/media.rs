//! The pixel and sample formats that the decoder reports, read from the
//! numbers of its interface.
use vstd::prelude::*;

verus! {

/// Layout of the decoded video frames.  `Unknown` is the decoder's
/// "no format" value.
#[derive(Clone, Copy, Debug, PartialEq, Eq, Structural)]
pub enum PixelFormat {
    Unknown,
    Yuv420p,
    Yuyv422,
    Rgb24,
    Bgr24,
    Yuv422p,
    Yuv444p,
    Yuv410p,
    Yuv411p,
    Gray8,
    Monowhite,
    Monoblack,
    Pal8,
    Yuvj420p,
    Yuvj422p,
    Yuvj444p,
    Uyvy422,
    Uyyvyy411,
    Bgr8,
    Bgr4,
    Bgr4Byte,
    Rgb8,
    Rgb4,
    Rgb4Byte,
    Nv12,
    Nv21,
    Argb,
    Rgba,
    Abgr,
    Bgra,
    Gray16be,
    Gray16le,
    Yuv440p,
    Yuvj440p,
    Yuva420p,
    Rgb48be,
    Rgb48le,
    Rgb565be,
    Rgb565le,
    Rgb555be,
    Rgb555le,
    Bgr565be,
    Bgr565le,
    Bgr555be,
    Bgr555le,
}

impl PixelFormat {
    /// The pixel format's number in the decoder's interface.
    pub open spec fn spec_code(self) -> int {
        match self {
            PixelFormat::Unknown => -1,
            PixelFormat::Yuv420p => 0,
            PixelFormat::Yuyv422 => 1,
            PixelFormat::Rgb24 => 2,
            PixelFormat::Bgr24 => 3,
            PixelFormat::Yuv422p => 4,
            PixelFormat::Yuv444p => 5,
            PixelFormat::Yuv410p => 6,
            PixelFormat::Yuv411p => 7,
            PixelFormat::Gray8 => 8,
            PixelFormat::Monowhite => 9,
            PixelFormat::Monoblack => 10,
            PixelFormat::Pal8 => 11,
            PixelFormat::Yuvj420p => 12,
            PixelFormat::Yuvj422p => 13,
            PixelFormat::Yuvj444p => 14,
            PixelFormat::Uyvy422 => 15,
            PixelFormat::Uyyvyy411 => 16,
            PixelFormat::Bgr8 => 17,
            PixelFormat::Bgr4 => 18,
            PixelFormat::Bgr4Byte => 19,
            PixelFormat::Rgb8 => 20,
            PixelFormat::Rgb4 => 21,
            PixelFormat::Rgb4Byte => 22,
            PixelFormat::Nv12 => 23,
            PixelFormat::Nv21 => 24,
            PixelFormat::Argb => 25,
            PixelFormat::Rgba => 26,
            PixelFormat::Abgr => 27,
            PixelFormat::Bgra => 28,
            PixelFormat::Gray16be => 29,
            PixelFormat::Gray16le => 30,
            PixelFormat::Yuv440p => 31,
            PixelFormat::Yuvj440p => 32,
            PixelFormat::Yuva420p => 33,
            PixelFormat::Rgb48be => 34,
            PixelFormat::Rgb48le => 35,
            PixelFormat::Rgb565be => 36,
            PixelFormat::Rgb565le => 37,
            PixelFormat::Rgb555be => 38,
            PixelFormat::Rgb555le => 39,
            PixelFormat::Bgr565be => 40,
            PixelFormat::Bgr565le => 41,
            PixelFormat::Bgr555be => 42,
            PixelFormat::Bgr555le => 43,
        }
    }

    /// The pixel format numbered `c` in the decoder's interface, if there is one.
    pub open spec fn spec_from_code(c: int) -> Option<PixelFormat> {
        if c == -1 {
            Some(PixelFormat::Unknown)
        } else if c == 0 {
            Some(PixelFormat::Yuv420p)
        } else if c == 1 {
            Some(PixelFormat::Yuyv422)
        } else if c == 2 {
            Some(PixelFormat::Rgb24)
        } else if c == 3 {
            Some(PixelFormat::Bgr24)
        } else if c == 4 {
            Some(PixelFormat::Yuv422p)
        } else if c == 5 {
            Some(PixelFormat::Yuv444p)
        } else if c == 6 {
            Some(PixelFormat::Yuv410p)
        } else if c == 7 {
            Some(PixelFormat::Yuv411p)
        } else if c == 8 {
            Some(PixelFormat::Gray8)
        } else if c == 9 {
            Some(PixelFormat::Monowhite)
        } else if c == 10 {
            Some(PixelFormat::Monoblack)
        } else if c == 11 {
            Some(PixelFormat::Pal8)
        } else if c == 12 {
            Some(PixelFormat::Yuvj420p)
        } else if c == 13 {
            Some(PixelFormat::Yuvj422p)
        } else if c == 14 {
            Some(PixelFormat::Yuvj444p)
        } else if c == 15 {
            Some(PixelFormat::Uyvy422)
        } else if c == 16 {
            Some(PixelFormat::Uyyvyy411)
        } else if c == 17 {
            Some(PixelFormat::Bgr8)
        } else if c == 18 {
            Some(PixelFormat::Bgr4)
        } else if c == 19 {
            Some(PixelFormat::Bgr4Byte)
        } else if c == 20 {
            Some(PixelFormat::Rgb8)
        } else if c == 21 {
            Some(PixelFormat::Rgb4)
        } else if c == 22 {
            Some(PixelFormat::Rgb4Byte)
        } else if c == 23 {
            Some(PixelFormat::Nv12)
        } else if c == 24 {
            Some(PixelFormat::Nv21)
        } else if c == 25 {
            Some(PixelFormat::Argb)
        } else if c == 26 {
            Some(PixelFormat::Rgba)
        } else if c == 27 {
            Some(PixelFormat::Abgr)
        } else if c == 28 {
            Some(PixelFormat::Bgra)
        } else if c == 29 {
            Some(PixelFormat::Gray16be)
        } else if c == 30 {
            Some(PixelFormat::Gray16le)
        } else if c == 31 {
            Some(PixelFormat::Yuv440p)
        } else if c == 32 {
            Some(PixelFormat::Yuvj440p)
        } else if c == 33 {
            Some(PixelFormat::Yuva420p)
        } else if c == 34 {
            Some(PixelFormat::Rgb48be)
        } else if c == 35 {
            Some(PixelFormat::Rgb48le)
        } else if c == 36 {
            Some(PixelFormat::Rgb565be)
        } else if c == 37 {
            Some(PixelFormat::Rgb565le)
        } else if c == 38 {
            Some(PixelFormat::Rgb555be)
        } else if c == 39 {
            Some(PixelFormat::Rgb555le)
        } else if c == 40 {
            Some(PixelFormat::Bgr565be)
        } else if c == 41 {
            Some(PixelFormat::Bgr565le)
        } else if c == 42 {
            Some(PixelFormat::Bgr555be)
        } else if c == 43 {
            Some(PixelFormat::Bgr555le)
        } else {
            None
        }
    }

    /// The pixel format's number in the decoder's interface.
    pub fn code(&self) -> (c: i32)
        ensures
            c as int == self.spec_code(),
    {
        match self {
            PixelFormat::Unknown => -1,
            PixelFormat::Yuv420p => 0,
            PixelFormat::Yuyv422 => 1,
            PixelFormat::Rgb24 => 2,
            PixelFormat::Bgr24 => 3,
            PixelFormat::Yuv422p => 4,
            PixelFormat::Yuv444p => 5,
            PixelFormat::Yuv410p => 6,
            PixelFormat::Yuv411p => 7,
            PixelFormat::Gray8 => 8,
            PixelFormat::Monowhite => 9,
            PixelFormat::Monoblack => 10,
            PixelFormat::Pal8 => 11,
            PixelFormat::Yuvj420p => 12,
            PixelFormat::Yuvj422p => 13,
            PixelFormat::Yuvj444p => 14,
            PixelFormat::Uyvy422 => 15,
            PixelFormat::Uyyvyy411 => 16,
            PixelFormat::Bgr8 => 17,
            PixelFormat::Bgr4 => 18,
            PixelFormat::Bgr4Byte => 19,
            PixelFormat::Rgb8 => 20,
            PixelFormat::Rgb4 => 21,
            PixelFormat::Rgb4Byte => 22,
            PixelFormat::Nv12 => 23,
            PixelFormat::Nv21 => 24,
            PixelFormat::Argb => 25,
            PixelFormat::Rgba => 26,
            PixelFormat::Abgr => 27,
            PixelFormat::Bgra => 28,
            PixelFormat::Gray16be => 29,
            PixelFormat::Gray16le => 30,
            PixelFormat::Yuv440p => 31,
            PixelFormat::Yuvj440p => 32,
            PixelFormat::Yuva420p => 33,
            PixelFormat::Rgb48be => 34,
            PixelFormat::Rgb48le => 35,
            PixelFormat::Rgb565be => 36,
            PixelFormat::Rgb565le => 37,
            PixelFormat::Rgb555be => 38,
            PixelFormat::Rgb555le => 39,
            PixelFormat::Bgr565be => 40,
            PixelFormat::Bgr565le => 41,
            PixelFormat::Bgr555be => 42,
            PixelFormat::Bgr555le => 43,
        }
    }

    /// Reads the number that the decoder reports as a pixel format: `None` for
    /// a number that names none.
    pub fn from_code(c: i32) -> (f: Option<PixelFormat>)
        ensures
            f == Self::spec_from_code(c as int),
    {
        match c {
            -1 => Some(PixelFormat::Unknown),
            0 => Some(PixelFormat::Yuv420p),
            1 => Some(PixelFormat::Yuyv422),
            2 => Some(PixelFormat::Rgb24),
            3 => Some(PixelFormat::Bgr24),
            4 => Some(PixelFormat::Yuv422p),
            5 => Some(PixelFormat::Yuv444p),
            6 => Some(PixelFormat::Yuv410p),
            7 => Some(PixelFormat::Yuv411p),
            8 => Some(PixelFormat::Gray8),
            9 => Some(PixelFormat::Monowhite),
            10 => Some(PixelFormat::Monoblack),
            11 => Some(PixelFormat::Pal8),
            12 => Some(PixelFormat::Yuvj420p),
            13 => Some(PixelFormat::Yuvj422p),
            14 => Some(PixelFormat::Yuvj444p),
            15 => Some(PixelFormat::Uyvy422),
            16 => Some(PixelFormat::Uyyvyy411),
            17 => Some(PixelFormat::Bgr8),
            18 => Some(PixelFormat::Bgr4),
            19 => Some(PixelFormat::Bgr4Byte),
            20 => Some(PixelFormat::Rgb8),
            21 => Some(PixelFormat::Rgb4),
            22 => Some(PixelFormat::Rgb4Byte),
            23 => Some(PixelFormat::Nv12),
            24 => Some(PixelFormat::Nv21),
            25 => Some(PixelFormat::Argb),
            26 => Some(PixelFormat::Rgba),
            27 => Some(PixelFormat::Abgr),
            28 => Some(PixelFormat::Bgra),
            29 => Some(PixelFormat::Gray16be),
            30 => Some(PixelFormat::Gray16le),
            31 => Some(PixelFormat::Yuv440p),
            32 => Some(PixelFormat::Yuvj440p),
            33 => Some(PixelFormat::Yuva420p),
            34 => Some(PixelFormat::Rgb48be),
            35 => Some(PixelFormat::Rgb48le),
            36 => Some(PixelFormat::Rgb565be),
            37 => Some(PixelFormat::Rgb565le),
            38 => Some(PixelFormat::Rgb555be),
            39 => Some(PixelFormat::Rgb555le),
            40 => Some(PixelFormat::Bgr565be),
            41 => Some(PixelFormat::Bgr565le),
            42 => Some(PixelFormat::Bgr555be),
            43 => Some(PixelFormat::Bgr555le),
            _ => None,
        }
    }
}

/// Layout of the decoded audio samples.  `Unknown` is the decoder's
/// "no format" value, `Nb` its count of formats.
#[derive(Clone, Copy, Debug, PartialEq, Eq, Structural)]
pub enum SampleFormat {
    Unknown,
    U8,
    S16,
    S32,
    Flt,
    Dbl,
    U8p,
    S16p,
    S32p,
    Fltp,
    Dblp,
    Nb,
}

impl SampleFormat {
    /// The sample format's number in the decoder's interface.
    pub open spec fn spec_code(self) -> int {
        match self {
            SampleFormat::Unknown => -1,
            SampleFormat::U8 => 0,
            SampleFormat::S16 => 1,
            SampleFormat::S32 => 2,
            SampleFormat::Flt => 3,
            SampleFormat::Dbl => 4,
            SampleFormat::U8p => 5,
            SampleFormat::S16p => 6,
            SampleFormat::S32p => 7,
            SampleFormat::Fltp => 8,
            SampleFormat::Dblp => 9,
            SampleFormat::Nb => 10,
        }
    }

    /// The sample format numbered `c` in the decoder's interface, if there is one.
    pub open spec fn spec_from_code(c: int) -> Option<SampleFormat> {
        if c == -1 {
            Some(SampleFormat::Unknown)
        } else if c == 0 {
            Some(SampleFormat::U8)
        } else if c == 1 {
            Some(SampleFormat::S16)
        } else if c == 2 {
            Some(SampleFormat::S32)
        } else if c == 3 {
            Some(SampleFormat::Flt)
        } else if c == 4 {
            Some(SampleFormat::Dbl)
        } else if c == 5 {
            Some(SampleFormat::U8p)
        } else if c == 6 {
            Some(SampleFormat::S16p)
        } else if c == 7 {
            Some(SampleFormat::S32p)
        } else if c == 8 {
            Some(SampleFormat::Fltp)
        } else if c == 9 {
            Some(SampleFormat::Dblp)
        } else if c == 10 {
            Some(SampleFormat::Nb)
        } else {
            None
        }
    }

    /// The sample format's number in the decoder's interface.
    pub fn code(&self) -> (c: i32)
        ensures
            c as int == self.spec_code(),
    {
        match self {
            SampleFormat::Unknown => -1,
            SampleFormat::U8 => 0,
            SampleFormat::S16 => 1,
            SampleFormat::S32 => 2,
            SampleFormat::Flt => 3,
            SampleFormat::Dbl => 4,
            SampleFormat::U8p => 5,
            SampleFormat::S16p => 6,
            SampleFormat::S32p => 7,
            SampleFormat::Fltp => 8,
            SampleFormat::Dblp => 9,
            SampleFormat::Nb => 10,
        }
    }

    /// Reads the number that the decoder reports as a sample format: `None` for
    /// a number that names none.
    pub fn from_code(c: i32) -> (f: Option<SampleFormat>)
        ensures
            f == Self::spec_from_code(c as int),
    {
        match c {
            -1 => Some(SampleFormat::Unknown),
            0 => Some(SampleFormat::U8),
            1 => Some(SampleFormat::S16),
            2 => Some(SampleFormat::S32),
            3 => Some(SampleFormat::Flt),
            4 => Some(SampleFormat::Dbl),
            5 => Some(SampleFormat::U8p),
            6 => Some(SampleFormat::S16p),
            7 => Some(SampleFormat::S32p),
            8 => Some(SampleFormat::Fltp),
            9 => Some(SampleFormat::Dblp),
            10 => Some(SampleFormat::Nb),
            _ => None,
        }
    }

    /// How the sample format is shown to the user.
    pub open spec fn spec_name(self) -> Seq<char> {
        match self {
            SampleFormat::Unknown => "ERROR: None"@,
            SampleFormat::U8 => "u8"@,
            SampleFormat::S16 => "s16"@,
            SampleFormat::S32 => "s32"@,
            SampleFormat::Flt => "f32"@,
            SampleFormat::Dbl => "f64"@,
            SampleFormat::U8p => "u8p"@,
            SampleFormat::S16p => "s16p"@,
            SampleFormat::S32p => "s32p"@,
            SampleFormat::Fltp => "f32p"@,
            SampleFormat::Dblp => "f64p"@,
            SampleFormat::Nb => "ERROR: Nb"@,
        }
    }

    /// How the sample format is shown to the user.
    pub fn name(&self) -> (s: &'static str)
        ensures
            s@ == self.spec_name(),
    {
        match self {
            SampleFormat::Unknown => "ERROR: None",
            SampleFormat::U8 => "u8",
            SampleFormat::S16 => "s16",
            SampleFormat::S32 => "s32",
            SampleFormat::Flt => "f32",
            SampleFormat::Dbl => "f64",
            SampleFormat::U8p => "u8p",
            SampleFormat::S16p => "s16p",
            SampleFormat::S32p => "s32p",
            SampleFormat::Fltp => "f32p",
            SampleFormat::Dblp => "f64p",
            SampleFormat::Nb => "ERROR: Nb",
        }
    }
}

/// The decoder's numbering of pixel formats: `Unknown` is -1 and the
/// others count up from 0 in the decoder's order, so that, for instance,
/// `Yuv420p` is 0, `Yuv422p` 4 and `Yuv444p` 5.
pub proof fn lemma_pixel_format_numbering()
    ensures
        PixelFormat::Unknown.spec_code() == -1,
        PixelFormat::spec_from_code(-1) == Some(PixelFormat::Unknown),
        PixelFormat::Yuv420p.spec_code() == 0,
        PixelFormat::spec_from_code(0) == Some(PixelFormat::Yuv420p),
        PixelFormat::Yuyv422.spec_code() == 1,
        PixelFormat::spec_from_code(1) == Some(PixelFormat::Yuyv422),
        PixelFormat::Rgb24.spec_code() == 2,
        PixelFormat::spec_from_code(2) == Some(PixelFormat::Rgb24),
        PixelFormat::Bgr24.spec_code() == 3,
        PixelFormat::spec_from_code(3) == Some(PixelFormat::Bgr24),
        PixelFormat::Yuv422p.spec_code() == 4,
        PixelFormat::spec_from_code(4) == Some(PixelFormat::Yuv422p),
        PixelFormat::Yuv444p.spec_code() == 5,
        PixelFormat::spec_from_code(5) == Some(PixelFormat::Yuv444p),
        PixelFormat::Yuv410p.spec_code() == 6,
        PixelFormat::spec_from_code(6) == Some(PixelFormat::Yuv410p),
        PixelFormat::Yuv411p.spec_code() == 7,
        PixelFormat::spec_from_code(7) == Some(PixelFormat::Yuv411p),
        PixelFormat::Gray8.spec_code() == 8,
        PixelFormat::spec_from_code(8) == Some(PixelFormat::Gray8),
        PixelFormat::Monowhite.spec_code() == 9,
        PixelFormat::spec_from_code(9) == Some(PixelFormat::Monowhite),
        PixelFormat::Monoblack.spec_code() == 10,
        PixelFormat::spec_from_code(10) == Some(PixelFormat::Monoblack),
        PixelFormat::Pal8.spec_code() == 11,
        PixelFormat::spec_from_code(11) == Some(PixelFormat::Pal8),
        PixelFormat::Yuvj420p.spec_code() == 12,
        PixelFormat::spec_from_code(12) == Some(PixelFormat::Yuvj420p),
        PixelFormat::Yuvj422p.spec_code() == 13,
        PixelFormat::spec_from_code(13) == Some(PixelFormat::Yuvj422p),
        PixelFormat::Yuvj444p.spec_code() == 14,
        PixelFormat::spec_from_code(14) == Some(PixelFormat::Yuvj444p),
        PixelFormat::Uyvy422.spec_code() == 15,
        PixelFormat::spec_from_code(15) == Some(PixelFormat::Uyvy422),
        PixelFormat::Uyyvyy411.spec_code() == 16,
        PixelFormat::spec_from_code(16) == Some(PixelFormat::Uyyvyy411),
        PixelFormat::Bgr8.spec_code() == 17,
        PixelFormat::spec_from_code(17) == Some(PixelFormat::Bgr8),
        PixelFormat::Bgr4.spec_code() == 18,
        PixelFormat::spec_from_code(18) == Some(PixelFormat::Bgr4),
        PixelFormat::Bgr4Byte.spec_code() == 19,
        PixelFormat::spec_from_code(19) == Some(PixelFormat::Bgr4Byte),
        PixelFormat::Rgb8.spec_code() == 20,
        PixelFormat::spec_from_code(20) == Some(PixelFormat::Rgb8),
        PixelFormat::Rgb4.spec_code() == 21,
        PixelFormat::spec_from_code(21) == Some(PixelFormat::Rgb4),
        PixelFormat::Rgb4Byte.spec_code() == 22,
        PixelFormat::spec_from_code(22) == Some(PixelFormat::Rgb4Byte),
        PixelFormat::Nv12.spec_code() == 23,
        PixelFormat::spec_from_code(23) == Some(PixelFormat::Nv12),
        PixelFormat::Nv21.spec_code() == 24,
        PixelFormat::spec_from_code(24) == Some(PixelFormat::Nv21),
        PixelFormat::Argb.spec_code() == 25,
        PixelFormat::spec_from_code(25) == Some(PixelFormat::Argb),
        PixelFormat::Rgba.spec_code() == 26,
        PixelFormat::spec_from_code(26) == Some(PixelFormat::Rgba),
        PixelFormat::Abgr.spec_code() == 27,
        PixelFormat::spec_from_code(27) == Some(PixelFormat::Abgr),
        PixelFormat::Bgra.spec_code() == 28,
        PixelFormat::spec_from_code(28) == Some(PixelFormat::Bgra),
        PixelFormat::Gray16be.spec_code() == 29,
        PixelFormat::spec_from_code(29) == Some(PixelFormat::Gray16be),
        PixelFormat::Gray16le.spec_code() == 30,
        PixelFormat::spec_from_code(30) == Some(PixelFormat::Gray16le),
        PixelFormat::Yuv440p.spec_code() == 31,
        PixelFormat::spec_from_code(31) == Some(PixelFormat::Yuv440p),
        PixelFormat::Yuvj440p.spec_code() == 32,
        PixelFormat::spec_from_code(32) == Some(PixelFormat::Yuvj440p),
        PixelFormat::Yuva420p.spec_code() == 33,
        PixelFormat::spec_from_code(33) == Some(PixelFormat::Yuva420p),
        PixelFormat::Rgb48be.spec_code() == 34,
        PixelFormat::spec_from_code(34) == Some(PixelFormat::Rgb48be),
        PixelFormat::Rgb48le.spec_code() == 35,
        PixelFormat::spec_from_code(35) == Some(PixelFormat::Rgb48le),
        PixelFormat::Rgb565be.spec_code() == 36,
        PixelFormat::spec_from_code(36) == Some(PixelFormat::Rgb565be),
        PixelFormat::Rgb565le.spec_code() == 37,
        PixelFormat::spec_from_code(37) == Some(PixelFormat::Rgb565le),
        PixelFormat::Rgb555be.spec_code() == 38,
        PixelFormat::spec_from_code(38) == Some(PixelFormat::Rgb555be),
        PixelFormat::Rgb555le.spec_code() == 39,
        PixelFormat::spec_from_code(39) == Some(PixelFormat::Rgb555le),
        PixelFormat::Bgr565be.spec_code() == 40,
        PixelFormat::spec_from_code(40) == Some(PixelFormat::Bgr565be),
        PixelFormat::Bgr565le.spec_code() == 41,
        PixelFormat::spec_from_code(41) == Some(PixelFormat::Bgr565le),
        PixelFormat::Bgr555be.spec_code() == 42,
        PixelFormat::spec_from_code(42) == Some(PixelFormat::Bgr555be),
        PixelFormat::Bgr555le.spec_code() == 43,
        PixelFormat::spec_from_code(43) == Some(PixelFormat::Bgr555le),
{
}

/// The decoder's numbering of sample formats, and the text shown for each:
/// packed formats count up from 0, their planar forms follow in the same
/// order with a `p` added to the text, and the two out-of-range values show
/// as errors.
pub proof fn lemma_sample_format_numbering_and_names()
    ensures
        SampleFormat::Unknown.spec_code() == -1,
        SampleFormat::spec_from_code(-1) == Some(SampleFormat::Unknown),
        SampleFormat::Unknown.spec_name() == "ERROR: None"@,
        SampleFormat::U8.spec_code() == 0,
        SampleFormat::spec_from_code(0) == Some(SampleFormat::U8),
        SampleFormat::U8.spec_name() == "u8"@,
        SampleFormat::S16.spec_code() == 1,
        SampleFormat::spec_from_code(1) == Some(SampleFormat::S16),
        SampleFormat::S16.spec_name() == "s16"@,
        SampleFormat::S32.spec_code() == 2,
        SampleFormat::spec_from_code(2) == Some(SampleFormat::S32),
        SampleFormat::S32.spec_name() == "s32"@,
        SampleFormat::Flt.spec_code() == 3,
        SampleFormat::spec_from_code(3) == Some(SampleFormat::Flt),
        SampleFormat::Flt.spec_name() == "f32"@,
        SampleFormat::Dbl.spec_code() == 4,
        SampleFormat::spec_from_code(4) == Some(SampleFormat::Dbl),
        SampleFormat::Dbl.spec_name() == "f64"@,
        SampleFormat::U8p.spec_code() == 5,
        SampleFormat::spec_from_code(5) == Some(SampleFormat::U8p),
        SampleFormat::U8p.spec_name() == "u8p"@,
        SampleFormat::S16p.spec_code() == 6,
        SampleFormat::spec_from_code(6) == Some(SampleFormat::S16p),
        SampleFormat::S16p.spec_name() == "s16p"@,
        SampleFormat::S32p.spec_code() == 7,
        SampleFormat::spec_from_code(7) == Some(SampleFormat::S32p),
        SampleFormat::S32p.spec_name() == "s32p"@,
        SampleFormat::Fltp.spec_code() == 8,
        SampleFormat::spec_from_code(8) == Some(SampleFormat::Fltp),
        SampleFormat::Fltp.spec_name() == "f32p"@,
        SampleFormat::Dblp.spec_code() == 9,
        SampleFormat::spec_from_code(9) == Some(SampleFormat::Dblp),
        SampleFormat::Dblp.spec_name() == "f64p"@,
        SampleFormat::Nb.spec_code() == 10,
        SampleFormat::spec_from_code(10) == Some(SampleFormat::Nb),
        SampleFormat::Nb.spec_name() == "ERROR: Nb"@,
{
}

/// Each planar sample format is numbered five after its packed form and
/// shown as the packed form's text followed by `p`.
pub proof fn lemma_planar_follows_packed(c: int)
    requires
        0 <= c < 5,
    ensures
        SampleFormat::spec_from_code(c) matches Some(packed) && SampleFormat::spec_from_code(c + 5)
            matches Some(planar) && planar.spec_name() == packed.spec_name() + "p"@,
{
    reveal_strlit("p");
    reveal_strlit("u8");
    reveal_strlit("s16");
    reveal_strlit("s32");
    reveal_strlit("f32");
    reveal_strlit("f64");
    reveal_strlit("u8p");
    reveal_strlit("s16p");
    reveal_strlit("s32p");
    reveal_strlit("f32p");
    reveal_strlit("f64p");
    assert("u8p"@ =~= "u8"@ + "p"@);
    assert("s16p"@ =~= "s16"@ + "p"@);
    assert("s32p"@ =~= "s32"@ + "p"@);
    assert("f32p"@ =~= "f32"@ + "p"@);
    assert("f64p"@ =~= "f64"@ + "p"@);
}

/// Reading a pixel format's number gives the format back.
pub proof fn lemma_pixel_format_code_roundtrip(f: PixelFormat)
    ensures
        PixelFormat::spec_from_code(f.spec_code()) == Some(f),
{
}

/// A number read as a pixel format is that format's number.
pub proof fn lemma_pixel_format_code_exact(c: int)
    ensures
        PixelFormat::spec_from_code(c) matches Some(f) ==> f.spec_code() == c,
        PixelFormat::spec_from_code(c) is Some <==> -1 <= c <= 43,
{
}

/// Reading a sample format's number gives the format back.
pub proof fn lemma_sample_format_code_roundtrip(f: SampleFormat)
    ensures
        SampleFormat::spec_from_code(f.spec_code()) == Some(f),
{
}

/// A number read as a sample format is that format's number.
pub proof fn lemma_sample_format_code_exact(c: int)
    ensures
        SampleFormat::spec_from_code(c) matches Some(f) ==> f.spec_code() == c,
        SampleFormat::spec_from_code(c) is Some <==> -1 <= c <= 10,
{
}

} // verus!
