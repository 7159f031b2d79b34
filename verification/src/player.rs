//! The decisions the player makes from frame to frame: which file to play,
//! when to stop decoding for a frame, when playback has finished, how many
//! frames were shown each second and what the status line says.
use vstd::prelude::*;
use vstd::string::StringSliceAdditionalSpecFns;

verus! {

/// The file to play: the first argument after the program's name.
pub fn file_argument(args: &Vec<String>) -> (file: Option<String>)
    ensures
        args@.len() >= 2 ==> (file matches Some(f) && f@ == args@[1]@),
        args@.len() < 2 ==> file is None,
{
    if args.len() >= 2 {
        Some(args[1].clone())
    } else {
        None
    }
}

/// The file name as the C decoder takes it: its bytes and a closing NUL,
/// or `None` where the name itself holds a NUL byte.
pub fn c_path(name: &str) -> (path: Option<Vec<u8>>)
    ensures
        path is None <==> name.spec_bytes().contains(0u8),
        path matches Some(p) ==> p@ == name.spec_bytes().push(0u8),
{
    let bytes = name.as_bytes();
    let mut out: Vec<u8> = Vec::new();
    let mut i: usize = 0;
    while i < bytes.len()
        invariant
            i <= bytes@.len(),
            bytes@ == name.spec_bytes(),
            out@ == bytes@.subrange(0, i as int),
            forall|k: int| 0 <= k < i ==> bytes@[k] != 0u8,
        decreases bytes@.len() - i,
    {
        if bytes[i] == 0 {
            assert(bytes@[i as int] == 0u8);
            return None;
        }
        out.push(bytes[i]);
        i = i + 1;
        assert(out@ =~= bytes@.subrange(0, i as int));
    }
    assert(bytes@.subrange(0, i as int) =~= bytes@);
    out.push(0);
    Some(out)
}

/// What the player is doing.
#[derive(Clone, Copy, Debug, PartialEq, Eq, Structural)]
pub enum Mode {
    /// Frames are decoded and shown.
    Playing,
    /// The decoder has reached the end of the file; the last frame stays.
    Finished,
}

impl Mode {
    /// The mode for the next frame, when the decoder did (`decoder_ended`)
    /// or did not report the end of the file while decoding this one.
    pub open spec fn spec_after_frame(self, decoder_ended: bool) -> Mode {
        if decoder_ended {
            Mode::Finished
        } else {
            self
        }
    }

    /// The second line of the status text in this mode.
    pub open spec fn spec_note(self) -> Seq<char> {
        match self {
            Mode::Playing => "Decoding-Playing…"@,
            Mode::Finished => "Finished!"@,
        }
    }

    /// Whether frames are decoded in this mode.
    pub fn decodes(&self) -> (d: bool)
        ensures
            d <==> *self == Mode::Playing,
    {
        match self {
            Mode::Playing => true,
            Mode::Finished => false,
        }
    }

    /// The mode for the next frame: playback finishes once the decoder has
    /// reported the end of the file, and stays finished.
    pub fn after_frame(self, decoder_ended: bool) -> (m: Mode)
        ensures
            m == self.spec_after_frame(decoder_ended),
    {
        if decoder_ended {
            Mode::Finished
        } else {
            self
        }
    }

    /// The second line of the status text in this mode.
    pub fn note(&self) -> (s: &'static str)
        ensures
            s@ == self.spec_note(),
    {
        match self {
            Mode::Playing => "Decoding-Playing…",
            Mode::Finished => "Finished!",
        }
    }
}

/// Once finished, playback stays finished, whatever the decoder reports.
pub proof fn lemma_finished_is_final(decoder_ended: bool)
    ensures
        Mode::Finished.spec_after_frame(decoder_ended) == Mode::Finished,
{
}

/// One pass of the decoder for a frame: the decoder is stepped until it has
/// written a frame, and whether it reported the end of the file on any step
/// is remembered.
pub struct DecodePass {
    /// No frame has been written yet.
    pub waiting: bool,
    /// The decoder has reported the end of the file.
    pub ended: bool,
}

impl DecodePass {
    /// A pass that waits for a frame and has seen no end of file.
    pub fn new() -> (p: DecodePass)
        ensures
            p.waiting,
            !p.ended,
    {
        DecodePass { waiting: true, ended: false }
    }

    /// Records one step of the decoder, which reported the end of the file
    /// (`decoder_ended`) or not and wrote a frame (`frame_written`) or not.
    /// Answers whether the decoder is to be stepped again.
    pub fn step(&mut self, decoder_ended: bool, frame_written: bool) -> (again: bool)
        ensures
            final(self).ended == (old(self).ended || decoder_ended),
            final(self).waiting == (old(self).waiting && !frame_written),
            again == final(self).waiting,
    {
        if decoder_ended {
            self.ended = true;
        }
        if frame_written {
            self.waiting = false;
        }
        self.waiting
    }
}

/// The counter's frames and the status text after one frame's
/// bookkeeping in `mode`: the frame is counted, and when a second has
/// elapsed the frames of that second are written into the status text and
/// the count starts again from zero.
pub open spec fn frame_bookkeeping(
    frames: int,
    second_elapsed: bool,
    version: Seq<char>,
    mode: Mode,
    info: Seq<char>,
) -> (int, Seq<char>) {
    if second_elapsed {
        (0, status_spec(version, (frames + 1) as nat, mode))
    } else {
        (frames + 1, info)
    }
}

/// Counts the frames shown since the last report.
pub struct FrameCounter {
    pub frames: u32,
}

impl FrameCounter {
    /// A counter at zero.
    pub fn new() -> (c: FrameCounter)
        ensures
            c.frames == 0,
    {
        FrameCounter { frames: 0 }
    }

    /// Counts one more frame.  When a second has elapsed since the last
    /// report, answers the number of frames shown in it and starts again
    /// from zero.
    pub fn tick(&mut self, second_elapsed: bool) -> (report: Option<u32>)
        requires
            old(self).frames < u32::MAX,
        ensures
            second_elapsed ==> report == Some((old(self).frames + 1) as u32) && final(self).frames
                == 0,
            !second_elapsed ==> report is None && final(self).frames == old(self).frames + 1,
    {
        self.frames = self.frames + 1;
        if second_elapsed {
            let n = self.frames;
            self.frames = 0;
            Some(n)
        } else {
            None
        }
    }

    /// One frame's bookkeeping, as `frame_bookkeeping` says: counts the
    /// frame and, when a second has elapsed, writes the frames of that
    /// second into the status text `info`.  Answers whether it did.
    pub fn count_frame(
        &mut self,
        second_elapsed: bool,
        version: &str,
        mode: Mode,
        info: &mut String,
    ) -> (reported: bool)
        requires
            old(self).frames < u32::MAX,
        ensures
            reported == second_elapsed,
            !second_elapsed ==> final(self).frames == old(self).frames + 1 && final(info)@ == old(
                info,
            )@,
            second_elapsed ==> final(self).frames == 0 && final(info)@ == status_head(
                version@,
                (old(self).frames + 1) as nat,
            ) + mode.spec_note(),
            (final(self).frames as int, final(info)@) == frame_bookkeeping(
                old(self).frames as int,
                second_elapsed,
                version@,
                mode,
                old(info)@,
            ),
    {
        match self.tick(second_elapsed) {
            Some(fps) => {
                *info = status_text(version, fps, mode);
                true
            },
            None => false,
        }
    }
}

/// The count after `n` frames in which no second elapsed, from `frames`.
pub open spec fn count_after(frames: int, n: nat, version: Seq<char>, mode: Mode) -> int
    decreases n,
{
    if n == 0 {
        frames
    } else {
        frame_bookkeeping(
            count_after(frames, (n - 1) as nat, version, mode),
            false,
            version,
            mode,
            Seq::empty(),
        ).0
    }
}

/// Every frame counts: a frame in which no second elapsed adds one to the
/// count and keeps the text; a frame that ends a second reports the count
/// plus that frame and starts again from zero.
pub proof fn lemma_every_frame_counts(
    frames: int,
    version: Seq<char>,
    mode: Mode,
    info: Seq<char>,
)
    ensures
        frame_bookkeeping(frames, false, version, mode, info) == (frames + 1, info),
        frame_bookkeeping(frames, true, version, mode, info).0 == 0,
        frame_bookkeeping(frames, true, version, mode, info).1 == status_head(
            version,
            (frames + 1) as nat,
        ) + mode.spec_note(),
{
}

/// Starting from zero, after `n` frames without a second elapsing the
/// count is `n`, so the frame that ends the second reports `n + 1`: the
/// number of frames shown in that second.
pub proof fn lemma_second_reports_its_frames(n: nat, version: Seq<char>, mode: Mode, info: Seq<char>)
    ensures
        count_after(0, n, version, mode) == n,
        frame_bookkeeping(count_after(0, n, version, mode), true, version, mode, info).1
            == status_head(version, n + 1) + mode.spec_note(),
    decreases n,
{
    if n > 0 {
        lemma_second_reports_its_frames((n - 1) as nat, version, mode, info);
    }
}

/// Playing and finished frames keep the same count, and their status texts
/// are either both left as they were or differ only in the line after the
/// newline: `Decoding-Playing…` while playing, `Finished!` once finished.
pub proof fn lemma_modes_keep_same_counts(
    frames: int,
    second_elapsed: bool,
    version: Seq<char>,
    info: Seq<char>,
)
    ensures
        frame_bookkeeping(frames, second_elapsed, version, Mode::Playing, info).0
            == frame_bookkeeping(frames, second_elapsed, version, Mode::Finished, info).0,
        !second_elapsed ==> frame_bookkeeping(frames, second_elapsed, version, Mode::Playing, info).1
            == info && frame_bookkeeping(frames, second_elapsed, version, Mode::Finished, info).1
            == info,
        second_elapsed ==> frame_bookkeeping(frames, second_elapsed, version, Mode::Playing, info).1
            == status_head(version, (frames + 1) as nat) + "Decoding-Playing…"@
            && frame_bookkeeping(frames, second_elapsed, version, Mode::Finished, info).1
            == status_head(version, (frames + 1) as nat) + "Finished!"@,
{
}

/// The character of decimal digit `d`.
pub open spec fn digit_char(d: int) -> char {
    ('0' as int + d) as char
}

/// `n` written in decimal, without leading zeros.
pub open spec fn decimal(n: nat) -> Seq<char>
    decreases n,
{
    if n < 10 {
        seq![digit_char(n as int)]
    } else {
        decimal(n / 10).push(digit_char(n as int % 10))
    }
}

/// The number that a string of decimal digits stands for.
pub open spec fn digits_value(s: Seq<char>) -> int
    decreases s.len(),
{
    if s.len() == 0 {
        0
    } else {
        digits_value(s.drop_last()) * 10 + (s.last() as int - '0' as int)
    }
}

/// Reading back the decimal text of `n` gives `n`, and the text is made of
/// digits only.
pub proof fn lemma_decimal_roundtrip(n: nat)
    ensures
        digits_value(decimal(n)) == n,
        decimal(n).len() >= 1,
        forall|k: int| 0 <= k < decimal(n).len() ==> '0' <= #[trigger] decimal(n)[k] <= '9',
    decreases n,
{
    let d = n as int % 10;
    assert(digit_char(d) as int == '0' as int + d);
    if n >= 10 {
        lemma_decimal_roundtrip(n / 10);
        let s = decimal(n);
        assert(s.drop_last() =~= decimal(n / 10));
        assert(s.last() == digit_char(d));
        assert(digits_value(s) == digits_value(decimal(n / 10)) * 10 + d);
    } else {
        let s = decimal(n);
        assert(s.drop_last() =~= Seq::<char>::empty());
        assert(digits_value(s) == digits_value(s.drop_last()) * 10 + d);
    }
}

/// The text of digit `d`.
fn digit_text(d: u32) -> (s: &'static str)
    requires
        d < 10,
    ensures
        s@ == seq![digit_char(d as int)],
{
    proof {
        reveal_strlit("0");
        reveal_strlit("1");
        reveal_strlit("2");
        reveal_strlit("3");
        reveal_strlit("4");
        reveal_strlit("5");
        reveal_strlit("6");
        reveal_strlit("7");
        reveal_strlit("8");
        reveal_strlit("9");
    }
    match d {
        0 => "0",
        1 => "1",
        2 => "2",
        3 => "3",
        4 => "4",
        5 => "5",
        6 => "6",
        7 => "7",
        8 => "8",
        _ => "9",
    }
}

/// Appends `n` in decimal to `s`.
fn append_decimal(s: &mut String, n: u32)
    ensures
        final(s)@ == old(s)@ + decimal(n as nat),
    decreases n,
{
    if n >= 10 {
        append_decimal(s, n / 10);
    }
    let ghost mid = s@;
    s.append(digit_text(n % 10));
    proof {
        if n >= 10 {
            assert(decimal(n as nat) == decimal((n / 10) as nat).push(digit_char(n as int % 10)));
            assert(s@ =~= old(s)@ + decimal(n as nat));
        } else {
            assert(s@ =~= old(s)@ + decimal(n as nat));
        }
    }
}

/// `n` in decimal.
pub fn decimal_text(n: u32) -> (s: String)
    ensures
        s@ == decimal(n as nat),
{
    let mut s = String::new();
    append_decimal(&mut s, n);
    proof {
        assert(s@ =~= decimal(n as nat));
    }
    s
}

/// The first line of the status text, with its newline.
pub open spec fn status_head(version: Seq<char>, fps: nat) -> Seq<char> {
    "Caving "@ + version + " - FPS: "@ + decimal(fps) + "\n"@
}

/// The status text shown over the video.
pub open spec fn status_spec(version: Seq<char>, fps: nat, mode: Mode) -> Seq<char> {
    status_head(version, fps) + mode.spec_note()
}

/// The two modes' status texts share their first line, which ends in a
/// newline, and differ after it.
pub proof fn lemma_status_differs_only_in_note(version: Seq<char>, fps: nat)
    ensures
        status_spec(version, fps, Mode::Playing) == status_head(version, fps) + "Decoding-Playing…"@,
        status_spec(version, fps, Mode::Finished) == status_head(version, fps) + "Finished!"@,
        status_head(version, fps).last() == '\n',
        Mode::Playing.spec_note() != Mode::Finished.spec_note(),
{
    reveal_strlit("\n");
    reveal_strlit("Finished!");
    reveal_strlit("Decoding-Playing…");
    assert(Mode::Playing.spec_note().len() != Mode::Finished.spec_note().len());
}

/// The status text shown over the video: the program's `version`, the
/// frames shown in the last second, and what the player is doing.
pub fn status_text(version: &str, fps: u32, mode: Mode) -> (s: String)
    ensures
        s@ == status_spec(version@, fps as nat, mode),
{
    let mut s = String::from_str("Caving ");
    s.append(version);
    s.append(" - FPS: ");
    append_decimal(&mut s, fps);
    s.append("\n");
    s.append(mode.note());
    s
}

} // verus!
