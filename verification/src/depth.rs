//! Capture of an exchange's order-book depth: the stream's address, the lines that frames become,
//! the day-file rotation, and when a connection is given up.

use vstd::prelude::*;
use vstd::string::*;

use crate::calendar::{utc_date, Date};
use crate::text;

verus! {

/// A socket that has been silent for this long is taken for dead.
pub const DEAD_SOCKET_SILENCE_MS: i64 = 30_000;

/// One warning is given for this many dropped frames.
pub const DROP_WARN_EVERY: u64 = 1_000;

/// The combined-stream address of both depth streams at a base address.
pub open spec fn combined_depth_url_spec(base: Seq<char>) -> Seq<char> {
    text::without_end_slashes(base)
        + "/stream?streams=btcusdt@depth20@100ms/ethusdt@depth20@100ms"@
}

/// The combined-stream address of both depth streams at a base address. The address alone
/// subscribes: no frame is sent.
pub fn combined_depth_url(base: &str) -> (r: String)
    ensures
        r@ == combined_depth_url_spec(base@),
{
    text::join2(
        text::trim_end_slashes(base).as_str(),
        "/stream?streams=btcusdt@depth20@100ms/ethusdt@depth20@100ms",
    )
}

/// What a finished capture produced.
#[derive(Clone, Copy, PartialEq, Eq, Structural, Debug)]
pub struct DepthStats {
    /// Frames written to disk.
    pub frames_written: u64,
    /// Frames dropped because the writer was behind.
    pub frames_dropped: u64,
    /// Day-files opened.
    pub files: u64,
    /// Reconnects.
    pub reconnects: u64,
}

impl Default for DepthStats {
    fn default() -> (r: DepthStats)
        ensures
            r == (DepthStats { frames_written: 0, frames_dropped: 0, files: 0, reconnects: 0 }),
    {
        DepthStats { frames_written: 0, frames_dropped: 0, files: 0, reconnects: 0 }
    }
}

/// What the capture reads of a JSON frame.
pub struct JsonFrame {
    /// The text under `stream`, where it is a text.
    pub stream: Option<String>,
    /// The value under `data`: whether it is null, and its compact JSON.
    pub data: Option<(bool, String)>,
}

/// What the capture reads of a JSON frame, with its texts as character sequences.
pub struct JsonFrameView {
    pub stream: Option<Seq<char>>,
    pub data: Option<(bool, Seq<char>)>,
}

impl View for JsonFrame {
    type V = JsonFrameView;

    open spec fn view(&self) -> JsonFrameView {
        JsonFrameView {
            stream: match self.stream {
                Some(s) => Some(s@),
                None => None,
            },
            data: match self.data {
                Some((null, s)) => Some((null, s@)),
                None => None,
            },
        }
    }
}

/// What `serde_json` finds in a frame under two names, or `None` where the frame is no JSON.
pub uninterp spec fn json_frame(
    frame: Seq<char>,
    stream: Seq<char>,
    data: Seq<char>,
) -> Option<JsonFrameView>;

/// Calls `serde_json::from_str` and reads two members of the result: the one as a text, the other
/// as it is. The claim: what is found depends on the frame and the members' names alone.
#[verifier::external_body]
fn serde_json_frame(frame: &str, stream: &str, data: &str) -> (r: Option<JsonFrame>)
    ensures
        match r {
            Some(f) => json_frame(frame@, stream@, data@) == Some(f@),
            None => json_frame(frame@, stream@, data@) is None,
        },
{
    let value: serde_json::Value = serde_json::from_str(frame).ok()?;
    Some(
        JsonFrame {
            stream: value.get(stream).and_then(|s| s.as_str()).map(|s| s.to_owned()),
            data: value.get(data).map(|d| (d.is_null(), d.to_string())),
        },
    )
}

/// The line for a frame that holds a stream's name and data that is not null: a JSON object of
/// the data, the time and the name, in that order, and a line feed.
pub open spec fn line_of_frame(recv_ms: int, f: JsonFrameView) -> Option<Seq<char>> {
    match (f.stream, f.data) {
        (Some(stream), Some((null, data))) => if null {
            None
        } else {
            Some(
                "{\"data\":"@ + data + ",\"recv_ms\":"@ + text::signed_digits(recv_ms)
                    + ",\"stream\":"@ + crate::json::json_string(stream) + "}\n"@,
            )
        },
        _ => None,
    }
}

/// The line for a frame, or `None` where the frame is no JSON, or holds no stream or no data.
pub open spec fn depth_line_spec(recv_ms: int, frame: Seq<char>) -> Option<Seq<char>> {
    match json_frame(frame, "stream"@, "data"@) {
        Some(f) => line_of_frame(recv_ms, f),
        None => None,
    }
}

/// The line for what was read of a frame.
pub fn line_for(recv_ms: i64, f: &JsonFrame) -> (r: Option<String>)
    ensures
        match r {
            Some(line) => line_of_frame(recv_ms as int, f@) == Some(line@),
            None => line_of_frame(recv_ms as int, f@) is None,
        },
{
    match (&f.stream, &f.data) {
        (Some(stream), Some(data)) => {
            if data.0 {
                return None;
            }
            let mut line = text::join5(
                "{\"data\":",
                data.1.as_str(),
                ",\"recv_ms\":",
                text::i64_text(recv_ms).as_str(),
                ",\"stream\":",
            );
            line.append(crate::json::string_text(stream.as_str()).as_str());
            line.append("}\n");
            Some(line)
        },
        _ => None,
    }
}

/// The line for a frame, or `None` where the frame is no JSON, or holds no stream or no data.
pub fn depth_line(recv_ms: i64, frame: &str) -> (r: Option<String>)
    ensures
        match r {
            Some(line) => depth_line_spec(recv_ms as int, frame@) == Some(line@),
            None => depth_line_spec(recv_ms as int, frame@) is None,
        },
{
    match serde_json_frame(frame, "stream", "data") {
        Some(f) => line_for(recv_ms, &f),
        None => None,
    }
}

/// The name of a day-file.
pub open spec fn day_file_name_spec(prefix: Seq<char>, day: Date) -> Seq<char> {
    prefix + day.compact_spec() + ".jsonl.gz"@
}

/// The name of a day-file: a prefix and the date.
pub fn day_file_name(prefix: &str, day: &Date) -> (r: String)
    ensures
        r@ == day_file_name_spec(prefix@, *day),
{
    text::join3(prefix, day.compact().as_str(), ".jsonl.gz")
}

/// Where the writer of a day-file series stands.
#[derive(Clone, Copy, PartialEq, Eq, Structural, Debug)]
pub struct DayWriter {
    /// The day of the open file.
    pub day: Option<Date>,
    /// Lines written.
    pub written: u64,
    /// Files opened.
    pub files: u64,
}

impl DayWriter {
    /// A writer with no file open.
    pub fn new() -> (r: DayWriter)
        ensures
            r == (DayWriter { day: None, written: 0, files: 0 }),
    {
        DayWriter { day: None, written: 0, files: 0 }
    }

    /// The writer after a line of a day: a new file where the day is not that of the open one.
    pub open spec fn after_line(self, day: Date) -> DayWriter {
        DayWriter {
            day: Some(day),
            written: (self.written + 1) as u64,
            files: if self.day == Some(day) {
                self.files
            } else {
                (self.files + 1) as u64
            },
        }
    }

    /// Takes in a line of a time. Returns the day of the file that is to be opened for it, after
    /// the open one is closed, or `None` where it goes into the open file.
    pub fn on_line(&mut self, ts_ms: i64) -> (r: Option<Date>)
        requires
            old(self).written < u64::MAX,
            old(self).files < u64::MAX,
        ensures
            *final(self) == old(self).after_line(crate::calendar::utc_date_spec(ts_ms as int)),
            r == (if old(self).day == Some(crate::calendar::utc_date_spec(ts_ms as int)) {
                None
            } else {
                Some(crate::calendar::utc_date_spec(ts_ms as int))
            }),
    {
        let day = utc_date(ts_ms);
        self.written = self.written + 1;
        let stays = match self.day {
            Some(open) => open == day,
            None => false,
        };
        if stays {
            None
        } else {
            self.day = Some(day);
            self.files = self.files + 1;
            Some(day)
        }
    }
}

/// The second of two lines goes into the file of the first exactly where both are of one UTC
/// day, whatever was written before.
pub proof fn law_one_file_per_day(w: DayWriter, a: int, b: int)
    requires
        crate::calendar::in_calendar(crate::calendar::floor_secs(a)),
        crate::calendar::in_calendar(crate::calendar::floor_secs(b)),
        w.files < u64::MAX - 1,
    ensures
        ({
            let one = w.after_line(crate::calendar::utc_date_spec(a));
            let two = one.after_line(crate::calendar::utc_date_spec(b));
            two.files == one.files <==> crate::datekey::day_of(a) == crate::datekey::day_of(b)
        }),
{
    crate::calendar::law_one_date_per_day(a, b);
}

/// What is to be written for a frame.
pub struct WriteStep {
    /// The day of the file to open first, after the open one is closed.
    pub open: Option<Date>,
    /// The line to write.
    pub line: String,
}

impl DayWriter {
    /// Takes in a frame of a time: the line that it becomes, and the file that is to be opened
    /// for it. A frame that becomes no line changes nothing.
    pub fn write_frame(&mut self, recv_ms: i64, frame: &str) -> (r: Option<WriteStep>)
        requires
            old(self).written < u64::MAX,
            old(self).files < u64::MAX,
        ensures
            match depth_line_spec(recv_ms as int, frame@) {
                None => r is None && *final(self) == *old(self),
                Some(line) => {
                    let day = crate::calendar::utc_date_spec(recv_ms as int);
                    &&& r is Some
                    &&& r->0.line@ == line
                    &&& r->0.open == (if old(self).day == Some(day) {
                        None
                    } else {
                        Some(day)
                    })
                    &&& *final(self) == old(self).after_line(day)
                },
            },
    {
        match depth_line(recv_ms, frame) {
            None => None,
            Some(line) => {
                let open = self.on_line(recv_ms);
                Some(WriteStep { open, line })
            },
        }
    }
}

/// What came from the socket.
#[derive(Clone, Copy, PartialEq, Eq, Structural, Debug)]
pub enum Inbound {
    /// The peer closed the connection.
    Closed,
    /// The socket failed.
    Failed,
    /// A ping of the server.
    Ping,
    /// A frame with data.
    Data,
}

/// What is to be done with what came from the socket.
#[derive(Clone, Copy, PartialEq, Eq, Structural, Debug)]
pub enum InboundStep {
    /// Nothing.
    Ignore,
    /// Hand the frame to the writer; the first of a connection also resets the backoff.
    Forward {
        /// Whether the backoff is reset.
        reset_backoff: bool,
    },
    /// Reconnect.
    Reconnect,
}

/// What became of a frame that was handed to the writer.
#[derive(Clone, Copy, PartialEq, Eq, Structural, Debug)]
pub enum Handed {
    /// The writer has it.
    Taken,
    /// The writer is behind.
    Full,
    /// The writer is gone.
    WriterGone,
}

/// What is to be done after a frame was handed to the writer.
#[derive(Clone, Copy, PartialEq, Eq, Structural, Debug)]
pub enum HandedStep {
    /// Go on.
    Continue,
    /// Warn of the number of frames dropped so far.
    Warn(u64),
    /// Reconnect.
    Reconnect,
}

/// The counts that a capture keeps over all its connections.
#[derive(Clone, Copy, PartialEq, Eq, Structural, Debug)]
pub struct DropCount {
    /// Frames dropped.
    pub dropped: u64,
    /// The count at the last warning.
    pub warned_at: u64,
}

impl DropCount {
    /// Nothing dropped.
    pub fn new() -> (r: DropCount)
        ensures
            r == (DropCount { dropped: 0, warned_at: 0 }),
    {
        DropCount { dropped: 0, warned_at: 0 }
    }

    /// Takes in what became of a frame. A full writer costs the frame, and every thousandth such
    /// frame a warning.
    pub fn on_handed(&mut self, handed: Handed) -> (r: HandedStep)
        requires
            old(self).dropped < u64::MAX,
            old(self).warned_at <= old(self).dropped,
        ensures
            final(self).warned_at <= final(self).dropped,
            final(self).dropped - final(self).warned_at < 1_000 || handed is Taken
                || handed is WriterGone,
            r is Warn ==> final(self).dropped - old(self).warned_at >= 1_000,
            handed is Full ==> final(self).dropped == old(self).dropped + 1,
            match handed {
                Handed::Taken => *final(self) == *old(self) && r == HandedStep::Continue,
                Handed::WriterGone => *final(self) == *old(self) && r == HandedStep::Reconnect,
                Handed::Full => {
                    let n = (old(self).dropped + 1) as u64;
                    if n >= old(self).warned_at + DROP_WARN_EVERY {
                        *final(self) == (DropCount { dropped: n, warned_at: n }) && r
                            == HandedStep::Warn(n)
                    } else {
                        *final(self) == (DropCount { dropped: n, warned_at: old(self).warned_at })
                            && r == HandedStep::Continue
                    }
                },
            },
    {
        match handed {
            Handed::Taken => HandedStep::Continue,
            Handed::WriterGone => HandedStep::Reconnect,
            Handed::Full => {
                self.dropped = self.dropped + 1;
                if self.dropped - self.warned_at >= DROP_WARN_EVERY {
                    self.warned_at = self.dropped;
                    HandedStep::Warn(self.dropped)
                } else {
                    HandedStep::Continue
                }
            },
        }
    }
}

/// Where one connection stands.
#[derive(Clone, Copy, PartialEq, Eq, Structural, Debug)]
pub struct Episode {
    /// When something last came in, Unix milliseconds.
    pub last_inbound_ms: i64,
    /// Whether the backoff was reset.
    pub backoff_reset: bool,
}

impl Episode {
    /// A connection made at a time.
    pub fn new(now_ms: i64) -> (r: Episode)
        ensures
            r == (Episode { last_inbound_ms: now_ms, backoff_reset: false }),
    {
        Episode { last_inbound_ms: now_ms, backoff_reset: false }
    }

    /// Takes in what came from the socket at a time.
    pub fn on_inbound(&mut self, inbound: Inbound, now_ms: i64) -> (r: InboundStep)
        ensures
            match inbound {
                Inbound::Closed | Inbound::Failed => *final(self) == *old(self) && r
                    == InboundStep::Reconnect,
                Inbound::Ping => *final(self) == (Episode {
                    last_inbound_ms: now_ms,
                    backoff_reset: old(self).backoff_reset,
                }) && r == InboundStep::Ignore,
                Inbound::Data => *final(self) == (Episode {
                    last_inbound_ms: now_ms,
                    backoff_reset: true,
                }) && r == (InboundStep::Forward { reset_backoff: !old(self).backoff_reset }),
            },
    {
        match inbound {
            Inbound::Closed | Inbound::Failed => InboundStep::Reconnect,
            Inbound::Ping => {
                self.last_inbound_ms = now_ms;
                InboundStep::Ignore
            },
            Inbound::Data => {
                self.last_inbound_ms = now_ms;
                let first = !self.backoff_reset;
                self.backoff_reset = true;
                InboundStep::Forward { reset_backoff: first }
            },
        }
    }

    /// How long the socket has been silent, where that is long enough to give it up.
    pub fn dead_for(&self, now_ms: i64) -> (r: Option<i64>)
        requires
            i64::MIN <= now_ms - self.last_inbound_ms <= i64::MAX,
        ensures
            r == (if now_ms - self.last_inbound_ms >= DEAD_SOCKET_SILENCE_MS {
                Some((now_ms - self.last_inbound_ms) as i64)
            } else {
                None
            }),
            r is Some <==> now_ms - self.last_inbound_ms >= 30_000,
    {
        let silent: i64 = now_ms - self.last_inbound_ms;
        if silent >= DEAD_SOCKET_SILENCE_MS {
            Some(silent)
        } else {
            None
        }
    }
}

/// What became of a connection.
#[derive(Clone, Copy, PartialEq, Eq, Structural, Debug)]
pub enum ConnectionEnd {
    /// It could not be made.
    NotMade,
    /// It was made and has ended.
    Ended,
    /// The capture was stopped.
    Stopped,
}

/// Whether a capture goes on.
#[derive(Clone, Copy, PartialEq, Eq, Structural, Debug)]
pub enum CaptureStep {
    /// Wait for the backoff, then connect again.
    Retry,
    /// Close the files.
    Finish,
}

/// How often a capture has had to connect anew.
#[derive(Clone, Copy, PartialEq, Eq, Structural, Debug)]
pub struct CaptureRun {
    /// Connections that ended and were followed by another.
    pub reconnects: u64,
}

impl CaptureRun {
    /// Before the first connection.
    pub fn new() -> (r: CaptureRun)
        ensures
            r.reconnects == 0,
    {
        CaptureRun { reconnects: 0 }
    }

    /// Takes in what became of a connection: a capture goes on until it is stopped, and only a
    /// connection that was made counts.
    pub fn after(&mut self, end: ConnectionEnd) -> (r: CaptureStep)
        requires
            old(self).reconnects < u64::MAX,
        ensures
            (r == CaptureStep::Finish) == (end == ConnectionEnd::Stopped),
            final(self).reconnects == old(self).reconnects + (if end == ConnectionEnd::Ended {
                1int
            } else {
                0
            }),
    {
        match end {
            ConnectionEnd::Stopped => CaptureStep::Finish,
            ConnectionEnd::NotMade => CaptureStep::Retry,
            ConnectionEnd::Ended => {
                self.reconnects = self.reconnects + 1;
                CaptureStep::Retry
            },
        }
    }
}

} // verus!
