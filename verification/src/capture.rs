//! One capture session: ffmpeg is tried with each configured RTSP transport
//! in turn until one of them produces a frame; from then on its frames are
//! published until it stops, which ends the session: cleanly when ffmpeg
//! exits successfully, with a failure otherwise.

use vstd::prelude::*;
use crate::frames::{byte_vecs, drain_jpegs, take_frames};

verus! {

/// What the ffmpeg process of the current attempt did.
#[derive(Debug)]
pub enum CaptureEvent {
    /// ffmpeg could not be started.
    SpawnFailed,
    /// ffmpeg's standard output was not available.
    NoStdout,
    /// These bytes were read from ffmpeg's standard output.
    Data(Vec<u8>),
    /// Reading ffmpeg's standard output failed.
    ReadFailed,
    /// ffmpeg's standard output ended; `success` tells whether ffmpeg then
    /// reported a successful exit status.
    Exited { success: bool },
}

/// Why a capture attempt, or the whole session, failed.
#[derive(Debug, Clone, Copy, PartialEq, Eq, Structural)]
pub enum CaptureFailure {
    /// No transport was configured.
    NoTransport,
    /// ffmpeg could not be started.
    SpawnFailed,
    /// ffmpeg's standard output was not available.
    NoStdout,
    /// Reading failed before the first frame.
    ReadFailed,
    /// ffmpeg ended before the first frame.
    ExitedBeforeFirstFrame,
    /// Reading failed after frames had been produced.
    ReadFailedWhileStreaming,
    /// ffmpeg ended with a failing or unknown exit status after frames had
    /// been produced.
    ExitedWhileStreaming,
}

/// What the caller does next.
#[derive(Debug)]
pub enum CaptureAction {
    /// Publish these frames, signal the first frame if `first_frame`, and
    /// keep reading.
    Publish { frames: Vec<Vec<u8>>, first_frame: bool },
    /// Stop this ffmpeg process and start one with the next transport.
    TryNext,
    /// The session is over and ended cleanly: ffmpeg exited successfully
    /// after producing frames.
    Done,
    /// The session is over, with this failure.
    Finish(CaptureFailure),
}

/// The state of a capture session.
pub struct CaptureSession {
    transports: Vec<Option<String>>,
    attempt: usize,
    streaming: bool,
    pending: Vec<u8>,
    last_failure: Option<CaptureFailure>,
}

/// The failure an attempt ends with when `ev` comes before any frame.
pub open spec fn attempt_failure(ev: CaptureEvent) -> CaptureFailure {
    match ev {
        CaptureEvent::SpawnFailed => CaptureFailure::SpawnFailed,
        CaptureEvent::NoStdout => CaptureFailure::NoStdout,
        CaptureEvent::ReadFailed => CaptureFailure::ReadFailed,
        _ => CaptureFailure::ExitedBeforeFirstFrame,
    }
}

/// One step of a capture session: how `before` reacts to `ev`, answering
/// `r` and becoming `after`.
///
/// - Bytes are added to the pending ones and every complete frame is
///   published; the first frame of the session is flagged, and from then
///   on the attempt is streaming.
/// - When ffmpeg exits successfully while streaming, the session ends
///   cleanly; a read failure or a failing exit while streaming ends it with
///   a failure.
/// - Any failure before the first frame, including any exit of ffmpeg, ends
///   the attempt: the next transport is tried, or the session ends with
///   that failure when none is left.
pub open spec fn capture_step(
    before: CaptureSession,
    ev: CaptureEvent,
    r: CaptureAction,
    after: CaptureSession,
) -> bool {
    &&& after.transports() == before.transports()
    &&& match ev {
        CaptureEvent::Data(bytes) => {
            let d = drain_jpegs(before.pending() + bytes@);
            &&& r matches CaptureAction::Publish { frames, first_frame } && byte_vecs(
                frames@,
            ) == d.0 && first_frame == (!before.streaming() && d.0.len() > 0)
            &&& after.pending() == d.1
            &&& after.streaming() == (before.streaming() || d.0.len() > 0)
            &&& after.attempt() == before.attempt()
            &&& after.last_failure() == before.last_failure()
        },
        CaptureEvent::ReadFailed if before.streaming() => {
            &&& r == CaptureAction::Finish(CaptureFailure::ReadFailedWhileStreaming)
            &&& after == before
        },
        CaptureEvent::Exited { success } if before.streaming() => {
            &&& r == if success {
                CaptureAction::Done
            } else {
                CaptureAction::Finish(CaptureFailure::ExitedWhileStreaming)
            }
            &&& after == before
        },
        _ => {
            let f = attempt_failure(ev);
            &&& after.last_failure() == Some(f)
            &&& !after.streaming()
            &&& after.pending() == Seq::<u8>::empty()
            &&& after.attempt() == if before.attempt() < before.transports().len() {
                before.attempt() + 1
            } else {
                before.attempt()
            }
            &&& after.attempt() < after.transports().len() ==> r is TryNext
            &&& after.attempt() >= after.transports().len() ==> r
                == CaptureAction::Finish(f)
        },
    }
}

/// Once an attempt is streaming, no later output or end of ffmpeg flags a
/// first frame again or moves on to another transport: frames keep being
/// published until the session ends, cleanly or with a failure.
pub proof fn lemma_first_frame_once(
    before: CaptureSession,
    ev: CaptureEvent,
    r: CaptureAction,
    after: CaptureSession,
)
    requires
        before.streaming(),
        ev is Data || ev is ReadFailed || ev is Exited,
        capture_step(before, ev, r, after),
    ensures
        r is Publish || r is Done || r is Finish,
        r matches CaptureAction::Publish { first_frame, .. } ==> !first_frame && after.streaming(),
{
}

/// A session ends cleanly only when ffmpeg exits successfully after the
/// attempt produced frames; every other end of a session is a failure.
pub proof fn lemma_clean_end(
    before: CaptureSession,
    ev: CaptureEvent,
    r: CaptureAction,
    after: CaptureSession,
)
    requires
        capture_step(before, ev, r, after),
    ensures
        r is Done <==> (before.streaming() && ev == CaptureEvent::Exited { success: true }),
{
}

impl CaptureSession {
    /// The transports to try, in order.
    pub closed spec fn transports(self) -> Seq<Option<String>> {
        self.transports@
    }

    /// The position of the current attempt among the transports.
    pub closed spec fn attempt(self) -> nat {
        self.attempt as nat
    }

    /// Whether the current attempt has produced a frame.
    pub closed spec fn streaming(self) -> bool {
        self.streaming
    }

    /// The bytes read but not yet part of a complete frame.
    pub closed spec fn pending(self) -> Seq<u8> {
        self.pending@
    }

    /// The failure of the latest failed attempt.
    pub closed spec fn last_failure(self) -> Option<CaptureFailure> {
        self.last_failure
    }

    /// A session that will try `transports` in order.
    pub fn new(transports: Vec<Option<String>>) -> (r: Self)
        ensures
            r.transports() == transports@,
            r.attempt() == 0,
            !r.streaming(),
            r.pending() == Seq::<u8>::empty(),
            r.last_failure() is None,
    {
        CaptureSession {
            transports,
            attempt: 0,
            streaming: false,
            pending: Vec::new(),
            last_failure: None,
        }
    }

    /// Whether the current attempt has produced a frame.
    pub fn is_streaming(&self) -> (r: bool)
        ensures
            r == self.streaming(),
    {
        self.streaming
    }

    /// The transport of the current attempt (`Some(None)` leaves the choice
    /// to ffmpeg), or `None` once every transport has been tried.
    pub fn current_transport(&self) -> (r: Option<Option<String>>)
        ensures
            self.attempt() < self.transports().len() ==> r == Some(
                self.transports()[self.attempt() as int],
            ),
            self.attempt() >= self.transports().len() ==> r is None,
    {
        if self.attempt < self.transports.len() {
            let t = match &self.transports[self.attempt] {
                Some(s) => Some(s.clone()),
                None => None,
            };
            Some(t)
        } else {
            None
        }
    }

    /// How the session ended when no transport is left: the latest
    /// attempt's failure, or `NoTransport` if there was none.
    pub fn failure(&self) -> (r: CaptureFailure)
        ensures
            r == match self.last_failure() {
                Some(f) => f,
                None => CaptureFailure::NoTransport,
            },
    {
        match self.last_failure {
            Some(f) => f,
            None => CaptureFailure::NoTransport,
        }
    }

    /// Gives up the current attempt with `f`: the next transport is tried,
    /// or the session ends when none is left.
    fn fail_attempt(&mut self, f: CaptureFailure) -> (r: CaptureAction)
        ensures
            final(self).transports() == old(self).transports(),
            final(self).last_failure() == Some(f),
            !final(self).streaming(),
            final(self).pending() == Seq::<u8>::empty(),
            old(self).attempt() < old(self).transports().len() ==> final(self).attempt() == old(
                self,
            ).attempt() + 1,
            old(self).attempt() >= old(self).transports().len() ==> final(self).attempt() == old(
                self,
            ).attempt(),
            final(self).attempt() < final(self).transports().len() ==> r is TryNext,
            final(self).attempt() >= final(self).transports().len() ==> r == CaptureAction::Finish(
                f,
            ),
    {
        self.last_failure = Some(f);
        self.streaming = false;
        self.pending = Vec::new();
        if self.attempt < self.transports.len() {
            self.attempt = self.attempt + 1;
        }
        if self.attempt < self.transports.len() {
            CaptureAction::TryNext
        } else {
            CaptureAction::Finish(f)
        }
    }

    /// Reacts to what the current ffmpeg process did.
    ///
    /// - Bytes are added to the pending ones and every complete frame is
    ///   published; the first frame of the session is flagged, and from then
    ///   on the attempt is streaming.
    /// - When ffmpeg exits successfully while streaming, the session ends
    ///   cleanly; a read failure or a failing exit while streaming ends it
    ///   with a failure.
    /// - Any failure before the first frame, including any exit of ffmpeg,
    ///   ends the attempt: the next transport is tried, or the session ends
    ///   with that failure when none is left.
    pub fn on_event(&mut self, ev: CaptureEvent) -> (r: CaptureAction)
        ensures
            capture_step(*old(self), ev, r, *final(self)),
    {
        match ev {
            CaptureEvent::Data(bytes) => {
                let frames = take_frames(&mut self.pending, bytes.as_slice());
                let first_frame = !self.streaming && frames.len() > 0;
                if frames.len() > 0 {
                    self.streaming = true;
                }
                CaptureAction::Publish { frames, first_frame }
            },
            CaptureEvent::ReadFailed => {
                if self.streaming {
                    CaptureAction::Finish(CaptureFailure::ReadFailedWhileStreaming)
                } else {
                    self.fail_attempt(CaptureFailure::ReadFailed)
                }
            },
            CaptureEvent::Exited { success } => {
                if self.streaming {
                    if success {
                        CaptureAction::Done
                    } else {
                        CaptureAction::Finish(CaptureFailure::ExitedWhileStreaming)
                    }
                } else {
                    self.fail_attempt(CaptureFailure::ExitedBeforeFirstFrame)
                }
            },
            CaptureEvent::SpawnFailed => self.fail_attempt(CaptureFailure::SpawnFailed),
            CaptureEvent::NoStdout => self.fail_attempt(CaptureFailure::NoStdout),
        }
    }
}

} // verus!
