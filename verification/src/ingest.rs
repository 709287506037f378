//! The logger's cycle: what to do after each read from the receiver.
//!
//! The caller reads, tells the outcome and the time, and carries out the
//! plan that comes back: append, rotate the segment file at the turn of the
//! hour, flush and report at their intervals.

use crate::hours::{floor_to_hour, hour_start, ConversionJob, MAX_TIME, MIN_TIME};
use vstd::prelude::*;

verus! {

/// The smallest read buffer that is used.
pub const MIN_READ_BUFFER: usize = 1024;

/// What a read from the receiver gave.
#[derive(Clone, Copy, Debug, PartialEq, Eq, Structural)]
pub enum ReadOutcome {
    /// So many bytes arrived.
    Data(usize),
    /// Nothing arrived within the timeout.
    Idle,
    /// The receiver cannot be read any more.
    Failed,
}

/// The turn of an hour: the segment of the closed hour is flushed and
/// closed, a new one is opened under the stamp of `open_at`, and the closed
/// hour is handed over for conversion.
#[derive(Clone, Copy, Debug, PartialEq, Eq, Structural)]
pub struct Rotation {
    pub closed: ConversionJob,
    pub open_at: i64,
}

/// The throughput to report: all bytes so far, and the bytes of the
/// window that ends now with its length in milliseconds.
#[derive(Clone, Copy, Debug, PartialEq, Eq, Structural)]
pub struct StatsReport {
    pub total_bytes: u64,
    pub window_bytes: u64,
    pub window_ms: u64,
}

/// What to do in one cycle, in this order: stop at once if `fatal`; append
/// the first `append` bytes of the buffer to the segment and feed them to
/// the monitor; rotate; flush; report.
#[derive(Clone, Copy, Debug, PartialEq, Eq, Structural)]
pub struct CyclePlan {
    pub fatal: bool,
    pub append: usize,
    pub rotation: Option<Rotation>,
    pub flush: bool,
    pub stats: Option<StatsReport>,
}

/// The logger between two cycles.
#[derive(Clone, Copy, Debug, PartialEq, Eq, Structural)]
pub struct LoggerState {
    /// The start of the hour whose segment is open.
    pub active_hour: i64,
    pub total_bytes: u64,
    /// The bytes since the last report.
    pub window_bytes: u64,
    /// The steady clock, in milliseconds, at the last flush.
    pub last_flush_ms: u64,
    /// The steady clock at the last report.
    pub last_stats_ms: u64,
    /// Milliseconds between flushes; at least a second.
    pub flush_interval_ms: u64,
    /// Milliseconds between reports; zero for none.
    pub stats_interval_ms: u64,
}

/// An interval given in seconds, in milliseconds; what is too long for the
/// counter counts as the longest.
pub open spec fn interval_ms(secs: u64) -> u64 {
    if secs as int * 1000 > u64::MAX {
        u64::MAX
    } else {
        (secs * 1000) as u64
    }
}

/// The sum of two counters; a sum too long for the counter counts as the
/// longest.
pub open spec fn counted(a: u64, b: int) -> u64 {
    if a + b > u64::MAX {
        u64::MAX
    } else {
        (a + b) as u64
    }
}

/// The time between two readings of the steady clock; none if the clock
/// were to run backwards.
pub open spec fn since(now_ms: u64, then_ms: u64) -> u64 {
    if now_ms >= then_ms {
        (now_ms - then_ms) as u64
    } else {
        0
    }
}

/// The size of the read buffer for a size asked for.
pub fn read_buffer_len(read_buffer_bytes: usize) -> (r: usize)
    ensures
        r == if read_buffer_bytes > MIN_READ_BUFFER {
            read_buffer_bytes
        } else {
            MIN_READ_BUFFER
        },
{
    if read_buffer_bytes > MIN_READ_BUFFER {
        read_buffer_bytes
    } else {
        MIN_READ_BUFFER
    }
}

/// The logger as it starts at `now` (seconds since 1970) with the steady
/// clock at `now_ms`: the hour of `now` is open, nothing has been written. A
/// flush interval of zero counts as one second; a report interval of zero
/// switches the reports off.
pub open spec fn started(
    now: i64,
    now_ms: u64,
    flush_interval_secs: u64,
    stats_interval_secs: u64,
) -> LoggerState {
    LoggerState {
        active_hour: hour_start(now as int) as i64,
        total_bytes: 0,
        window_bytes: 0,
        last_flush_ms: now_ms,
        last_stats_ms: now_ms,
        flush_interval_ms: interval_ms(
            if flush_interval_secs == 0 {
                1
            } else {
                flush_interval_secs
            },
        ),
        stats_interval_ms: interval_ms(stats_interval_secs),
    }
}

/// The plan of a cycle and the logger after it.
///
/// A failed read is fatal and changes nothing. Otherwise the bytes read
/// are appended and counted; if the hour of `now` is not the open hour, the
/// segment is rotated and the closed hour handed over; a flush is due when
/// the flush interval has passed since the last one; a report is due when
/// reports are on and their interval has passed.
pub open spec fn cycle(s: LoggerState, read: ReadOutcome, now: i64, now_ms: u64) -> (
    LoggerState,
    CyclePlan,
) {
    match read {
        ReadOutcome::Failed => (
            s,
            CyclePlan { fatal: true, append: 0, rotation: None, flush: false, stats: None },
        ),
        _ => {
            let n: usize = match read {
                ReadOutcome::Data(n) => n,
                _ => 0,
            };
            let total = counted(s.total_bytes, n as int);
            let window = counted(s.window_bytes, n as int);
            let hour = hour_start(now as int) as i64;
            let rotation = if hour != s.active_hour {
                Some(Rotation { closed: ConversionJob { hour_start: s.active_hour }, open_at: now })
            } else {
                None
            };
            let flush = since(now_ms, s.last_flush_ms) >= s.flush_interval_ms;
            let report = s.stats_interval_ms != 0 && since(now_ms, s.last_stats_ms)
                >= s.stats_interval_ms;
            (
                LoggerState {
                    active_hour: hour,
                    total_bytes: total,
                    window_bytes: if report {
                        0
                    } else {
                        window
                    },
                    last_flush_ms: if flush {
                        now_ms
                    } else {
                        s.last_flush_ms
                    },
                    last_stats_ms: if report {
                        now_ms
                    } else {
                        s.last_stats_ms
                    },
                    flush_interval_ms: s.flush_interval_ms,
                    stats_interval_ms: s.stats_interval_ms,
                },
                CyclePlan {
                    fatal: false,
                    append: n,
                    rotation,
                    flush,
                    stats: if report {
                        Some(
                            StatsReport {
                                total_bytes: total,
                                window_bytes: window,
                                window_ms: since(now_ms, s.last_stats_ms),
                            },
                        )
                    } else {
                        None
                    },
                },
            )
        },
    }
}

/// Seconds as milliseconds, without overflow.
fn to_interval_ms(secs: u64) -> (r: u64)
    ensures
        r == interval_ms(secs),
{
    if secs > u64::MAX / 1000 {
        u64::MAX
    } else {
        secs * 1000
    }
}

/// Adds to a counter, without overflow.
fn count(a: u64, b: usize) -> (r: u64)
    ensures
        r == counted(a, b as int),
{
    let b64: u64 = b as u64;
    if a > u64::MAX - b64 {
        u64::MAX
    } else {
        a + b64
    }
}

/// The time between two readings of the steady clock.
fn elapsed_ms(now_ms: u64, then_ms: u64) -> (r: u64)
    ensures
        r == since(now_ms, then_ms),
{
    if now_ms >= then_ms {
        now_ms - then_ms
    } else {
        0
    }
}

impl LoggerState {
    /// Starts the logger: the segment opened now belongs to the hour of
    /// `now`.
    pub fn start(now: i64, now_ms: u64, flush_interval_secs: u64, stats_interval_secs: u64) -> (r:
        Self)
        requires
            MIN_TIME <= now <= MAX_TIME,
        ensures
            r == started(now, now_ms, flush_interval_secs, stats_interval_secs),
    {
        LoggerState {
            active_hour: floor_to_hour(now),
            total_bytes: 0,
            window_bytes: 0,
            last_flush_ms: now_ms,
            last_stats_ms: now_ms,
            flush_interval_ms: to_interval_ms(
                if flush_interval_secs == 0 {
                    1
                } else {
                    flush_interval_secs
                },
            ),
            stats_interval_ms: to_interval_ms(stats_interval_secs),
        }
    }

    /// Plans one cycle after a read at `now`, with the steady clock at
    /// `now_ms`.
    pub fn step(&mut self, read: ReadOutcome, now: i64, now_ms: u64) -> (plan: CyclePlan)
        requires
            MIN_TIME <= now <= MAX_TIME,
        ensures
            (*final(self), plan) == cycle(*old(self), read, now, now_ms),
    {
        let n: usize = match read {
            ReadOutcome::Failed => {
                return CyclePlan {
                    fatal: true,
                    append: 0,
                    rotation: None,
                    flush: false,
                    stats: None,
                };
            },
            ReadOutcome::Data(n) => n,
            ReadOutcome::Idle => 0,
        };
        let total = count(self.total_bytes, n);
        let window = count(self.window_bytes, n);
        let hour = floor_to_hour(now);
        let rotation = if hour != self.active_hour {
            Some(Rotation { closed: ConversionJob { hour_start: self.active_hour }, open_at: now })
        } else {
            None
        };
        let flush = elapsed_ms(now_ms, self.last_flush_ms) >= self.flush_interval_ms;
        let window_ms = elapsed_ms(now_ms, self.last_stats_ms);
        let report = self.stats_interval_ms != 0 && window_ms >= self.stats_interval_ms;
        self.active_hour = hour;
        self.total_bytes = total;
        self.window_bytes = if report {
            0
        } else {
            window
        };
        if flush {
            self.last_flush_ms = now_ms;
        }
        if report {
            self.last_stats_ms = now_ms;
        }
        CyclePlan {
            fatal: false,
            append: n,
            rotation,
            flush,
            stats: if report {
                Some(StatsReport { total_bytes: total, window_bytes: window, window_ms })
            } else {
                None
            },
        }
    }
}

/// The rotation law. A cycle rotates exactly when the hour of `now` is not
/// the open hour; it then closes the one open segment, opens one new
/// segment at `now`, and hands over one job, for the hour that was open.
/// Afterwards the hour of `now` is the open hour, so the next cycle within
/// that hour does not rotate again.
pub proof fn lemma_rotation(s: LoggerState, read: ReadOutcome, now: i64, now_ms: u64)
    requires
        read != ReadOutcome::Failed,
        MIN_TIME <= now <= MAX_TIME,
    ensures
        ({
            let (next, plan) = cycle(s, read, now, now_ms);
            &&& plan.rotation.is_some() <==> hour_start(now as int) != s.active_hour
            &&& plan.rotation.is_some() ==> plan.rotation.unwrap() == (Rotation {
                closed: ConversionJob { hour_start: s.active_hour },
                open_at: now,
            })
            &&& next.active_hour == hour_start(now as int)
            &&& forall|read2: ReadOutcome, now2: i64, now2_ms: u64|
                hour_start(now2 as int) == hour_start(now as int) ==> (#[trigger] cycle(
                    next,
                    read2,
                    now2,
                    now2_ms,
                )).1.rotation.is_none()
        }),
{
    let t = now as int;
    assert(-0x4000_0000_0000_0000 - 3600 <= hour_start(t) <= 0x4000_0000_0000_0000);
}

} // verus!
