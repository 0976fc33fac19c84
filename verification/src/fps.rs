//! Frame-rate measurement over intervals of at least two seconds.

use vstd::prelude::*;
use vstd::std_specs::convert::FromSpecImpl;
use std::time::{Duration, SystemTime, SystemTimeError};

verus! {

/// `std::time::SystemTime`, carried through as an opaque value.
#[verifier::external_type_specification]
#[verifier::external_body]
pub struct ExSystemTime(SystemTime);

/// `std::time::SystemTimeError`, carried through as an opaque value.
#[verifier::external_type_specification]
#[verifier::external_body]
pub struct ExSystemTimeError(SystemTimeError);

/// `SystemTime::now` reads the system clock. Nothing is claimed of the
/// reading.
pub assume_specification[ SystemTime::now ]() -> (now: SystemTime)
;

/// `Duration::as_micros` gives the whole microseconds of a duration.
/// Nothing is claimed of the number.
pub assume_specification[ Duration::as_micros ](duration: &Duration) -> (micros: u128)
;

/// Calls `SystemTime::duration_since` with the Unix epoch as the earlier
/// time. It fails when `time` lies before the epoch; nothing is claimed
/// of the duration.
#[verifier::external_body]
fn since_epoch(time: &SystemTime) -> (r: Result<Duration, SystemTimeError>) {
    time.duration_since(std::time::UNIX_EPOCH)
}

/// The shortest span of time, in microseconds, over which a rate is
/// measured.
pub const INTERVAL: u128 = 2_000_000;

/// What one update of the counter reports.
#[derive(Copy, Clone, PartialEq, Eq, Debug, Structural)]
pub enum FpsRet {
    /// No rate has been measured yet.
    NotReady,
    /// The interval is still running; the last measured rate is repeated.
    NotUpdated(i32),
    /// An interval has ended; this is the rate measured over it.
    Update(i32),
}

/// The mathematical content of a frame counter.
pub struct FpsView {
    /// When the running interval began, in microseconds; zero before the
    /// first update.
    pub last_time: int,
    /// The frames counted in the running interval.
    pub frame_count: int,
    /// The last measured rate; zero when there is none.
    pub fps: int,
}

/// Frames per second over `elapsed` microseconds, rounded to the nearest
/// whole number, halves upwards.
pub open spec fn rate(frames: int, elapsed: int) -> int {
    let scaled = frames * 1_000_000;
    scaled / elapsed + if 2 * (scaled % elapsed) >= elapsed {
        1int
    } else {
        0int
    }
}

/// What is reported while no interval has ended.
pub open spec fn standing(v: FpsView) -> FpsRet {
    if v.fps == 0 {
        FpsRet::NotReady
    } else {
        FpsRet::NotUpdated(v.fps as i32)
    }
}

/// The counter and the report after a frame at time `now`. The frame is
/// counted first. If an interval is running and has lasted at least
/// [`INTERVAL`], the rate over it is measured and reported, and a new
/// interval begins at `now`. Otherwise the first frame ever seen starts
/// the interval, and the standing report is given.
pub open spec fn step(v: FpsView, now: int) -> (FpsView, FpsRet) {
    let frames = v.frame_count + 1;
    if v.last_time != 0 && now - v.last_time >= INTERVAL {
        let fps = rate(frames, now - v.last_time);
        (FpsView { last_time: now, frame_count: 0, fps }, FpsRet::Update(fps as i32))
    } else {
        let started = if v.last_time == 0 {
            now
        } else {
            v.last_time
        };
        (FpsView { last_time: started, frame_count: frames, fps: v.fps }, standing(v))
    }
}

/// A frame at `now` can be counted: the frame count has room for it and
/// the clock has not gone backwards.
pub open spec fn can_step(v: FpsView, now: int) -> bool {
    v.frame_count < i32::MAX && v.last_time <= now
}

/// A frame counter.
#[derive(Copy, Clone)]
pub struct Fps {
    last_time: u128,
    frame_count: i32,
    fps: i32,
}

impl View for Fps {
    type V = FpsView;

    closed spec fn view(&self) -> FpsView {
        FpsView {
            last_time: self.last_time as int,
            frame_count: self.frame_count as int,
            fps: self.fps as int,
        }
    }
}

/// A measured rate is at most half the number of frames, rounded up,
/// because an interval lasts at least two seconds.
proof fn lemma_rate_is_bounded(frames: int, elapsed: int)
    requires
        0 <= frames,
        INTERVAL <= elapsed,
    ensures
        0 <= rate(frames, elapsed) <= frames / 2 + 1,
{
    let scaled = frames * 1_000_000;
    let q = scaled / elapsed;
    vstd::arithmetic::div_mod::lemma_fundamental_div_mod(scaled, elapsed);
    vstd::arithmetic::div_mod::lemma_mod_bound(scaled, elapsed);
    assert(elapsed * q >= 2_000_000 * q || q < 0) by (nonlinear_arith)
        requires
            elapsed >= 2_000_000,
    ;
    assert(q >= 0) by (nonlinear_arith)
        requires
            scaled == elapsed * q + scaled % elapsed,
            0 <= scaled,
            scaled % elapsed < elapsed,
            elapsed > 0,
    ;
}

impl Fps {
    #[verifier::type_invariant]
    spec fn inv(&self) -> bool {
        0 <= self.frame_count && 0 <= self.fps
    }

    /// A counter that has seen no frame.
    pub fn new() -> (counter: Fps)
        ensures
            counter@ == (FpsView { last_time: 0, frame_count: 0, fps: 0 }),
    {
        Fps { last_time: 0, frame_count: 0, fps: 0 }
    }

    /// The last measured rate; zero when there is none.
    pub fn fps(&self) -> (fps: i32)
        ensures
            fps == self@.fps,
            0 <= fps,
    {
        proof {
            use_type_invariant(self);
        }
        self.fps
    }

    /// The frames counted in the running interval.
    pub fn frame_count(&self) -> (count: i32)
        ensures
            count == self@.frame_count,
            0 <= count,
    {
        proof {
            use_type_invariant(self);
        }
        self.frame_count
    }

    /// When the running interval began, in microseconds since the epoch.
    pub fn last_time(&self) -> (time: u128)
        ensures
            time == self@.last_time,
    {
        self.last_time
    }

    /// Counts a frame shown at `cur_time`, in microseconds.
    pub fn update_at(&mut self, cur_time: u128) -> (r: FpsRet)
        requires
            can_step(old(self)@, cur_time as int),
        ensures
            (final(self)@, r) == step(old(self)@, cur_time as int),
    {
        proof {
            use_type_invariant(&*self);
        }
        let frames: i32 = self.frame_count + 1;
        if self.last_time != 0 {
            let elapsed: u128 = cur_time - self.last_time;
            if elapsed >= INTERVAL {
                let scaled: u128 = frames as u128 * 1_000_000;
                let quotient: u128 = scaled / elapsed;
                let remainder: u128 = scaled % elapsed;
                proof {
                    vstd::arithmetic::div_mod::lemma_mod_decreases(scaled as nat, elapsed as nat);
                }
                let rounded: u128 = if 2 * remainder >= elapsed {
                    quotient + 1
                } else {
                    quotient
                };
                proof {
                    lemma_rate_is_bounded(frames as int, elapsed as int);
                }
                self.fps = rounded as i32;
                self.last_time = cur_time;
                self.frame_count = 0;
                return FpsRet::Update(self.fps);
            }
            self.frame_count = frames;
        } else {
            self.frame_count = frames;
            self.last_time = cur_time;
        }
        if self.fps == 0 {
            FpsRet::NotReady
        } else {
            FpsRet::NotUpdated(self.fps)
        }
    }

    /// Counts a frame shown now, by the system clock. Where the clock
    /// cannot be read as a time since the epoch, has gone backwards past
    /// the start of the running interval, or the frame count is full, the
    /// counter is left as it was and the standing report is given.
    pub fn update(&mut self) -> (r: FpsRet)
        ensures
            (final(self)@ == old(self)@ && r == standing(old(self)@)) || (exists|now: int|
                can_step(old(self)@, now) && (final(self)@, r) == #[trigger] step(
                    old(self)@,
                    now,
                )),
    {
        proof {
            use_type_invariant(&*self);
        }
        let time: SystemTime = SystemTime::now();
        match since_epoch(&time) {
            Ok(duration) => {
                let cur_time: u128 = duration.as_micros();
                if self.frame_count < i32::MAX && self.last_time <= cur_time {
                    self.update_at(cur_time)
                } else {
                    self.standing_report()
                }
            },
            Err(_) => self.standing_report(),
        }
    }

    fn standing_report(&self) -> (r: FpsRet)
        ensures
            r == standing(self@),
    {
        if self.fps == 0 {
            FpsRet::NotReady
        } else {
            FpsRet::NotUpdated(self.fps)
        }
    }
}

impl Default for Fps {
    fn default() -> (counter: Fps)
        ensures
            counter@ == (FpsView { last_time: 0, frame_count: 0, fps: 0 }),
    {
        Fps::new()
    }
}

impl From<Fps> for i32 {
    fn from(val: Fps) -> (fps: i32) {
        val.fps()
    }
}

impl FromSpecImpl<Fps> for i32 {
    open spec fn obeys_from_spec() -> bool {
        true
    }

    open spec fn from_spec(val: Fps) -> i32 {
        val@.fps as i32
    }
}

} // verus!
