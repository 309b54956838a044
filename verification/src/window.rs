//! A bounded window onto a seekable file.
//!
//! A [BoundedWindow] constrains the region of a file that is accessible, as a slice does for a
//! buffer: reads and seeks stay within `[lower, upper]` of the underlying file, and positions are
//! reported relative to `lower`.  The window keeps the position `pos` of the underlying file's
//! cursor; the file itself is held and moved by the caller, which performs the seeks and reads the
//! window asks for.
use crate::constant::SMALL_FILE_MAX_SIZE;
use crate::error::{AnonLocErr, IoError, IoErrorKind};
use vstd::prelude::*;

verus! {

/// The abstract state of a window: its bounds and the absolute cursor position.
pub struct WindowState {
    pub lower: u64,
    pub upper: u64,
    pub pos: u64,
}

/// A window is well formed when the cursor lies within its bounds.
pub open spec fn valid_window(s: WindowState) -> bool {
    s.lower <= s.pos <= s.upper
}

/// Where a seek is measured from (as `std::io::SeekFrom`), relative to the window.
#[derive(Clone, Copy, Debug, PartialEq, Eq, Structural)]
pub enum SeekOrigin {
    /// An offset from the window's lower bound.
    Start(u64),
    /// An offset from the window's upper bound.
    End(i64),
    /// An offset from the current position.
    Current(i64),
}

/// `base + offset`, when that lies within `u64`.
pub open spec fn signed_sum(base: u64, offset: i64) -> Option<u64> {
    let s = base + offset;
    if 0 <= s <= u64::MAX {
        Some(s as u64)
    } else {
        None
    }
}

/// The absolute position a seek aims at, when it can be computed without overflow.
pub open spec fn seek_aim(s: WindowState, from: SeekOrigin) -> Option<u64> {
    match from {
        SeekOrigin::Start(n) => if s.lower + n <= u64::MAX {
            Some((s.lower + n) as u64)
        } else {
            None
        },
        SeekOrigin::End(n) => signed_sum(s.upper, n),
        SeekOrigin::Current(n) => signed_sum(s.pos, n),
    }
}

/// A seek succeeds when its aim is computable and within the window.
pub open spec fn seek_allowed(s: WindowState, from: SeekOrigin) -> bool {
    seek_aim(s, from) matches Some(t) && s.lower <= t <= s.upper
}

/// The message of a rejected bound change or seek outside the window.
pub open spec fn out_of_bounds_message() -> Seq<char> {
    "Seek position is out of bounds"@
}

/// The message of a seek whose aim overflows.
pub open spec fn overflow_message() -> Seq<char> {
    "Seek position overflow"@
}

/// An invalid-input I/O error with the given message and no OS error number.
pub open spec fn invalid_input(e: IoError, msg: Seq<char>) -> bool {
    e.kind == IoErrorKind::InvalidInput && e.raw_os_error is None && e.message@ == msg
}

/// A rejected bound change.
pub open spec fn bound_error(e: AnonLocErr) -> bool {
    e matches AnonLocErr::Seek(io) && invalid_input(io, out_of_bounds_message())
}

fn out_of_bounds() -> (e: IoError)
    ensures
        invalid_input(e, out_of_bounds_message()),
{
    IoError {
        kind: IoErrorKind::InvalidInput,
        raw_os_error: None,
        message: "Seek position is out of bounds".to_owned(),
    }
}

fn overflow() -> (e: IoError)
    ensures
        invalid_input(e, overflow_message()),
{
    IoError {
        kind: IoErrorKind::InvalidInput,
        raw_os_error: None,
        message: "Seek position overflow".to_owned(),
    }
}

/// `base + offset`, or `None` when the sum leaves `u64`.
pub fn checked_signed_add(base: u64, offset: i64) -> (r: Option<u64>)
    ensures
        r == signed_sum(base, offset),
{
    if offset >= 0 {
        base.checked_add(offset as u64)
    } else {
        let magnitude: u64 = ((-(offset + 1)) as u64) + 1;
        base.checked_sub(magnitude)
    }
}

/// The bounds and cursor of a window onto a file.
pub struct BoundedWindow {
    lower: u64,
    upper: u64,
    pos: u64,
}

impl View for BoundedWindow {
    type V = WindowState;

    closed spec fn view(&self) -> WindowState {
        WindowState { lower: self.lower, upper: self.upper, pos: self.pos }
    }
}

impl BoundedWindow {
    #[verifier::type_invariant]
    spec fn well_formed(self) -> bool {
        self.lower <= self.pos <= self.upper
    }

    /// The window over a whole file of `len` bytes, with the cursor at its start (a freshly
    /// opened file).
    pub fn from_len(len: u64) -> (w: Self)
        ensures
            w@ == (WindowState { lower: 0, upper: len, pos: 0 }),
            valid_window(w@),
    {
        BoundedWindow { lower: 0, upper: len, pos: 0 }
    }

    /// A window with the given bounds and cursor, when the cursor lies within the bounds.
    pub fn from_parts(lower: u64, upper: u64, pos: u64) -> (r: Option<Self>)
        ensures
            r is Some <==> lower <= pos <= upper,
            r matches Some(w) ==> w@ == (WindowState { lower, upper, pos }),
    {
        if lower <= pos && pos <= upper {
            Some(BoundedWindow { lower, upper, pos })
        } else {
            None
        }
    }

    /// The lower bound, as an absolute offset in the file.
    pub fn lower(&self) -> (r: u64)
        ensures
            r == self@.lower,
    {
        self.lower
    }

    /// The upper bound, as an absolute offset in the file.
    pub fn upper(&self) -> (r: u64)
        ensures
            r == self@.upper,
    {
        self.upper
    }

    /// The cursor, as an absolute offset in the file.
    pub fn pos(&self) -> (r: u64)
        ensures
            r == self@.pos,
    {
        self.pos
    }

    /// The number of bytes between the cursor and the upper bound.
    pub fn remaining(&self) -> (r: u64)
        ensures
            valid_window(self@),
            r == self@.upper - self@.pos,
    {
        proof {
            use_type_invariant(self);
        }
        self.upper - self.pos
    }

    /// Moves the lower bound up by `offset`.  It may not pass the upper bound.  A cursor left
    /// below the new lower bound is moved to it; the result says whether it was, in which case
    /// the caller repositions the file there.  On error nothing changes.
    pub fn increase_lower_bound_by(&mut self, offset: u64) -> (r: Result<bool, AnonLocErr>)
        ensures
            valid_window(final(self)@),
            r is Ok <==> old(self)@.lower + offset <= old(self)@.upper,
            r matches Err(e) ==> bound_error(e) && final(self)@ == old(self)@,
            r matches Ok(moved) ==> {
                let new_lower = (old(self)@.lower + offset) as u64;
                &&& final(self)@.lower == new_lower
                &&& final(self)@.upper == old(self)@.upper
                &&& moved == (old(self)@.pos < new_lower)
                &&& final(self)@.pos == if moved {
                    new_lower
                } else {
                    old(self)@.pos
                }
            },
    {
        proof {
            use_type_invariant(&*self);
        }
        let new_lower = match self.lower.checked_add(offset) {
            Some(l) => l,
            None => {
                return Err(AnonLocErr::Seek(out_of_bounds()));
            },
        };
        if new_lower > self.upper {
            return Err(AnonLocErr::Seek(out_of_bounds()));
        }
        if self.pos < new_lower {
            *self = BoundedWindow { lower: new_lower, upper: self.upper, pos: new_lower };
            Ok(true)
        } else {
            *self = BoundedWindow { lower: new_lower, upper: self.upper, pos: self.pos };
            Ok(false)
        }
    }

    /// Moves the upper bound down by `offset`.  It may not pass the lower bound.  A cursor left
    /// above the new upper bound is moved to it; the result says whether it was, in which case
    /// the caller repositions the file there.  On error nothing changes.
    pub fn decrease_upper_bound_by(&mut self, offset: u64) -> (r: Result<bool, AnonLocErr>)
        ensures
            valid_window(final(self)@),
            r is Ok <==> old(self)@.upper - offset >= old(self)@.lower,
            r matches Err(e) ==> bound_error(e) && final(self)@ == old(self)@,
            r matches Ok(moved) ==> {
                let new_upper = (old(self)@.upper - offset) as u64;
                &&& final(self)@.lower == old(self)@.lower
                &&& final(self)@.upper == new_upper
                &&& moved == (old(self)@.pos > new_upper)
                &&& final(self)@.pos == if moved {
                    new_upper
                } else {
                    old(self)@.pos
                }
            },
    {
        proof {
            use_type_invariant(&*self);
        }
        let new_upper = match self.upper.checked_sub(offset) {
            Some(u) => u,
            None => {
                return Err(AnonLocErr::Seek(out_of_bounds()));
            },
        };
        if new_upper < self.lower {
            return Err(AnonLocErr::Seek(out_of_bounds()));
        }
        if self.pos > new_upper {
            *self = BoundedWindow { lower: self.lower, upper: new_upper, pos: new_upper };
            Ok(true)
        } else {
            *self = BoundedWindow { lower: self.lower, upper: new_upper, pos: self.pos };
            Ok(false)
        }
    }

    /// Moves the upper bound up by `offset`; the cursor stays.  On error (overflow) nothing
    /// changes.
    pub fn increase_upper_bound_by(&mut self, offset: u64) -> (r: Result<(), AnonLocErr>)
        ensures
            valid_window(final(self)@),
            r is Ok <==> old(self)@.upper + offset <= u64::MAX,
            r matches Err(e) ==> bound_error(e) && final(self)@ == old(self)@,
            r is Ok ==> final(self)@ == (WindowState {
                upper: (old(self)@.upper + offset) as u64,
                ..old(self)@
            }),
    {
        proof {
            use_type_invariant(&*self);
        }
        match self.upper.checked_add(offset) {
            Some(u) => {
                self.upper = u;
                Ok(())
            },
            None => Err(AnonLocErr::Seek(out_of_bounds())),
        }
    }

    /// The absolute position a seek leads to: an overflow error when it cannot be computed, an
    /// out-of-bounds error when it leaves the window.  The window does not move.
    pub fn seek_target(&self, from: SeekOrigin) -> (r: Result<u64, IoError>)
        ensures
            r is Ok <==> seek_allowed(self@, from),
            r matches Ok(t) ==> seek_aim(self@, from) == Some(t),
            r matches Err(e) ==> if seek_aim(self@, from) is None {
                invalid_input(e, overflow_message())
            } else {
                invalid_input(e, out_of_bounds_message())
            },
    {
        let aim = match from {
            SeekOrigin::Start(n) => self.lower.checked_add(n),
            SeekOrigin::End(n) => checked_signed_add(self.upper, n),
            SeekOrigin::Current(n) => checked_signed_add(self.pos, n),
        };
        match aim {
            None => Err(overflow()),
            Some(t) => {
                if t < self.lower || t > self.upper {
                    Err(out_of_bounds())
                } else {
                    Ok(t)
                }
            },
        }
    }

    /// Records that the file's cursor is now at `abs` (within the window), and returns that
    /// position relative to the lower bound.
    pub fn set_pos(&mut self, abs: u64) -> (r: u64)
        requires
            old(self)@.lower <= abs <= old(self)@.upper,
        ensures
            valid_window(final(self)@),
            final(self)@ == (WindowState { pos: abs, ..old(self)@ }),
            r == abs - old(self)@.lower,
    {
        self.pos = abs;
        abs - self.lower
    }

    /// Seeks within the window: on success the cursor moves to the aim and the position
    /// relative to the lower bound is returned; on error the cursor stays.
    pub fn seek(&mut self, from: SeekOrigin) -> (r: Result<u64, IoError>)
        ensures
            valid_window(final(self)@),
            r is Ok <==> seek_allowed(old(self)@, from),
            r is Err ==> final(self)@ == old(self)@,
            r matches Ok(rel) ==> {
                let t = seek_aim(old(self)@, from).unwrap();
                &&& final(self)@ == (WindowState { pos: t, ..old(self)@ })
                &&& rel == t - old(self)@.lower
            },
            r matches Err(e) ==> if seek_aim(old(self)@, from) is None {
                invalid_input(e, overflow_message())
            } else {
                invalid_input(e, out_of_bounds_message())
            },
    {
        proof {
            use_type_invariant(&*self);
        }
        match self.seek_target(from) {
            Ok(t) => Ok(self.set_pos(t)),
            Err(e) => Err(e),
        }
    }

    /// How many bytes a read into a buffer of `buf_len` bytes may take from the file: as many
    /// as fit, but none past the upper bound.
    pub fn read_len(&self, buf_len: usize) -> (r: usize)
        ensures
            valid_window(self@),
            r as int == if buf_len < self@.upper - self@.pos {
                buf_len as int
            } else {
                self@.upper - self@.pos
            },
    {
        proof {
            use_type_invariant(self);
        }
        let remaining = self.upper - self.pos;
        if (buf_len as u64) < remaining {
            buf_len
        } else {
            remaining as usize
        }
    }

    /// Records that a read took `n` bytes (at most what [Self::read_len] allowed) from the file.
    pub fn advance(&mut self, n: usize)
        requires
            n <= old(self)@.upper - old(self)@.pos,
        ensures
            valid_window(final(self)@),
            final(self)@ == (WindowState { pos: (old(self)@.pos + n) as u64, ..old(self)@ }),
    {
        proof {
            use_type_invariant(&*self);
        }
        self.pos = self.pos + n as u64;
    }

    /// The size limit for reading the rest of the window whole: an error when the remaining
    /// bytes exceed the small-file bound.
    pub fn small_read_limit(&self) -> (r: Result<u64, AnonLocErr>)
        ensures
            r is Ok <==> self@.upper - self@.pos <= SMALL_FILE_MAX_SIZE,
            r matches Ok(n) ==> n == SMALL_FILE_MAX_SIZE,
            r matches Err(e) ==> e == AnonLocErr::FileTooLarge(SMALL_FILE_MAX_SIZE),
    {
        let remaining = self.remaining();
        match ensure_small(remaining) {
            Ok(()) => Ok(SMALL_FILE_MAX_SIZE as u64),
            Err(e) => Err(e),
        }
    }
}

/// An error if the caller's notion of the remaining readable bytes exceeds the small-file bound.
pub fn ensure_small(logical_len: u64) -> (r: Result<(), AnonLocErr>)
    ensures
        r is Ok <==> logical_len <= SMALL_FILE_MAX_SIZE,
        r matches Err(e) ==> e == AnonLocErr::FileTooLarge(SMALL_FILE_MAX_SIZE),
{
    if logical_len > SMALL_FILE_MAX_SIZE as u64 {
        return Err(AnonLocErr::FileTooLarge(SMALL_FILE_MAX_SIZE));
    }
    Ok(())
}

/// The bytes left to read in a file of `len` bytes with its cursor at `pos` (none when the
/// cursor is past the end).
pub fn remaining_len(len: u64, pos: u64) -> (r: u64)
    ensures
        r == if pos <= len {
            (len - pos) as u64
        } else {
            0
        },
{
    len.saturating_sub(pos)
}

/// Seeking from the start succeeds exactly when the offset stays within the window's length,
/// and then lands at that offset from the lower bound.
pub proof fn lemma_seek_start_within_length(s: WindowState, n: u64)
    requires
        valid_window(s),
    ensures
        seek_allowed(s, SeekOrigin::Start(n)) <==> n <= s.upper - s.lower,
        seek_allowed(s, SeekOrigin::Start(n)) ==> seek_aim(s, SeekOrigin::Start(n)) == Some(
            (s.lower + n) as u64,
        ),
{
}

/// Seeking to the end of a window always succeeds and lands on its upper bound; seeking by
/// nothing from the current position always succeeds and stays put.
pub proof fn lemma_seek_end_and_current_zero(s: WindowState)
    requires
        valid_window(s),
    ensures
        seek_allowed(s, SeekOrigin::End(0)),
        seek_aim(s, SeekOrigin::End(0)) == Some(s.upper),
        seek_allowed(s, SeekOrigin::Current(0)),
        seek_aim(s, SeekOrigin::Current(0)) == Some(s.pos),
{
}

} // verus!
