use vstd::prelude::*;

verus! {

/// The outcome of one poll while waiting for a received byte.
#[derive(Debug, Clone, Copy, PartialEq, Eq, Structural)]
pub enum Wait {
    /// A byte is ready to be read.
    Ready,
    /// No byte came within the configured timeout.
    TimedOut,
    /// No byte yet: poll again.
    Pending,
}

/// Time from `start` to `now` in the timer's unit, zero if the timer reads
/// less than `start`.
pub open spec fn elapsed(start: u64, now: u64) -> u64 {
    if now >= start {
        (now - start) as u64
    } else {
        0
    }
}

/// The outcome of a poll that saw `has_byte`, at time `now` of a wait that
/// began at `start`, under read timeout `timeout` (none: wait forever).
pub open spec fn wait_outcome(timeout: Option<u64>, start: u64, now: u64, has_byte: bool) -> Wait {
    if has_byte {
        Wait::Ready
    } else {
        match timeout {
            Some(t) => if elapsed(start, now) >= t {
                Wait::TimedOut
            } else {
                Wait::Pending
            },
            None => Wait::Pending,
        }
    }
}

/// Decides one poll of a wait for a received byte. A wait without timeout
/// never times out, and one with timeout `t` times out only once `t` has
/// elapsed since it began.
pub fn wait_step(timeout: Option<u64>, start: u64, now: u64, has_byte: bool) -> (r: Wait)
    ensures
        r == wait_outcome(timeout, start, now, has_byte),
        r is TimedOut ==> timeout is Some && elapsed(start, now) >= timeout->Some_0,
        timeout is None ==> !(r is TimedOut),
{
    if has_byte {
        return Wait::Ready;
    }
    match timeout {
        Some(t) => {
            if now.saturating_sub(start) >= t {
                Wait::TimedOut
            } else {
                Wait::Pending
            }
        },
        None => Wait::Pending,
    }
}

/// Whether a bulk read that has filled `filled` of `capacity` bytes takes
/// one more: only a byte that is already there, and only while room is left.
pub fn read_more(filled: usize, capacity: usize, has_byte: bool) -> (r: bool)
    ensures
        r == (filled < capacity && has_byte),
{
    filled < capacity && has_byte
}

/// `s` with each line feed preceded by a carriage return.
pub open spec fn with_crlf(s: Seq<u8>) -> Seq<u8>
    decreases s.len(),
{
    if s.len() == 0 {
        Seq::empty()
    } else if s.last() == 0x0a {
        with_crlf(s.drop_last()) + seq![0x0du8, 0x0au8]
    } else {
        with_crlf(s.drop_last()).push(s.last())
    }
}

/// The bytes to send for text `s`: each line feed goes out as a carriage
/// return and a line feed.
pub fn crlf(s: &[u8]) -> (r: Vec<u8>)
    ensures
        r@ == with_crlf(s@),
{
    let mut out: Vec<u8> = Vec::new();
    let mut i: usize = 0;
    while i < s.len()
        invariant
            i <= s@.len(),
            out@ == with_crlf(s@.subrange(0, i as int)),
        decreases s@.len() - i,
    {
        let b = s[i];
        proof {
            assert(s@.subrange(0, i + 1).drop_last() =~= s@.subrange(0, i as int));
        }
        if b == 0x0a {
            out.push(0x0d);
        }
        out.push(b);
        i = i + 1;
        proof {
            assert(out@ =~= with_crlf(s@.subrange(0, i as int)));
        }
    }
    proof {
        assert(s@.subrange(0, i as int) =~= s@);
    }
    out
}

} // verus!
