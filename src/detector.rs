use vstd::prelude::*;

use crate::errors::ReplayError;
use crate::mask::{marked, shifted, Mask};

verus! {

/// The abstract state of a detector: the ceiling, the width of the trailing
/// window, the newest accepted number (0 before anything was accepted), and
/// `flags[d]`, whether `latest_seq - d` was accepted.
pub struct WindowState {
    pub max_seq: usize,
    pub window_size: usize,
    pub latest_seq: usize,
    pub flags: Seq<bool>,
}

/// The invariant of every reachable state.
pub open spec fn valid(s: WindowState) -> bool {
    &&& s.flags.len() == s.window_size + 1
    &&& s.latest_seq <= s.max_seq
}

/// The state of a new detector whose window starts out clear.
pub open spec fn fresh(max_seq: usize, window_size: usize) -> WindowState {
    WindowState {
        max_seq,
        window_size,
        latest_seq: 0,
        flags: Seq::new(window_size as nat + 1, |k: int| false),
    }
}

/// Why `seq` is turned away in state `s`, if it is.
pub open spec fn rejection(s: WindowState, seq: usize) -> Option<ReplayError> {
    if seq > s.max_seq {
        Some(ReplayError::OutsideWindow(seq))
    } else if seq <= s.latest_seq && s.latest_seq - seq >= s.window_size {
        Some(ReplayError::OutsideWindow(seq))
    } else if seq <= s.latest_seq && s.flags[s.latest_seq - seq] {
        Some(ReplayError::Duplicated(seq))
    } else {
        None
    }
}

/// What submitting `seq` in state `s` returns: the rejection, or whether
/// `seq` is reported as the newest. The very first acceptance, while
/// `latest_seq` is still 0, is always reported as the newest.
pub open spec fn verdict(s: WindowState, seq: usize) -> Result<bool, ReplayError> {
    match rejection(s, seq) {
        Some(e) => Err(e),
        None => Ok(s.latest_seq == 0 || seq > s.latest_seq),
    }
}

/// The state after `seq` is accepted in state `s`: a newer number moves the
/// window forward to it, and `seq` is recorded as seen.
pub open spec fn accepted(s: WindowState, seq: usize) -> WindowState {
    if seq > s.latest_seq {
        WindowState {
            latest_seq: seq,
            flags: marked(shifted(s.flags, seq - s.latest_seq), 0),
            ..s
        }
    } else {
        WindowState { flags: marked(s.flags, s.latest_seq - seq), ..s }
    }
}

/// The state after `seq` is submitted in state `s`, whether or not it is
/// accepted.
pub open spec fn step(s: WindowState, seq: usize) -> WindowState {
    if rejection(s, seq) is None {
        accepted(s, seq)
    } else {
        s
    }
}

/// The state after each of `seqs` is submitted in turn, starting from `s`.
pub open spec fn run(s: WindowState, seqs: Seq<usize>) -> WindowState
    decreases seqs.len(),
{
    if seqs.len() == 0 {
        s
    } else {
        step(run(s, seqs.drop_last()), seqs.last())
    }
}

/// A replay detector: accepts each sequence number once, as long as it is
/// not above the ceiling nor too far behind the newest one.
pub trait Checker: Sized {
    /// The abstract state.
    spec fn state(&self) -> WindowState;

    /// The representation invariant.
    spec fn wf(&self) -> bool;

    /// Checks `seq` and, when it passes, records it. Returns whether `seq`
    /// became the newest accepted number.
    fn check_and_accept(&mut self, seq: usize) -> (r: Result<bool, ReplayError>)
        requires
            old(self).wf(),
        ensures
            final(self).wf(),
            valid(final(self).state()),
            r == verdict(old(self).state(), seq),
            final(self).state() == step(old(self).state(), seq),
            seq > old(self).state().max_seq ==> r == Err::<bool, ReplayError>(
                ReplayError::OutsideWindow(seq),
            ),
            seq <= old(self).state().latest_seq && old(self).state().latest_seq - seq
                >= old(self).state().window_size ==> r == Err::<bool, ReplayError>(
                ReplayError::OutsideWindow(seq),
            ),
    ;
}

/// How to build a detector: the window to use (a packed-word window of
/// width `window_size` when absent), the ceiling on sequence numbers, and
/// the width of the trailing window.
pub struct DetectorConfig<M> {
    pub mask: Option<M>,
    pub max_seq: usize,
    pub window_size: usize,
}

/// A detector for one stream whose sequence numbers never wrap around.
pub struct NoWrapReplayDetector<M: Mask> {
    sliding_window: M,
    max_seq: usize,
    latest_seq: usize,
    window_size: usize,
}

impl<M: Mask> NoWrapReplayDetector<M> {
    /// A detector with nothing accepted yet. A window given in `cfg` must
    /// have width `window_size`; without one, `window_size` must be
    /// positive.
    pub fn new(cfg: DetectorConfig<M>) -> (r: Self)
        requires
            match cfg.mask {
                Some(m) => m.wf() && m.width() == cfg.window_size,
                None => 0 < cfg.window_size < usize::MAX,
            },
        ensures
            r.wf(),
            valid(r.state()),
            cfg.mask is None ==> r.state() == fresh(cfg.max_seq, cfg.window_size),
            cfg.mask matches Some(m) ==> r.state() == (WindowState {
                flags: m.flags(),
                ..fresh(cfg.max_seq, cfg.window_size)
            }),
    {
        let sliding_window: M = match cfg.mask {
            Some(mask) => mask,
            None => M::with_width(cfg.window_size),
        };
        proof {
            sliding_window.lemma_flags_len();
        }
        NoWrapReplayDetector {
            sliding_window,
            max_seq: cfg.max_seq,
            latest_seq: 0,
            window_size: cfg.window_size,
        }
    }

    /// Checks `seq` without recording it: `OutsideWindow` above the ceiling
    /// or at least `window_size` behind the newest accepted number,
    /// `Duplicated` when already recorded, and `Ok` otherwise.
    pub fn check(&self, seq: usize) -> (r: Result<(), ReplayError>)
        requires
            self.wf(),
        ensures
            r == match rejection(self.state(), seq) {
                Some(e) => Err::<(), ReplayError>(e),
                None => Ok(()),
            },
    {
        proof {
            self.sliding_window.lemma_flags_len();
        }
        if seq > self.max_seq {
            return Err(ReplayError::OutsideWindow(seq));
        }
        if seq <= self.latest_seq {
            if self.latest_seq - seq >= self.window_size {
                return Err(ReplayError::OutsideWindow(seq));
            }
            if self.sliding_window.bit(self.latest_seq - seq) {
                return Err(ReplayError::Duplicated(seq));
            }
        }
        Ok(())
    }
}

impl<M: Mask> Checker for NoWrapReplayDetector<M> {
    closed spec fn state(&self) -> WindowState {
        WindowState {
            max_seq: self.max_seq,
            window_size: self.window_size,
            latest_seq: self.latest_seq,
            flags: self.sliding_window.flags(),
        }
    }

    closed spec fn wf(&self) -> bool {
        &&& self.sliding_window.wf()
        &&& self.sliding_window.width() == self.window_size
        &&& self.latest_seq <= self.max_seq
    }

    fn check_and_accept(&mut self, seq: usize) -> (r: Result<bool, ReplayError>) {
        match self.check(seq) {
            Err(e) => {
                proof {
                    self.sliding_window.lemma_flags_len();
                }
                return Err(e);
            },
            Ok(()) => {},
        }
        let mut latest = self.latest_seq == 0;
        if seq > self.latest_seq {
            self.sliding_window.shl(seq - self.latest_seq);
            self.latest_seq = seq;
            latest = true;
        }
        let diff: usize = self.latest_seq - seq;
        self.sliding_window.set_bit(diff);
        proof {
            self.sliding_window.lemma_flags_len();
        }
        Ok(latest)
    }
}

} // verus!
