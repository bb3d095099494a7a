use vstd::prelude::*;

verus! {

/// What the caller's per-tick poll knows of a generation run.
#[derive(Clone, Copy, Debug, PartialEq, Eq, Structural)]
pub enum GenPhase {
    /// Nothing has been started.
    Idle,
    /// The worker is generating `total` chunks.
    Running { total: u32 },
    /// The result has been taken; the run's resources are gone.
    Ready,
}

impl GenPhase {
    /// The phase right after a run of `total` chunks is handed to the worker.
    pub fn start(total: u32) -> (r: GenPhase)
        ensures
            r == (GenPhase::Running { total }),
    {
        GenPhase::Running { total }
    }

    /// One non-blocking poll; `available` tells whether the worker's result
    /// exists. Returns `true` exactly once per run: on the first poll of a
    /// running job that finds the result, which the caller then takes.
    pub fn poll(&mut self, available: bool) -> (take: bool)
        ensures
            take == (*old(self) is Running && available),
            take ==> *final(self) == GenPhase::Ready,
            !take ==> *final(self) == *old(self),
    {
        match *self {
            GenPhase::Running { .. } => {
                if available {
                    *self = GenPhase::Ready;
                    true
                } else {
                    false
                }
            },
            _ => false,
        }
    }

    /// The `(current, total)` pair for a progress display: present only
    /// while the run is in flight, with `current` capped at `total`.
    pub fn progress_display(&self, current: u32) -> (r: Option<(u32, u32)>)
        ensures
            *self matches GenPhase::Running { total } ==> r == Some(
                (if current <= total { current } else { total }, total),
            ),
            !(*self is Running) ==> r.is_none(),
    {
        match *self {
            GenPhase::Running { total } => Some((if current <= total { current } else { total }, total)),
            _ => None,
        }
    }
}

} // verus!
