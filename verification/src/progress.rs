//! The progress of one transfer: how much is expected, how much has come
//! through, and whether the transfer has started and finished.

use vstd::prelude::*;

verus! {

/// Why a progress report was refused.
#[derive(Clone, Copy, Debug, PartialEq, Eq, Structural)]
pub enum ProgressError {
    /// The transfer has not been started.
    NotStarted,
    /// The transfer was started before.
    AlreadyStarted,
    /// The transfer was finished before.
    AlreadyFinished,
    /// More would be reported than the transfer's total.
    Overrun,
}

/// What a progress record holds, as plain values.
pub struct ProgressView {
    pub total: nat,
    pub transferred: nat,
    pub started: bool,
    pub finished: bool,
}

impl ProgressView {
    /// Whether the record is one that the reports can lead to.
    pub open spec fn wf(self) -> bool {
        &&& self.transferred <= self.total
        &&& !self.started ==> self.total == 0
    }

    /// The error with which starting is refused, if it is.
    pub open spec fn start_refusal(self) -> Option<ProgressError> {
        if self.started {
            Some(ProgressError::AlreadyStarted)
        } else if self.finished {
            Some(ProgressError::AlreadyFinished)
        } else {
            None
        }
    }

    /// The error with which a report of `produced` more bytes is refused,
    /// if it is.
    pub open spec fn update_refusal(self, produced: nat) -> Option<ProgressError> {
        if !self.started {
            Some(ProgressError::NotStarted)
        } else if self.finished {
            Some(ProgressError::AlreadyFinished)
        } else if self.transferred + produced > self.total {
            Some(ProgressError::Overrun)
        } else {
            None
        }
    }

    /// The error with which finishing is refused, if it is. A transfer
    /// that never started can be finished too: every transfer is, however
    /// far it came.
    pub open spec fn finish_refusal(self) -> Option<ProgressError> {
        if self.finished {
            Some(ProgressError::AlreadyFinished)
        } else {
            None
        }
    }
}

/// The progress record of one transfer.
#[derive(Debug)]
pub struct Progress {
    total: u64,
    transferred: u64,
    started: bool,
    finished: bool,
}

impl View for Progress {
    type V = ProgressView;

    closed spec fn view(&self) -> ProgressView {
        ProgressView {
            total: self.total as nat,
            transferred: self.transferred as nat,
            started: self.started,
            finished: self.finished,
        }
    }
}

impl Progress {
    /// Whether the record is one that the reports can lead to.
    #[verifier::type_invariant]
    pub closed spec fn wf(&self) -> bool {
        self@.wf()
    }

    /// What a record holds is what the reports can lead to.
    pub proof fn lemma_view_wf(&self)
        requires
            self.wf(),
        ensures
            self@.wf(),
    {
    }

    /// A record of a transfer that has not started.
    pub fn new() -> (progress: Progress)
        ensures
            progress@ == (ProgressView { total: 0, transferred: 0, started: false, finished: false }),
    {
        Progress { total: 0, transferred: 0, started: false, finished: false }
    }

    /// Starts the transfer with the number of bytes that it will carry. A
    /// transfer can be started once, and not after it was finished; a
    /// refused call changes nothing.
    pub fn start(&mut self, total: u64) -> (res: Result<(), ProgressError>)
        ensures
            match old(self)@.start_refusal() {
                Some(error) => res == Err::<(), ProgressError>(error) && final(self)@ == old(self)@,
                None => res is Ok && final(self)@ == (ProgressView {
                    total: total as nat,
                    transferred: 0,
                    started: true,
                    finished: false,
                }),
            },
    {
        proof {
            use_type_invariant(&*self);
        }
        if self.started {
            return Err(ProgressError::AlreadyStarted);
        }
        if self.finished {
            return Err(ProgressError::AlreadyFinished);
        }
        self.started = true;
        self.total = total;
        Ok(())
    }

    /// Reports that `produced` more bytes have come through. A refused
    /// report changes nothing.
    pub fn update(&mut self, produced: u64) -> (res: Result<(), ProgressError>)
        ensures
            final(self)@.transferred >= old(self)@.transferred,
            match old(self)@.update_refusal(produced as nat) {
                Some(error) => res == Err::<(), ProgressError>(error) && final(self)@ == old(
                    self,
                )@,
                None => res is Ok && final(self)@ == (ProgressView {
                    transferred: old(self)@.transferred + produced as nat,
                    ..old(self)@
                }),
            },
    {
        proof {
            use_type_invariant(&*self);
        }
        if !self.started {
            return Err(ProgressError::NotStarted);
        }
        if self.finished {
            return Err(ProgressError::AlreadyFinished);
        }
        if produced > self.total - self.transferred {
            return Err(ProgressError::Overrun);
        }
        self.transferred = self.transferred + produced;
        Ok(())
    }

    /// Marks the transfer as finished, however it ended and however far it
    /// came. A transfer can be finished once; a refused call changes
    /// nothing.
    pub fn finish(&mut self) -> (res: Result<(), ProgressError>)
        ensures
            match old(self)@.finish_refusal() {
                Some(error) => res == Err::<(), ProgressError>(error) && final(self)@ == old(
                    self,
                )@,
                None => res is Ok && final(self)@ == (ProgressView {
                    finished: true,
                    ..old(self)@
                }),
            },
    {
        proof {
            use_type_invariant(&*self);
        }
        if self.finished {
            return Err(ProgressError::AlreadyFinished);
        }
        self.finished = true;
        Ok(())
    }

    /// The number of bytes that the transfer will carry.
    pub fn total(&self) -> (total: u64)
        ensures
            total == self@.total,
            self@.wf(),
    {
        proof {
            use_type_invariant(self);
        }
        self.total
    }

    /// The number of bytes that have come through.
    pub fn transferred(&self) -> (transferred: u64)
        ensures
            transferred == self@.transferred,
            self@.wf(),
    {
        proof {
            use_type_invariant(self);
        }
        self.transferred
    }

    /// Whether the transfer has started.
    pub fn is_started(&self) -> (started: bool)
        ensures
            started == self@.started,
    {
        self.started
    }

    /// Whether the transfer has finished.
    pub fn is_finished(&self) -> (finished: bool)
        ensures
            finished == self@.finished,
    {
        self.finished
    }

    /// The share of the total that has come through, in hundredths,
    /// rounded down; a transfer of nothing counts as complete.
    pub fn percent(&self) -> (percent: u8)
        ensures
            self@.total == 0 ==> percent == 100,
            self@.total > 0 ==> percent == (self@.transferred * 100) as int / (self@.total as int),
    {
        proof {
            use_type_invariant(self);
        }
        if self.total == 0 {
            return 100;
        }
        let scaled = (self.transferred as u128) * 100;
        let share = scaled / (self.total as u128);
        proof {
            vstd::arithmetic::div_mod::lemma_div_is_ordered(
                scaled as int,
                self.total * 100,
                self.total as int,
            );
            vstd::arithmetic::div_mod::lemma_div_multiples_vanish(100, self.total as int);
            vstd::arithmetic::div_mod::lemma_div_pos_is_pos(scaled as int, self.total as int);
        }
        share as u8
    }
}

} // verus!
