//! The states of a conversion run.
//!
//! ```text
//! Init -> Reading -> Mapping -> Writing -> Done        (full update)
//! Init -> Reading -> Mapping -> Diffing -> Writing -> Done   (quick update)
//! ```
//!
//! Every state but the last two leads to `Failed` when its work fails. `Done`
//! and `Failed` are final: nothing is tried again.

use vstd::prelude::*;

verus! {

/// Which of the two runs is made.
#[derive(Clone, Copy, Debug, PartialEq, Eq, Structural)]
pub enum Mode {
    /// Every sheet is written.
    Full,
    /// Only the sheets that have changed are written.
    Quick,
}

/// Where a run stands.
#[derive(Clone, Copy, Debug, PartialEq, Eq, Structural)]
pub enum State {
    /// The configuration and the path of the workbook are being checked.
    Init,
    /// The workbook is being read.
    Reading,
    /// The sheets are being mapped to records.
    Mapping,
    /// The records are being compared with the snapshot of the run before.
    Diffing,
    /// The documents are being written.
    Writing,
    /// Every document has been written.
    Done,
    /// The run has ended with an error.
    Failed,
}

/// Whether a run that has reached `s` is over.
pub open spec fn is_final(s: State) -> bool {
    s == State::Done || s == State::Failed
}

/// The state that follows `s` once its work has succeeded or failed.
pub open spec fn next_state(mode: Mode, s: State, succeeded: bool) -> State {
    match s {
        State::Done => State::Done,
        State::Failed => State::Failed,
        _ => if !succeeded {
            State::Failed
        } else {
            match s {
                State::Init => State::Reading,
                State::Reading => State::Mapping,
                State::Mapping => if mode == Mode::Quick {
                    State::Diffing
                } else {
                    State::Writing
                },
                State::Diffing => State::Writing,
                _ => State::Done,
            }
        },
    }
}

/// How far a run has come.
pub open spec fn progress(s: State) -> int {
    match s {
        State::Init => 0,
        State::Reading => 1,
        State::Mapping => 2,
        State::Diffing => 3,
        State::Writing => 4,
        State::Done => 5,
        State::Failed => 5,
    }
}

/// The state of a run that started in `s`, after the work of one state after
/// the other has succeeded or failed as `outcomes` says.
pub open spec fn state_after(mode: Mode, s: State, outcomes: Seq<bool>) -> State
    decreases outcomes.len(),
{
    if outcomes.len() == 0 {
        s
    } else {
        next_state(mode, state_after(mode, s, outcomes.drop_last()), outcomes.last())
    }
}

/// Whether a run that has reached `s` is over.
pub fn is_over(s: State) -> (over: bool)
    ensures
        over == is_final(s),
{
    match s {
        State::Done => true,
        State::Failed => true,
        _ => false,
    }
}

/// The state that follows `s` once its work has succeeded or failed.
pub fn advance(mode: Mode, s: State, succeeded: bool) -> (next: State)
    ensures
        next == next_state(mode, s, succeeded),
{
    match s {
        State::Done => State::Done,
        State::Failed => State::Failed,
        State::Init => if succeeded {
            State::Reading
        } else {
            State::Failed
        },
        State::Reading => if succeeded {
            State::Mapping
        } else {
            State::Failed
        },
        State::Mapping => if !succeeded {
            State::Failed
        } else {
            match mode {
                Mode::Quick => State::Diffing,
                Mode::Full => State::Writing,
            }
        },
        State::Diffing => if succeeded {
            State::Writing
        } else {
            State::Failed
        },
        State::Writing => if succeeded {
            State::Done
        } else {
            State::Failed
        },
    }
}

/// A run that is over stays as it is.
pub proof fn lemma_final_states_stay(mode: Mode, s: State, succeeded: bool)
    requires
        is_final(s),
    ensures
        next_state(mode, s, succeeded) == s,
{
}

/// A run that is not over fails when the work of its state fails, and
/// otherwise comes further.
pub proof fn lemma_every_step_advances(mode: Mode, s: State, succeeded: bool)
    requires
        !is_final(s),
    ensures
        !succeeded ==> next_state(mode, s, succeeded) == State::Failed,
        progress(next_state(mode, s, succeeded)) > progress(s),
{
}

/// Records are compared with a snapshot only in a quick update, and only
/// after every sheet has been mapped.
pub proof fn lemma_diffing_only_when_quick(mode: Mode, s: State, succeeded: bool)
    requires
        s != State::Diffing,
        next_state(mode, s, succeeded) == State::Diffing,
    ensures
        mode == Mode::Quick,
        s == State::Mapping,
        succeeded,
{
}

/// A run is done only after its documents have been written.
pub proof fn lemma_done_only_after_writing(mode: Mode, s: State, succeeded: bool)
    requires
        s != State::Done,
        next_state(mode, s, succeeded) == State::Done,
    ensures
        s == State::Writing,
        succeeded,
{
}

/// After `n` steps a run is over or has come at least `n` states further.
pub proof fn lemma_progress_after(mode: Mode, s: State, outcomes: Seq<bool>)
    ensures
        is_final(state_after(mode, s, outcomes)) || progress(state_after(mode, s, outcomes))
            >= progress(s) + outcomes.len(),
    decreases outcomes.len(),
{
    if outcomes.len() > 0 {
        lemma_progress_after(mode, s, outcomes.drop_last());
        let before = state_after(mode, s, outcomes.drop_last());
        if !is_final(before) {
            lemma_every_step_advances(mode, before, outcomes.last());
        }
    }
}

/// Every run is over after five steps.
pub proof fn lemma_run_is_over_after_five(mode: Mode, outcomes: Seq<bool>)
    requires
        outcomes.len() >= 5,
    ensures
        is_final(state_after(mode, State::Init, outcomes)),
{
    lemma_progress_after(mode, State::Init, outcomes);
}

} // verus!
