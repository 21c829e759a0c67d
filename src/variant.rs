//! The state machine each variant goes through while it is tested and
//! applied.
use vstd::prelude::*;

verus! {

/// Where a variant stands.
#[derive(Clone, Copy, Debug, PartialEq, Eq, Structural)]
pub enum VariantState {
    /// Initial state.
    Untested,
    Testing,
    Applying,
    /// Final state: the configuration is in place.
    Applied,
    /// Final state: the variant was given up.
    Discarded,
}

/// What happened to the variant's configuration, or to the heads.
#[derive(Clone, Copy, Debug, PartialEq, Eq, Structural)]
pub enum VSMInput {
    Succeeded,
    Cancelled,
    Failed,
    AtomicChangeDone,
}

/// What the daemon has to do after a variant moved.
#[derive(Clone, Copy, Debug, PartialEq, Eq, Structural)]
pub enum DSMAction {
    Restart,
    TestVariant,
    ApplyVariant,
    TryNextVariant,
    ExecCmd,
    Inert,
}

/// The transition table: the next state and the action, for a state and an
/// input. Pairs the table does not list leave the state as it is.
pub open spec fn vsm_step(s: VariantState, i: VSMInput) -> (VariantState, DSMAction) {
    match (s, i) {
        (VariantState::Untested, VSMInput::AtomicChangeDone) => (VariantState::Testing, DSMAction::TestVariant),
        (VariantState::Testing, VSMInput::Succeeded) => (VariantState::Applying, DSMAction::ApplyVariant),
        (VariantState::Testing, VSMInput::Cancelled) => (VariantState::Discarded, DSMAction::Restart),
        (VariantState::Testing, VSMInput::Failed) => (VariantState::Discarded, DSMAction::TryNextVariant),
        (VariantState::Applying, VSMInput::Succeeded) => (VariantState::Applied, DSMAction::ExecCmd),
        (VariantState::Applying, VSMInput::Cancelled) => (VariantState::Discarded, DSMAction::Restart),
        (VariantState::Applying, VSMInput::Failed) => (VariantState::Discarded, DSMAction::TryNextVariant),
        (VariantState::Applied, VSMInput::AtomicChangeDone) => (VariantState::Discarded, DSMAction::Restart),
        _ => (s, DSMAction::Inert),
    }
}

impl VariantState {
    /// The state and action that `input` leads to.
    pub fn next(self, input: VSMInput) -> (r: (VariantState, DSMAction))
        ensures
            r == vsm_step(self, input),
    {
        match (self, input) {
            (VariantState::Untested, VSMInput::AtomicChangeDone) => (VariantState::Testing, DSMAction::TestVariant),
            (VariantState::Untested, _) => self.warn_invalid(input),
            (VariantState::Testing, VSMInput::Succeeded) => (VariantState::Applying, DSMAction::ApplyVariant),
            (VariantState::Testing, VSMInput::Cancelled) => (VariantState::Discarded, DSMAction::Restart),
            (VariantState::Testing, VSMInput::Failed) => (VariantState::Discarded, DSMAction::TryNextVariant),
            (VariantState::Testing, VSMInput::AtomicChangeDone) => (self, DSMAction::Inert),
            (VariantState::Applying, VSMInput::Succeeded) => (VariantState::Applied, DSMAction::ExecCmd),
            (VariantState::Applying, VSMInput::Cancelled) => (VariantState::Discarded, DSMAction::Restart),
            (VariantState::Applying, VSMInput::Failed) => (VariantState::Discarded, DSMAction::TryNextVariant),
            (VariantState::Applying, VSMInput::AtomicChangeDone) => (self, DSMAction::Inert),
            (VariantState::Applied, VSMInput::AtomicChangeDone) => (VariantState::Discarded, DSMAction::Restart),
            (VariantState::Applied, _) => self.warn_invalid(input),
            (VariantState::Discarded, _) => self.warn_invalid(input),
        }
    }

    /// Leaves the state as it is on an input it does not expect.
    fn warn_invalid(self, input: VSMInput) -> (r: (VariantState, DSMAction))
        ensures
            r == (self, DSMAction::Inert),
    {
        (self, DSMAction::Inert)
    }

    /// Moves by `input` and returns the action to take.
    pub fn advance(&mut self, input: VSMInput) -> (r: DSMAction)
        ensures
            (*final(self), r) == vsm_step(*old(self), input),
    {
        let (s, a) = self.next(input);
        *self = s;
        a
    }

    /// Back to the initial state.
    pub fn reset(&mut self)
        ensures
            *final(self) == VariantState::Untested,
    {
        *self = VariantState::Untested;
    }
}

} // verus!
