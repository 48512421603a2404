//! Health states shared by every physical component.

use vstd::prelude::*;

verus! {

/// Health of an atomic physical unit.
///
/// `Degraded` is a state of its own: the unit still works, but not at full
/// capacity. It counts as neither up nor down.
#[derive(Debug, Clone, Copy, PartialEq, Eq, Structural)]
pub enum DeviceStatus {
    Up,
    Down,
    Degraded,
}

impl DeviceStatus {
    /// A unit is up only in the state `Up`.
    pub open spec fn spec_is_up(&self) -> bool {
        *self == DeviceStatus::Up
    }

    /// A unit is operational when it is up or degraded.
    pub open spec fn spec_is_operational(&self) -> bool {
        *self == DeviceStatus::Up || *self == DeviceStatus::Degraded
    }

    /// True only for `Up`; `Down` and `Degraded` both give false.
    #[verifier::when_used_as_spec(spec_is_up)]
    pub fn is_up(&self) -> (up: bool)
        ensures
            up == self.spec_is_up(),
    {
        match self {
            DeviceStatus::Up => true,
            _ => false,
        }
    }

    /// True for `Up` and `Degraded`, for consumers that tolerate reduced
    /// capacity.
    #[verifier::when_used_as_spec(spec_is_operational)]
    pub fn is_operational(&self) -> (operational: bool)
        ensures
            operational == self.spec_is_operational(),
    {
        match self {
            DeviceStatus::Down => false,
            _ => true,
        }
    }
}

} // verus!
