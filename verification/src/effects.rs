//! The effects of a component's life cycle.

use vstd::prelude::*;
use crate::error::Error;

verus! {

/// The kinds of effects that a component registers.
#[derive(Debug, Clone, Copy, PartialEq, Eq, Structural)]
pub enum Effects {
    ComponentDidMount,
    ComponentDidUpdate,
    ComponentWillUnmount,
}

/// Runs the effects registered for unmounting. None can be registered yet,
/// so there is nothing to run and nothing to fail.
pub fn component_will_unmount_runner() -> (res: Result<(), Error>)
    ensures
        res is Ok,
{
    Ok(())
}

} // verus!
