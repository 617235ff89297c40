//! Small predicates on `Option` and `Result`.

use vstd::prelude::*;

verus! {

/// Whether `op` holds a value.
pub fn option_has_value<T>(op: &Option<T>) -> (res: bool)
    ensures
        res == op.is_some(),
{
    match op {
        Option::None => false,
        Option::Some(_) => true,
    }
}

/// Whether `rs` is the `Ok` variant.
pub fn result_is_ok<T, E>(rs: &Result<T, E>) -> (res: bool)
    ensures
        res == rs.is_ok(),
{
    match rs {
        Result::Err(_) => false,
        Result::Ok(_) => true,
    }
}

} // verus!
