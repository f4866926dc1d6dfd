//! Whether a local port is taken.

use vstd::prelude::*;
use vstd::string::*;

use crate::error;
use crate::error::{CoreError, ExitClass};
use crate::text;

verus! {

broadcast use vstd::string::group_string_axioms;

/// What binding a port came to.
#[derive(Debug)]
pub enum Bind {
    Bound,
    /// It is in use, or may not be bound.
    Taken,
    Failed(String),
}

/// Decides whether a port is taken: where something answered there, or where it
/// cannot be bound.
pub fn squat_probe(port: u16, answered: bool, bind: &Bind) -> (r: Result<bool, CoreError>)
    ensures
        if answered {
            r == Ok::<bool, CoreError>(true)
        } else {
            match *bind {
                Bind::Bound => r == Ok::<bool, CoreError>(false),
                Bind::Taken => r == Ok::<bool, CoreError>(true),
                Bind::Failed(why) => r matches Err(e) && e@ == error::fault(
                    ExitClass::Internal,
                    "PORT_PROBE_FAILED"@,
                    "could not probe IPv4 port "@ + text::decimal(port as nat) + ": "@ + why@,
                    "retry allocation or inspect local network permissions"@,
                ),
            }
        },
{
    if answered {
        return Ok(true);
    }
    match bind {
        Bind::Bound => Ok(false),
        Bind::Taken => Ok(true),
        Bind::Failed(why) => {
            let message = "could not probe IPv4 port ".to_owned().concat(
                text::decimal_of(port as u64).as_str(),
            ).concat(": ").concat(why.as_str());
            Err(
                CoreError::new(
                    ExitClass::Internal,
                    "PORT_PROBE_FAILED",
                    message.as_str(),
                    "retry allocation or inspect local network permissions",
                ),
            )
        },
    }
}

} // verus!
