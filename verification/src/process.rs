//! The results of the short system commands the shell runs: what a
//! finished command's exit and output amount to. Starting, waiting for and
//! reading the command is done by the caller.

use vstd::prelude::*;
use vstd::string::*;
use crate::text::{lossy_text, trimmed};

verus! {

/// The most output a command may write, in bytes.
pub const OUTPUT_LIMIT: usize = 262144;

/// The error of a command that did not exit with status 0.
pub open spec fn failure_text(program: Seq<char>, status: i32) -> Seq<char> {
    program + ": command failed with status "@ + if status < 0 {
        "-"@ + crate::text::decimal((-status) as nat)
    } else {
        crate::text::decimal(status as nat)
    }
}

/// The outcome of a command's exit: success only for a normal exit with
/// status 0.
pub fn exit_outcome(program: &str, exited: bool, status: i32) -> (r: Result<(), String>)
    ensures
        match r {
            Ok(()) => exited && status == 0,
            Err(e) => !(exited && status == 0) && e@ == failure_text(program@, status),
        },
{
    if exited && status == 0 {
        return Ok(());
    }
    let mut e = crate::text::owned(program);
    e.append(": command failed with status ");
    if status < 0 {
        e.append("-");
        let magnitude: u128 = if status == i32::MIN {
            2147483648
        } else {
            (-status) as u128
        };
        let digits = crate::text::decimal_string(magnitude);
        e.append(digits.as_str());
    } else {
        let digits = crate::text::decimal_string(status as u128);
        e.append(digits.as_str());
    }
    Err(e)
}

/// The error of a command cut short by the timeout or by shutdown.
pub fn timeout_error(program: &str) -> (r: String)
    ensures
        r@ == program@ + ": operation timed out or cancelled"@,
{
    let mut e = crate::text::owned(program);
    e.append(": operation timed out or cancelled");
    e
}

/// The result of a command that succeeded, from what it wrote (read up to
/// one byte past the limit): refused when over the limit, else the text
/// decoded with replacement characters and trimmed.
pub fn command_output(program: &str, bytes: &[u8]) -> (r: Result<String, String>)
    ensures
        match r {
            Ok(text) => bytes@.len() <= OUTPUT_LIMIT && text@ == trimmed(lossy_text(bytes@)),
            Err(e) => bytes@.len() > OUTPUT_LIMIT && e@ == program@ + ": excessive output"@,
        },
{
    if bytes.len() > OUTPUT_LIMIT {
        let mut e = crate::text::owned(program);
        e.append(": excessive output");
        return Err(e);
    }
    let text = crate::text::from_utf8_lossy(bytes);
    Ok(crate::text::trim(text.as_str()))
}

} // verus!
