//! The delivery capability an alert pipeline hands surviving alerts to.

use vstd::prelude::*;
use crate::level::Level;

verus! {

/// A delivery capability: one operation that attempts to deliver a
/// formatted alert and reports success or a delivery error. A returned
/// error is terminal for that one alert: it is not retried. The pipeline
/// serializes calls, so an implementation need not tolerate concurrent
/// use.
pub trait AlertHandler {
    /// The error an attempted delivery can fail with.
    type Error;

    /// Attempts to deliver one alert of severity `level` with the already
    /// formatted message `msg`.
    fn handle_alert(&self, level: &Level, msg: &str) -> Result<(), Self::Error>;
}

/// The message handed to the delivery capability for an alert of severity
/// `level` with message `msg`.
pub open spec fn formatted_message(level: Level, msg: Seq<char>) -> Seq<char> {
    level.spec_name() + ": "@ + msg
}

/// Formats an alert as its delivery text: the severity name, a colon and
/// a space, then the message.
pub fn format_alert_message(level: Level, msg: &str) -> (r: String)
    ensures
        r@ == formatted_message(level, msg@),
{
    let mut out = String::from_str(level.as_str());
    out.append(": ");
    out.append(msg);
    out
}

} // verus!
