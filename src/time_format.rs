//! Rendering of absolute times.
use vstd::prelude::*;

verus! {

/// Relies on chrono: `DateTime::<Local>::from(t).to_rfc3339_opts(SecondsFormat::AutoSi,
/// false)` for the time `nanos` after the Unix epoch. The text depends on the
/// machine's time zone, so nothing is stated of it.
#[verifier::external_body]
fn local_rfc3339(nanos: u64) -> String {
    let t = std::time::UNIX_EPOCH + std::time::Duration::from_nanos(nanos);
    chrono::DateTime::<chrono::Local>::from(t).to_rfc3339_opts(chrono::SecondsFormat::AutoSi, false)
}

/// An absolute time (nanoseconds since the Unix epoch), rendered as an
/// RFC 3339 timestamp in the local time zone.
#[derive(Clone, Copy, Debug, PartialEq, Eq, Structural)]
pub struct SystemTimeFormatter(pub u64);

impl SystemTimeFormatter {
    /// The rendered timestamp.
    pub fn format(&self) -> String {
        local_rfc3339(self.0)
    }
}

} // verus!
