use vstd::prelude::*;
use std::io::Write;

verus! {

/// A destination for finished records.
pub trait EventSink {
    /// Writes one record.
    fn write(&self, event: String);
}

/// The default sink: writes each record to standard output.
#[non_exhaustive]
#[derive(Default, Clone, Debug)]
pub struct StdoutSink;

/// Relies on `std::io::Write::write_all` for `Stdout`, which holds the
/// handle's lock for the whole call, so the bytes of one record are not
/// interleaved with another writer's. A failed write loses that record and
/// nothing else.
#[verifier::external_body]
fn write_stdout(event: &str) {
    let _ = std::io::stdout().write_all(event.as_bytes());
}

impl EventSink for StdoutSink {
    fn write(&self, event: String) {
        write_stdout(event.as_str());
    }
}

} // verus!
