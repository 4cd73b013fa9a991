use vstd::prelude::*;

verus! {

/// What a trace record marks.
#[derive(Clone, Copy, Debug, PartialEq, Eq, Structural)]
pub enum TraceMarker {
    /// A synchronous call begins.
    StartSync,
    /// A synchronous call returns.
    EndSync,
    /// An asynchronous operation begins.
    StartAsync,
    /// An asynchronous operation ends.
    EndAsync,
    /// A point event.
    Dot,
}

/// The time of a record: whole seconds and the microseconds past them.
#[derive(Clone, Copy, Debug, PartialEq, Eq, Structural)]
pub struct TimeStamp {
    pub seconds: u64,
    pub micro: u64,
}

/// One record of a trace.
#[derive(Clone, Debug)]
pub struct Trace {
    /// Name of the record as it was written.
    pub name: String,
    /// Process that wrote the record.
    pub pid: u64,
    /// Processor the record was written on.
    pub cpu: u64,
    pub timestamp: TimeStamp,
    pub trace_marker: TraceMarker,
    /// Raw line number, passed through.
    pub number: String,
    /// Shorthand marker symbol, passed through.
    pub shorthand: String,
    /// Function the record belongs to.
    pub function: String,
}

} // verus!
