use vstd::prelude::*;

verus! {

/// The failure taxonomy of the engine. Every failure is a value, never a
/// panic, so one bad combination cannot abort a whole batch.
#[derive(Clone, Copy, Debug, PartialEq, Eq, Structural)]
pub enum EngineError {
    /// A zero-length sample pair: fatal for that combination only.
    EmptySample,
    /// A requested series is absent from the source table: the combination
    /// is skipped.
    MissingColumn,
    /// The aggregation mode string is not recognised: a configuration error,
    /// caught once before any fan-out.
    UnknownAggregationMode,
    /// The aggregated FNR curve cannot serve as an interpolation domain
    /// (fewer than two points, or duplicate domain values): the affected
    /// point is recorded as missing, not aborted.
    InterpolationFailure,
}

impl EngineError {
    /// A short stable name for logs and operator messages.
    pub fn name(&self) -> (r: &'static str)
        ensures
            r@ == self.name_spec(),
    {
        match self {
            EngineError::EmptySample => "empty sample",
            EngineError::MissingColumn => "missing column",
            EngineError::UnknownAggregationMode => "unknown aggregation mode",
            EngineError::InterpolationFailure => "interpolation failure",
        }
    }

    pub open spec fn name_spec(&self) -> Seq<char> {
        match self {
            EngineError::EmptySample => "empty sample"@,
            EngineError::MissingColumn => "missing column"@,
            EngineError::UnknownAggregationMode => "unknown aggregation mode"@,
            EngineError::InterpolationFailure => "interpolation failure"@,
        }
    }
}

} // verus!
