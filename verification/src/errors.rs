use vstd::prelude::*;

verus! {

/// The failure kinds a pipeline stage can report. End of stream is not an
/// error: stages signal it by producing no frame.
#[derive(Clone, Copy, Debug, PartialEq, Eq, Structural)]
pub enum PipelineError {
    /// A configuration value was rejected at setup.
    Config,
    /// A mono value met a stereo value mid-stream.
    ChannelMismatch,
    /// A seek asked for more history than is retained, or ran past the
    /// ends of the stream.
    SeekOutOfRange,
    /// A per-tick computation failed, here always because a value left
    /// the machine range.
    Transform,
}

impl PipelineError {
    /// A short name for logs kept outside the library.
    pub fn describe(&self) -> (r: &'static str)
        ensures
            r@ =~= (match self {
                PipelineError::Config => "invalid configuration"@,
                PipelineError::ChannelMismatch => "mono/stereo mismatch"@,
                PipelineError::SeekOutOfRange => "seek out of range"@,
                PipelineError::Transform => "transform failure"@,
            }),
    {
        match self {
            PipelineError::Config => "invalid configuration",
            PipelineError::ChannelMismatch => "mono/stereo mismatch",
            PipelineError::SeekOutOfRange => "seek out of range",
            PipelineError::Transform => "transform failure",
        }
    }
}

} // verus!
