//! The ways in which a run can fail. Every one of them is fatal: there is no
//! retry and no partial image.
use vstd::prelude::*;

verus! {

/// The stage of the pipeline that failed.
#[derive(Clone, Copy, Debug, PartialEq, Eq, Structural)]
pub enum PipelineError {
    /// The input is missing, unreadable, or not a waveform.
    Decode,
    /// The signal is too short for the requested window and pixel count.
    InsufficientSignal,
    /// A transform handed back something that is not a spectrum.
    TransformFailure,
    /// The pixels that arrived do not fill every cell of the image once.
    IncompleteImage,
    /// The finished image could not be written.
    Encode,
}

impl PipelineError {
    /// The name of the failed stage, as shown in the message to the user.
    pub open spec fn stage_name(self) -> Seq<char> {
        match self {
            PipelineError::Decode => "decode"@,
            PipelineError::InsufficientSignal => "window planning"@,
            PipelineError::TransformFailure => "transform"@,
            PipelineError::IncompleteImage => "image assembly"@,
            PipelineError::Encode => "encode"@,
        }
    }

    /// The message that identifies the failed stage.
    pub fn describe(&self) -> (message: String)
        ensures
            message@ == "fatal: the "@ + self.stage_name() + " stage failed"@,
    {
        let stage: &str = match self {
            PipelineError::Decode => "decode",
            PipelineError::InsufficientSignal => "window planning",
            PipelineError::TransformFailure => "transform",
            PipelineError::IncompleteImage => "image assembly",
            PipelineError::Encode => "encode",
        };
        let mut message = String::from_str("fatal: the ");
        message.append(stage);
        message.append(" stage failed");
        message
    }
}

} // verus!
