use bugglers::error::PipelineError;

#[test]
fn message_names_the_failed_stage() {
    assert_eq!(PipelineError::Decode.describe(), "fatal: the decode stage failed");
    assert_eq!(
        PipelineError::InsufficientSignal.describe(),
        "fatal: the window planning stage failed"
    );
    assert_eq!(PipelineError::TransformFailure.describe(), "fatal: the transform stage failed");
    assert_eq!(
        PipelineError::IncompleteImage.describe(),
        "fatal: the image assembly stage failed"
    );
    assert_eq!(PipelineError::Encode.describe(), "fatal: the encode stage failed");
}
