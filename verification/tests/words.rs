use ommatidia_tools::options::Fault;
use ommatidia_tools::{
    benchmark, compare, dataset, field, fit, generate, lobe_scale, noise_risk, noise_study,
    provenance, reference_noise, temporal_oracle, train, transport,
};

#[test]
fn refusals_say_why() {
    assert_eq!(transport::StartError::NoData.words(), "--data required");
    assert_eq!(field::StartError::EmptyCorpus.words(), "empty corpus");
    assert_eq!(field::LoadError::NoColor.words(), "missing HR RGB");
    assert_eq!(fit::RunError::NoCamera.words(), "no fitting camera");
    assert_eq!(noise_study::StudyError::NoCheckpoint.words(), "need checkpoint");
    assert_eq!(provenance::CombineError::Empty.words(), "empty capture list");
    assert_eq!(
        provenance::OverlapError::Seeds.words(),
        "training/evaluation scene seeds overlap"
    );
    assert_eq!(
        provenance::CaptureError::Records.words(),
        "provenance record count differs from dataset"
    );
    assert_eq!(
        benchmark::BenchmarkError::Sequence.words(),
        "sequence index out of bounds"
    );
    assert_eq!(
        reference_noise::MatchError::Layout.words(),
        "reference layouts differ"
    );
    assert_eq!(
        lobe_scale::SequenceError::Nothing.words(),
        "the matched data contains no temporal sequences"
    );
    assert_eq!(
        noise_risk::NoiseError::Provenance(2).words(),
        "unequal provenance"
    );
    assert_eq!(noise_risk::NoiseError::Overlap.words(), "overlapping path streams");
    assert_eq!(
        compare::CompareError::Missing(dataset::Plane::Normal).words(),
        "comparison needs low- and high-resolution"
    );
    assert_eq!(
        temporal_oracle::ArgsError::Usage.words(),
        temporal_oracle::USAGE
    );
    assert_eq!(
        temporal_oracle::ArgsError::NormalCosine.words(),
        "invalid normal cosine"
    );
    assert_eq!(train::ArgsError::Steps.words(), "--steps must be positive");
    assert_eq!(generate::ArgsError::Scale(1).words(), "--scale must be at least 2");
    assert_eq!(
        generate::ArgsError::Line(Fault::Help).words(),
        "the command line does not read"
    );
}
