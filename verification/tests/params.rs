use hmmlearn::covariance::CovarianceType;
use hmmlearn::engine::params::{DecoderAlgorithm, Implementation, Param, ParamSet};
use hmmlearn::HmmError;

#[test]
fn paramset_from_codes() {
    let p = ParamSet::from_codes("stmc");
    assert!(p.contains(Param::Start));
    assert!(p.contains(Param::Trans));
    assert!(p.contains(Param::Means));
    assert!(p.contains(Param::Covars));
    assert!(!p.contains(Param::Emit));
    assert!(!p.contains(Param::Weights));
}

#[test]
fn paramset_ignores_unknown_and_empty() {
    assert!(ParamSet::from_codes("").is_empty());
    let p = ParamSet::from_codes("sZt9");
    assert!(p.contains(Param::Start));
    assert!(p.contains(Param::Trans));
    assert!(!p.contains(Param::Means));
}

#[test]
fn enum_parsing() {
    assert_eq!(
        "viterbi".parse::<DecoderAlgorithm>().unwrap(),
        DecoderAlgorithm::Viterbi
    );
    assert_eq!(
        "log".parse::<Implementation>().unwrap(),
        Implementation::Log
    );
    assert!("nope".parse::<Implementation>().is_err());
}

#[test]
fn other_names_parse_and_bad_ones_are_quoted() {
    assert_eq!("map".parse::<DecoderAlgorithm>(), Ok(DecoderAlgorithm::Posterior));
    assert_eq!("scaling".parse::<Implementation>(), Ok(Implementation::Scaling));
    assert_eq!(
        "a\"b".parse::<DecoderAlgorithm>(),
        Err(HmmError::InvalidParameter(
            "algorithm must be 'viterbi' or 'map', got \"a\\\"b\"".to_string()
        ))
    );
    assert_eq!(
        Implementation::parse("nope").unwrap_err().to_text(),
        "invalid parameter: implementation must be 'log' or 'scaling', got \"nope\""
    );
}

#[test]
fn codes_build_the_set_they_name() {
    let all = [
        Param::Start,
        Param::Trans,
        Param::Means,
        Param::Covars,
        Param::Emit,
        Param::Lambdas,
        Param::Weights,
    ];
    let mut built = ParamSet::empty();
    let mut codes = String::new();
    for p in all {
        codes.push(p.code());
        built.insert(p);
        assert_eq!(ParamSet::from_codes(&codes), built);
    }
    assert_eq!(codes, "stmcelw");
}

#[test]
fn covariance_names_round_trip() {
    for t in [
        CovarianceType::Spherical,
        CovarianceType::Diag,
        CovarianceType::Full,
        CovarianceType::Tied,
    ] {
        assert_eq!(t.as_str().parse::<CovarianceType>(), Ok(t));
        assert_eq!(t.to_text(), t.as_str());
    }
    assert_eq!(
        CovarianceType::parse("round"),
        Err(HmmError::InvalidParameter(
            "covariance_type must be one of spherical/diag/full/tied, got \"round\"".to_string()
        ))
    );
}

#[test]
fn error_messages() {
    assert_eq!(HmmError::NotFitted.to_text(), "model is not fitted");
    assert_eq!(
        HmmError::LengthsMismatch { total: 8, n_samples: 1024 }.to_text(),
        "lengths array sums to 8 but 1024 samples were provided"
    );
    assert_eq!(
        HmmError::ScalingUnderflow.to_text(),
        "forward pass failed; for sequences with negligible probability under the model consider the `log` implementation"
    );
    assert_eq!(HmmError::DimensionMismatch("x".to_string()).to_text(), "dimension mismatch: x");
    assert_eq!(
        HmmError::NotPositiveDefinite("x".to_string()).to_text(),
        "matrix is not symmetric positive-definite: x"
    );
}

#[test]
fn gaussian_bad_covariance_type_rejected() {
    assert!("badcovariance_type".parse::<CovarianceType>().is_err());
}

#[test]
fn gmm_bad_covariance_type_rejected() {
    assert!("bad_covariance_type".parse::<CovarianceType>().is_err());
}
