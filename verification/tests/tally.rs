use hcaptcha_solver::error::Error;
use hcaptcha_solver::tally::{aggregate, check_scores, Outcome, RequestResult};

fn id(n: usize) -> String {
    format!("img-{}", n)
}

fn errors(result: &RequestResult) -> Vec<(String, String)> {
    result.errors().clone()
}

#[test]
fn the_positives_are_exactly_the_matches() {
    // The classifier says yes for the images 1, 4 and 5 of seven.
    let matches = [1usize, 4, 5];
    let finished = (0..7)
        .map(|n| {
            (id(n), if matches.contains(&n) { Outcome::Positive } else { Outcome::Negative })
        })
        .collect();
    let result = aggregate(finished);
    assert_eq!(result.trues(), &vec![id(1), id(4), id(5)]);
    assert!(result.errors().is_empty());
    for n in 0..7 {
        assert_eq!(result.is_true(&id(n)), matches.contains(&n));
        assert!(result.error_of(&id(n)).is_none());
    }
}

#[test]
fn one_failure_leaves_the_others_as_they_are() {
    let run = |broken: Option<usize>| {
        aggregate(
            (0..5)
                .map(|n| {
                    let outcome = if Some(n) == broken {
                        Outcome::from_result(Err(Error::ImageDecodeFailure("bad bytes".to_string())))
                    } else {
                        Outcome::from_result(Ok(n % 2 == 0))
                    };
                    (id(n), outcome)
                })
                .collect(),
        )
    };
    let whole = run(None);
    assert_eq!(whole.trues(), &vec![id(0), id(2), id(4)]);
    let broken = run(Some(2));
    assert_eq!(broken.trues(), &vec![id(0), id(4)]);
    assert_eq!(
        errors(&broken),
        vec![(id(2), "Image decode failure: bad bytes".to_string())]
    );
    for n in [0, 1, 3, 4] {
        assert_eq!(broken.is_true(&id(n)), whole.is_true(&id(n)));
        assert!(broken.error_of(&id(n)).is_none());
    }
    assert!(!broken.is_true(&id(2)));
}

#[test]
fn every_image_is_in_one_class_only() {
    let result = aggregate(vec![
        (id(0), Outcome::Positive),
        (id(1), Outcome::Failed("a".to_string())),
        (id(2), Outcome::Negative),
        (id(3), Outcome::Failed("b".to_string())),
    ]);
    for n in 0..4 {
        let positive = result.is_true(&id(n));
        let failed = result.error_of(&id(n)).is_some();
        assert!(!(positive && failed));
        assert_eq!(positive, n == 0);
        assert_eq!(failed, n == 1 || n == 3);
    }
    assert_eq!(result.error_of(&id(3)).unwrap(), "b");
}

#[test]
fn a_later_failure_replaces_an_earlier_one() {
    let mut result = RequestResult::new();
    result.record(id(1), Outcome::Failed("first".to_string()));
    result.record(id(2), Outcome::Failed("other".to_string()));
    result.record(id(1), Outcome::Failed("second".to_string()));
    assert_eq!(
        errors(&result),
        vec![(id(1), "second".to_string()), (id(2), "other".to_string())]
    );
    result.record(id(1), Outcome::Positive);
    result.record(id(1), Outcome::Positive);
    assert_eq!(result.trues(), &vec![id(1), id(1)]);
}

#[test]
fn nothing_recorded() {
    let result = aggregate(Vec::new());
    assert!(result.trues().is_empty() && result.errors().is_empty());
    assert!(!result.is_true(""));
}

#[test]
fn outcomes_of_attempts() {
    assert!(matches!(Outcome::from_result(Ok(true)), Outcome::Positive));
    assert!(matches!(Outcome::from_result(Ok(false)), Outcome::Negative));
    match Outcome::from_result(Err(Error::UpstreamUnavailable("gone".to_string()))) {
        Outcome::Failed(why) => assert_eq!(why, "Upstream unavailable: gone"),
        other => panic!("{:?}", other),
    }
}

#[test]
fn descriptions() {
    assert_eq!(
        Error::MalformedPrompt.describe(),
        "Malformed prompt: the prompt holds neither `containing` nor `select all ... images`"
    );
    assert_eq!(Error::UnknownChallenge("cat".to_string()).describe(), "Unknown challenge: cat");
    assert_eq!(
        Error::UpstreamUnavailable("x".to_string()).describe(),
        "Upstream unavailable: x"
    );
    assert_eq!(Error::InvalidModel("y".to_string()).describe(), "Invalid model: y");
    assert_eq!(Error::InferenceFailure("z".to_string()).describe(), "Inference failure: z");
    assert_eq!(Error::ImageDecodeFailure("".to_string()).describe(), "Image decode failure: ");
}

#[test]
fn only_two_scores_can_be_compared() {
    assert!(check_scores(2).is_ok());
    for count in [0usize, 1, 3, 1000] {
        match check_scores(count) {
            Err(Error::InferenceFailure(why)) => {
                assert_eq!(why, "the model did not give two scores")
            }
            other => panic!("{:?}", other),
        }
    }
}
