use hcaptcha_solver::error::Error;
use hcaptcha_solver::solve::{solve, Action, Event, Request, Stage};
use hcaptcha_solver::source::{
    check_image_status, check_model_status, image_url, model_url, CATALOG_URL,
};

fn request(prompt: &str, images: &[&str]) -> Request {
    Request::new(prompt.to_string(), images.iter().map(|i| i.to_string()).collect())
}

#[test]
fn a_request_from_prompt_to_result() {
    let mut r = request("Please click each image containing a dog.", &["a", "b", "c", "d"]);
    assert_eq!(r.stage(), Stage::NormalizingPrompt);
    match solve(&mut r, Event::Begin) {
        Action::ResolveModel(key) => assert_eq!(key, "dog"),
        other => panic!("{:?}", other),
    }
    assert_eq!(r.stage(), Stage::ResolvingModel);
    assert!(matches!(solve(&mut r, Event::ModelResolved(Ok(()))), Action::Dispatch));
    assert_eq!(r.stage(), Stage::Dispatching);
    assert_eq!(r.images(), &vec!["a".to_string(), "b".to_string(), "c".to_string(), "d".to_string()]);
    assert!(matches!(solve(&mut r, Event::Dispatched), Action::Collect(0)));
    assert_eq!(r.stage(), Stage::Aggregating);
    assert!(matches!(solve(&mut r, Event::ImageFinished(Ok(true))), Action::Collect(1)));
    assert!(matches!(
        solve(
            &mut r,
            Event::ImageFinished(Err(Error::ImageDecodeFailure("corrupted".to_string())))
        ),
        Action::Collect(2)
    ));
    assert!(matches!(solve(&mut r, Event::ImageFinished(Ok(false))), Action::Collect(3)));
    assert_eq!(r.stage(), Stage::Aggregating);
    match solve(&mut r, Event::ImageFinished(Ok(true))) {
        Action::Emit(result) => {
            assert_eq!(result.trues(), &vec!["a".to_string(), "d".to_string()]);
            assert_eq!(
                result.errors(),
                &vec![("b".to_string(), "Image decode failure: corrupted".to_string())]
            );
        }
        other => panic!("{:?}", other),
    }
    assert_eq!(r.stage(), Stage::Done);
    assert!(matches!(solve(&mut r, Event::ImageFinished(Ok(true))), Action::Ignore));
    assert!(matches!(solve(&mut r, Event::Begin), Action::Ignore));
    assert_eq!(r.stage(), Stage::Done);
}

#[test]
fn a_malformed_prompt_ends_the_request() {
    let mut r = request("Pick the dogs", &["a"]);
    assert!(matches!(solve(&mut r, Event::Begin), Action::Abort(Error::MalformedPrompt)));
    assert_eq!(r.stage(), Stage::Done);
    assert!(matches!(solve(&mut r, Event::ModelResolved(Ok(()))), Action::Ignore));
}

#[test]
fn a_model_that_cannot_be_made_ready_ends_the_request() {
    for error in [
        Error::UnknownChallenge("dog".to_string()),
        Error::UpstreamUnavailable("down".to_string()),
        Error::InvalidModel("no graph".to_string()),
    ] {
        let said = error.describe();
        let mut r = request("containing a dog", &["a"]);
        solve(&mut r, Event::Begin);
        match solve(&mut r, Event::ModelResolved(Err(error))) {
            Action::Abort(e) => assert_eq!(e.describe(), said),
            other => panic!("{:?}", other),
        }
        assert_eq!(r.stage(), Stage::Done);
        assert!(matches!(solve(&mut r, Event::Dispatched), Action::Ignore));
    }
}

#[test]
fn a_request_without_images() {
    let mut r = request("select all car images", &[]);
    assert!(matches!(solve(&mut r, Event::Begin), Action::ResolveModel(_)));
    assert!(matches!(solve(&mut r, Event::ModelResolved(Ok(()))), Action::Dispatch));
    match solve(&mut r, Event::Dispatched) {
        Action::Emit(result) => {
            assert!(result.trues().is_empty() && result.errors().is_empty())
        }
        other => panic!("{:?}", other),
    }
    assert_eq!(r.stage(), Stage::Done);
}

#[test]
fn events_out_of_turn_change_nothing() {
    let mut r = request("containing a dog", &["a"]);
    assert!(matches!(solve(&mut r, Event::Dispatched), Action::Ignore));
    assert!(matches!(solve(&mut r, Event::ImageFinished(Ok(true))), Action::Ignore));
    assert!(matches!(solve(&mut r, Event::ModelResolved(Ok(()))), Action::Ignore));
    assert_eq!(r.stage(), Stage::NormalizingPrompt);
    solve(&mut r, Event::Begin);
    assert!(matches!(solve(&mut r, Event::Begin), Action::Ignore));
    assert_eq!(r.stage(), Stage::ResolvingModel);
    solve(&mut r, Event::ModelResolved(Ok(())));
    assert!(matches!(solve(&mut r, Event::ImageFinished(Ok(true))), Action::Ignore));
    solve(&mut r, Event::Dispatched);
    assert!(matches!(solve(&mut r, Event::Dispatched), Action::Ignore));
    match solve(&mut r, Event::ImageFinished(Ok(true))) {
        Action::Emit(result) => assert_eq!(result.trues(), &vec!["a".to_string()]),
        other => panic!("{:?}", other),
    }
}

#[test]
fn every_image_failing_is_still_a_result() {
    let mut r = request("containing a dog", &["a", "b"]);
    solve(&mut r, Event::Begin);
    solve(&mut r, Event::ModelResolved(Ok(())));
    solve(&mut r, Event::Dispatched);
    solve(&mut r, Event::ImageFinished(Err(Error::UpstreamUnavailable("1".to_string()))));
    match solve(&mut r, Event::ImageFinished(Err(Error::InferenceFailure("2".to_string())))) {
        Action::Emit(result) => {
            assert!(result.trues().is_empty());
            assert_eq!(result.error_of("a").unwrap(), "Upstream unavailable: 1");
            assert_eq!(result.error_of("b").unwrap(), "Inference failure: 2");
        }
        other => panic!("{:?}", other),
    }
}

#[test]
fn addresses() {
    assert_eq!(
        CATALOG_URL,
        "https://github.com/QIN2DIM/hcaptcha-challenger/raw/main/src/objects.yaml"
    );
    assert_eq!(
        model_url("dog"),
        "https://github.com/QIN2DIM/hcaptcha-challenger/releases/download/model/dog.onnx"
    );
    assert_eq!(image_url("abc/def"), "https://imgs.hcaptcha.com/abc/def");
    assert_eq!(image_url(""), "https://imgs.hcaptcha.com/");
}

#[test]
fn statuses() {
    for status in [200u16, 204, 299] {
        assert!(check_model_status(status, "dog").is_ok());
        assert!(check_image_status(status).is_ok());
    }
    match check_model_status(404, "dog") {
        Err(Error::UnknownChallenge(asked)) => assert_eq!(asked, "dog"),
        other => panic!("{:?}", other),
    }
    for status in [0u16, 199, 300, 403, 500, 65535] {
        match check_model_status(status, "dog") {
            Err(Error::UpstreamUnavailable(why)) => {
                assert_eq!(why, "the model source answered with an error status")
            }
            other => panic!("{:?}", other),
        }
    }
    for status in [0u16, 199, 300, 404, 500] {
        match check_image_status(status) {
            Err(Error::UpstreamUnavailable(why)) => {
                assert_eq!(why, "the image source answered with an error status")
            }
            other => panic!("{:?}", other),
        }
    }
}
