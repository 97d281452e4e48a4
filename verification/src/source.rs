//! Where the catalog, the models and the images come from, and what a reply's
//! status means.

use vstd::prelude::*;
use vstd::string::StringExecFns;
use crate::error::Error;

verus! {

/// The address of the catalog document.
pub const CATALOG_URL: &'static str =
    "https://github.com/QIN2DIM/hcaptcha-challenger/raw/main/src/objects.yaml";

/// What stands before the model's name in the address of a model.
pub const MODEL_URL_PREFIX: &'static str =
    "https://github.com/QIN2DIM/hcaptcha-challenger/releases/download/model/";

/// What stands after the model's name in the address of a model.
pub const MODEL_URL_SUFFIX: &'static str = ".onnx";

/// What stands before the identifier in the address of an image.
pub const IMAGE_URL_PREFIX: &'static str = "https://imgs.hcaptcha.com/";

/// What is said of a model source that answers with an error.
pub const MODEL_SOURCE_FAILED: &'static str = "the model source answered with an error status";

/// What is said of an image source that answers with an error.
pub const IMAGE_SOURCE_FAILED: &'static str = "the image source answered with an error status";

/// The status with which a source says that it does not have what was asked.
pub const NOT_FOUND: u16 = 404;

/// The address of the model `model`.
pub open spec fn model_url_of(model: Seq<char>) -> Seq<char> {
    MODEL_URL_PREFIX@ + model + MODEL_URL_SUFFIX@
}

/// The address of the image `id`.
pub open spec fn image_url_of(id: Seq<char>) -> Seq<char> {
    IMAGE_URL_PREFIX@ + id
}

/// The reply carries what was asked for: its status is one of the 2xx.
pub open spec fn is_success(status: u16) -> bool {
    200 <= status <= 299
}

/// Builds the address from which the model `model` is fetched.
pub fn model_url(model: &str) -> (url: String)
    ensures
        url@ == model_url_of(model@),
{
    let mut url = String::from_str(MODEL_URL_PREFIX);
    url.append(model);
    url.append(MODEL_URL_SUFFIX);
    url
}

/// Builds the address from which the image `id` is fetched.
pub fn image_url(id: &str) -> (url: String)
    ensures
        url@ == image_url_of(id@),
{
    let mut url = String::from_str(IMAGE_URL_PREFIX);
    url.append(id);
    url
}

/// Judges the status of the reply to a request for the model of `name`: a
/// success passes, "not found" means that no model exists for the category,
/// and any other status means that the source is unavailable.
pub fn check_model_status(status: u16, name: &str) -> (r: Result<(), Error>)
    ensures
        match r {
            Ok(_) => is_success(status),
            Err(Error::UnknownChallenge(asked)) => status == NOT_FOUND && asked@ == name@,
            Err(Error::UpstreamUnavailable(why)) => !is_success(status) && status != NOT_FOUND
                && why@ == MODEL_SOURCE_FAILED@,
            Err(_) => false,
        },
{
    if 200 <= status && status <= 299 {
        Ok(())
    } else if status == NOT_FOUND {
        Err(Error::UnknownChallenge(String::from_str(name)))
    } else {
        Err(Error::UpstreamUnavailable(String::from_str(MODEL_SOURCE_FAILED)))
    }
}

/// Judges the status of the reply to a request for an image: anything but a
/// success means that the source is unavailable for this image.
pub fn check_image_status(status: u16) -> (r: Result<(), Error>)
    ensures
        match r {
            Ok(_) => is_success(status),
            Err(Error::UpstreamUnavailable(why)) => !is_success(status) && why@
                == IMAGE_SOURCE_FAILED@,
            Err(_) => false,
        },
{
    if 200 <= status && status <= 299 {
        Ok(())
    } else {
        Err(Error::UpstreamUnavailable(String::from_str(IMAGE_SOURCE_FAILED)))
    }
}

} // verus!
