use vstd::prelude::*;
use vstd::string::StringExecFns;

verus! {

/// Why a request, or one image of it, could not be served.
#[derive(Debug)]
pub enum Error {
    /// The prompt names no category: it holds neither marker phrase.
    MalformedPrompt,
    /// No model exists for the category; the payload is the category asked for.
    UnknownChallenge(String),
    /// The catalog, a model or an image could not be fetched.
    UpstreamUnavailable(String),
    /// The model bytes do not parse into a runnable graph.
    InvalidModel(String),
    /// The graph did not produce the expected pair of scores.
    InferenceFailure(String),
    /// The image bytes are not a decodable image.
    ImageDecodeFailure(String),
}

impl Error {
    /// The words that stand before the detail in a description.
    pub open spec fn headline(self) -> Seq<char> {
        match self {
            Error::MalformedPrompt => "Malformed prompt: "@,
            Error::UnknownChallenge(_) => "Unknown challenge: "@,
            Error::UpstreamUnavailable(_) => "Upstream unavailable: "@,
            Error::InvalidModel(_) => "Invalid model: "@,
            Error::InferenceFailure(_) => "Inference failure: "@,
            Error::ImageDecodeFailure(_) => "Image decode failure: "@,
        }
    }

    /// What the error carries besides its kind.
    pub open spec fn detail(self) -> Seq<char> {
        match self {
            Error::MalformedPrompt => "the prompt holds neither `containing` nor `select all ... images`"@,
            Error::UnknownChallenge(key) => key@,
            Error::UpstreamUnavailable(why) => why@,
            Error::InvalidModel(why) => why@,
            Error::InferenceFailure(why) => why@,
            Error::ImageDecodeFailure(why) => why@,
        }
    }

    /// The human-readable description: headline, then detail.
    pub open spec fn description(self) -> Seq<char> {
        self.headline() + self.detail()
    }

    /// Renders the error as text for a result's failure mapping.
    pub fn describe(&self) -> (text: String)
        ensures
            text@ == self.description(),
    {
        match self {
            Error::MalformedPrompt => {
                let mut text = String::from_str("Malformed prompt: ");
                text.append("the prompt holds neither `containing` nor `select all ... images`");
                text
            },
            Error::UnknownChallenge(key) => {
                let mut text = String::from_str("Unknown challenge: ");
                text.append(key.as_str());
                text
            },
            Error::UpstreamUnavailable(why) => {
                let mut text = String::from_str("Upstream unavailable: ");
                text.append(why.as_str());
                text
            },
            Error::InvalidModel(why) => {
                let mut text = String::from_str("Invalid model: ");
                text.append(why.as_str());
                text
            },
            Error::InferenceFailure(why) => {
                let mut text = String::from_str("Inference failure: ");
                text.append(why.as_str());
                text
            },
            Error::ImageDecodeFailure(why) => {
                let mut text = String::from_str("Image decode failure: ");
                text.append(why.as_str());
                text
            },
        }
    }

    /// A copy of the error.
    pub fn duplicate(&self) -> (copy: Error)
        ensures
            copy == *self,
    {
        match self {
            Error::MalformedPrompt => Error::MalformedPrompt,
            Error::UnknownChallenge(key) => Error::UnknownChallenge(key.clone()),
            Error::UpstreamUnavailable(why) => Error::UpstreamUnavailable(why.clone()),
            Error::InvalidModel(why) => Error::InvalidModel(why.clone()),
            Error::InferenceFailure(why) => Error::InferenceFailure(why.clone()),
            Error::ImageDecodeFailure(why) => Error::ImageDecodeFailure(why.clone()),
        }
    }
}

} // verus!
