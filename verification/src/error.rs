//! What can go wrong.

use crate::text::{append_decimal, decimal};
use vstd::prelude::*;
use vstd::string::StringExecFns;

verus! {

/// The errors of this crate.  An error of another library is carried as its text.
#[derive(Clone, Debug)]
pub enum Error {
    Ort(String),
    Io(String),
    Image(String),
    ModelNotFound(String),
    InvalidModel(String),
    BatchTooLarge { requested: usize, max: usize },
    NoProviderAvailable,
    SessionBuild(String),
    PipelineStopped,
}

impl Error {
    /// The text of the error.
    pub open spec fn text(self) -> Seq<char> {
        match self {
            Error::Ort(e) => "ORT error: "@ + e@,
            Error::Io(e) => "I/O error: "@ + e@,
            Error::Image(e) => "Image error: "@ + e@,
            Error::ModelNotFound(path) => "Model file not found: "@ + path@,
            Error::InvalidModel(why) => "Invalid model: "@ + why@,
            Error::BatchTooLarge { requested, max } => "Batch too large: requested "@ + decimal(
                requested as nat,
            ) + ", max "@ + decimal(max as nat),
            Error::NoProviderAvailable => "All execution providers failed to initialize"@,
            Error::SessionBuild(e) => "Session build error: "@ + e@,
            Error::PipelineStopped => "Pipeline stopped"@,
        }
    }

    /// The text of the error, for a user to read.
    pub fn message(&self) -> (res: String)
        ensures
            res@ == self.text(),
    {
        match self {
            Error::Ort(e) => with_prefix("ORT error: ", e),
            Error::Io(e) => with_prefix("I/O error: ", e),
            Error::Image(e) => with_prefix("Image error: ", e),
            Error::ModelNotFound(path) => with_prefix("Model file not found: ", path),
            Error::InvalidModel(why) => with_prefix("Invalid model: ", why),
            Error::BatchTooLarge { requested, max } => {
                let mut out = "Batch too large: requested ".to_owned();
                append_decimal(&mut out, *requested);
                out.append(", max ");
                append_decimal(&mut out, *max);
                out
            },
            Error::NoProviderAvailable => "All execution providers failed to initialize".to_owned(),
            Error::SessionBuild(e) => with_prefix("Session build error: ", e),
            Error::PipelineStopped => "Pipeline stopped".to_owned(),
        }
    }
}

fn with_prefix(prefix: &str, rest: &String) -> (res: String)
    ensures
        res@ == prefix@ + rest@,
{
    let mut out = prefix.to_owned();
    out.append(rest.as_str());
    out
}

} // verus!
