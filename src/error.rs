//! The ways a resolution run fails.
use vstd::prelude::*;
use vstd::string::StringExecFns;

verus! {

/// Why a resolution run, or the encoding of its result, failed.
#[derive(Debug)]
#[non_exhaustive]
pub enum Error {
    /// A clone failed otherwise than by a missing repository.
    Git(String),
    /// The manifest metadata could not be read.
    Metadata(String),
    /// A needed environment variable is unset or not Unicode.
    Env(String),
    /// The result could not be encoded.
    Encode(String),
    /// Bytes could not be decoded into a result.
    Decode(String),
    /// A file could not be read or written.
    Io(String),
    /// Packages without license, named with their versions.
    NoLicensesFound(String),
    /// A copy rule names a source package that was not resolved.
    CopiedCrateNotFound(String),
    /// A copy rule names a target package that was not resolved.
    CopyTargetNotFound(String),
    /// A page that should be a repository home page has no file list.
    NotAHostingPage(String),
    Unknown,
}

impl Error {
    /// A one-line description of the error.
    pub fn message(&self) -> (r: String)
        ensures
            match self {
                Error::Git(m) => r@ == "git error: "@ + m@,
                Error::Metadata(m) => r@ == "cargo metadata error: "@ + m@,
                Error::Env(m) => r@ == "environment variable error: "@ + m@,
                Error::Encode(m) => r@ == "encoding error: "@ + m@,
                Error::Decode(m) => r@ == "decoding error: "@ + m@,
                Error::Io(m) => r@ == "i/o error: "@ + m@,
                Error::NoLicensesFound(m) => r@ == "No licenses found for: "@ + m@,
                Error::CopiedCrateNotFound(m) => r@ == "copied crate not found: "@ + m@,
                Error::CopyTargetNotFound(m) => r@ == "copy target crate not found: "@ + m@,
                Error::NotAHostingPage(m) => r@ == "not a recognized hosting page: "@ + m@,
                Error::Unknown => r@ == "unknown error"@,
            },
    {
        match self {
            Error::Git(m) => describe("git error: ", m),
            Error::Metadata(m) => describe("cargo metadata error: ", m),
            Error::Env(m) => describe("environment variable error: ", m),
            Error::Encode(m) => describe("encoding error: ", m),
            Error::Decode(m) => describe("decoding error: ", m),
            Error::Io(m) => describe("i/o error: ", m),
            Error::NoLicensesFound(m) => describe("No licenses found for: ", m),
            Error::CopiedCrateNotFound(m) => describe("copied crate not found: ", m),
            Error::CopyTargetNotFound(m) => describe("copy target crate not found: ", m),
            Error::NotAHostingPage(m) => describe("not a recognized hosting page: ", m),
            Error::Unknown => String::from_str("unknown error"),
        }
    }
}

fn describe(prefix: &str, detail: &String) -> (r: String)
    ensures
        r@ == prefix@ + detail@,
{
    String::from_str(prefix).concat(detail.as_str())
}

} // verus!
