//! The ways in which building a shader program fails.

use vstd::prelude::*;

verus! {

/// A failure while a shader program is built. Each variant carries the
/// detail that the failing stage reported.
#[derive(Debug)]
pub enum ShaderError {
    /// The source file could not be read.
    ReadingFileError(String),
    /// A shader did not compile.
    CompileError(String),
    /// The program did not link.
    LinkingError(String),
}

/// The text that an error shows to the user: what failed, then the detail.
pub open spec fn message_of(error: ShaderError) -> Seq<char> {
    match error {
        ShaderError::ReadingFileError(detail) => "Error while reading shader source file: "@
            + detail@,
        ShaderError::CompileError(detail) => "Error while compiling shader: "@ + detail@,
        ShaderError::LinkingError(detail) => "Error while linking program: "@ + detail@,
    }
}

/// `head` followed by `tail`, by the `concat` of std on the slice of the
/// two: the result holds the characters of `head`, then those of `tail`.
#[verifier::external_body]
fn joined(head: &str, tail: &str) -> (text: String)
    ensures
        text@ == head@ + tail@,
{
    [head, tail].concat()
}

impl ShaderError {
    /// The text that the error shows to the user.
    pub fn message(&self) -> (text: String)
        ensures
            text@ == message_of(*self),
    {
        match self {
            ShaderError::ReadingFileError(detail) => joined(
                "Error while reading shader source file: ",
                detail.as_str(),
            ),
            ShaderError::CompileError(detail) => joined(
                "Error while compiling shader: ",
                detail.as_str(),
            ),
            ShaderError::LinkingError(detail) => joined(
                "Error while linking program: ",
                detail.as_str(),
            ),
        }
    }
}

} // verus!
