//! Failure kinds and the host exceptions that signal them.

use vstd::prelude::*;

verus! {

/// The boundary operation during which a value could not be moved between
/// the host and the library.
#[derive(Clone, Copy, Debug, PartialEq, Eq, Structural)]
pub enum Stage {
    /// Reading the handle field of the host object.
    HandleRead,
    /// Reading the handle field's value as a 64-bit integer.
    HandleConvert,
    /// Asking the host for the length of the input array.
    InputLength,
    /// Copying the input array out of the host.
    InputRead,
    /// Allocating the output array in the host.
    OutputCreate,
    /// Copying the result into the output array.
    OutputWrite,
}

/// Why an operation on a stream failed.
#[derive(Clone, Copy, Debug, PartialEq, Eq, Structural)]
pub enum DenoiseError {
    /// The handle names no live engine: it was never opened, or it was closed.
    InvalidState,
    /// The number of samples is not a whole number of frames.
    InvalidArgument,
    /// A value could not be moved across the host boundary.
    ConversionFailure(Stage),
    /// No engine could be allocated. There is no way to go on without one:
    /// the host boundary treats this as fatal.
    AllocationFailure,
}

impl Stage {
    /// The text that opens the message of a failure at this stage. The host
    /// side appends its own description of what went wrong.
    pub open spec fn prefix_text(self) -> Seq<char> {
        match self {
            Stage::HandleRead => "Failed to get denoiser pointer: "@,
            Stage::HandleConvert => "Failed to convert denoiser pointer to long: "@,
            Stage::InputLength => "Failed to get input length: "@,
            Stage::InputRead => "Failed to convert short array: "@,
            Stage::OutputCreate => "Failed to create short array: "@,
            Stage::OutputWrite => "Failed populate short array: "@,
        }
    }

    /// Returns [`Stage::prefix_text`].
    pub fn prefix(self) -> (text: &'static str)
        ensures
            text@ == self.prefix_text(),
    {
        match self {
            Stage::HandleRead => "Failed to get denoiser pointer: ",
            Stage::HandleConvert => "Failed to convert denoiser pointer to long: ",
            Stage::InputLength => "Failed to get input length: ",
            Stage::InputRead => "Failed to convert short array: ",
            Stage::OutputCreate => "Failed to create short array: ",
            Stage::OutputWrite => "Failed populate short array: ",
        }
    }
}

impl DenoiseError {
    /// The host exception class that signals this failure, as a JNI class
    /// name.
    pub open spec fn class_name(self) -> Seq<char> {
        match self {
            DenoiseError::InvalidState => "java/lang/IllegalStateException"@,
            DenoiseError::InvalidArgument => "java/lang/IllegalArgumentException"@,
            DenoiseError::ConversionFailure(_) => "java/lang/RuntimeException"@,
            DenoiseError::AllocationFailure => "java/lang/OutOfMemoryError"@,
        }
    }

    /// The message carried by the exception. For a conversion failure this is
    /// the stage's prefix, to be followed by the host's description.
    pub open spec fn message_text(self) -> Seq<char> {
        match self {
            DenoiseError::InvalidState => "Denoiser is closed"@,
            DenoiseError::InvalidArgument => "Input length must be a multiple of 480"@,
            DenoiseError::ConversionFailure(stage) => stage.prefix_text(),
            DenoiseError::AllocationFailure => "Failed to allocate denoiser"@,
        }
    }

    /// Returns [`DenoiseError::class_name`].
    pub fn exception_class(self) -> (name: &'static str)
        ensures
            name@ == self.class_name(),
    {
        match self {
            DenoiseError::InvalidState => "java/lang/IllegalStateException",
            DenoiseError::InvalidArgument => "java/lang/IllegalArgumentException",
            DenoiseError::ConversionFailure(_) => "java/lang/RuntimeException",
            DenoiseError::AllocationFailure => "java/lang/OutOfMemoryError",
        }
    }

    /// Returns [`DenoiseError::message_text`].
    pub fn message(self) -> (text: &'static str)
        ensures
            text@ == self.message_text(),
    {
        match self {
            DenoiseError::InvalidState => "Denoiser is closed",
            DenoiseError::InvalidArgument => "Input length must be a multiple of 480",
            DenoiseError::ConversionFailure(stage) => stage.prefix(),
            DenoiseError::AllocationFailure => "Failed to allocate denoiser",
        }
    }
}

} // verus!
