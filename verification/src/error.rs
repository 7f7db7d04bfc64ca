use vstd::prelude::*;

verus! {

/// Why a payload could not be taken out of an image.
#[derive(Debug, Clone, Copy, PartialEq, Eq, Structural)]
#[non_exhaustive]
pub enum Error {
    /// The stored length is more than the image, or this platform, can hold.
    SizeLimit,
    /// The image's pixels are not laid out in one of the four supported ways.
    UnsupportedFormat,
    /// The stream ended before all the bytes asked for were read.
    UnexpectedEof,
}

impl Error {
    /// The text of [`Error::message`].
    pub open spec fn spec_message(self) -> Seq<char> {
        match self {
            Error::SizeLimit => "size limit exceeded"@,
            Error::UnsupportedFormat => "unsupported image format"@,
            Error::UnexpectedEof => "failed to fill whole buffer"@,
        }
    }

    /// A short description of the error, for a person to read.
    pub fn message(&self) -> (text: String)
        ensures
            text@ == self.spec_message(),
    {
        match self {
            Error::SizeLimit => "size limit exceeded".to_string(),
            Error::UnsupportedFormat => "unsupported image format".to_string(),
            Error::UnexpectedEof => "failed to fill whole buffer".to_string(),
        }
    }
}

} // verus!
