//! The ways in which building a radar loop can fail.

use vstd::prelude::*;

verus! {

/// Why a request for a radar loop was abandoned.
///
/// A request fails as a whole: the first failure ends it, and no stream is
/// produced.
#[derive(Debug, PartialEq, Eq)]
pub enum RadarError {
    /// The remote store could not be reached.
    ConnectionFailure,
    /// The remote store refused the login.
    AuthFailure,
    /// The directory of scan images could not be listed.
    ListingFailure,
    /// A named file is missing or could not be read.
    RetrievalFailure { name: String },
    /// A payload is empty, cut short, or in no recognised image format.
    DecodeFailure,
    /// The named image does not have the dimensions of the canvas.
    DimensionMismatch { name: String },
    /// The frames could not be encoded into a stream.
    EncodeFailure,
    /// The stream could not be written to its output location.
    PersistenceFailure,
    /// No scan image matches the product.
    NoFramesAvailable,
}

/// Mathematical model of a [`RadarError`]: the same kinds, with file names as
/// sequences of characters.
pub enum Fault {
    ConnectionFailure,
    AuthFailure,
    ListingFailure,
    RetrievalFailure { name: Seq<char> },
    DecodeFailure,
    DimensionMismatch { name: Seq<char> },
    EncodeFailure,
    PersistenceFailure,
    NoFramesAvailable,
}

impl View for RadarError {
    type V = Fault;

    open spec fn view(&self) -> Fault {
        match *self {
            RadarError::ConnectionFailure => Fault::ConnectionFailure,
            RadarError::AuthFailure => Fault::AuthFailure,
            RadarError::ListingFailure => Fault::ListingFailure,
            RadarError::RetrievalFailure { name } => Fault::RetrievalFailure { name: name@ },
            RadarError::DecodeFailure => Fault::DecodeFailure,
            RadarError::DimensionMismatch { name } => Fault::DimensionMismatch { name: name@ },
            RadarError::EncodeFailure => Fault::EncodeFailure,
            RadarError::PersistenceFailure => Fault::PersistenceFailure,
            RadarError::NoFramesAvailable => Fault::NoFramesAvailable,
        }
    }
}

impl RadarError {
    /// A one-line description for logs and responses.
    pub fn describe(&self) -> (text: String)
        ensures
            text@ == self@.description(),
    {
        match self {
            RadarError::ConnectionFailure => String::from_str("connection to the remote store failed"),
            RadarError::AuthFailure => String::from_str("the remote store refused the login"),
            RadarError::ListingFailure => String::from_str("the scan directory could not be listed"),
            RadarError::RetrievalFailure { name } => String::from_str("could not retrieve ").concat(
                name.as_str(),
            ),
            RadarError::DecodeFailure => String::from_str("an image could not be decoded"),
            RadarError::DimensionMismatch { name } => String::from_str(
                "image dimensions do not match the canvas: ",
            ).concat(name.as_str()),
            RadarError::EncodeFailure => String::from_str("the frames could not be encoded"),
            RadarError::PersistenceFailure => String::from_str("the stream could not be stored"),
            RadarError::NoFramesAvailable => String::from_str("no frames available"),
        }
    }
}

impl Fault {
    /// The text that [`RadarError::describe`] gives for this failure.
    pub open spec fn description(self) -> Seq<char> {
        match self {
            Fault::ConnectionFailure => "connection to the remote store failed"@,
            Fault::AuthFailure => "the remote store refused the login"@,
            Fault::ListingFailure => "the scan directory could not be listed"@,
            Fault::RetrievalFailure { name } => "could not retrieve "@ + name,
            Fault::DecodeFailure => "an image could not be decoded"@,
            Fault::DimensionMismatch { name } => "image dimensions do not match the canvas: "@
                + name,
            Fault::EncodeFailure => "the frames could not be encoded"@,
            Fault::PersistenceFailure => "the stream could not be stored"@,
            Fault::NoFramesAvailable => "no frames available"@,
        }
    }
}

} // verus!
