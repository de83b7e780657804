//! Error kinds reported by the library.
use vstd::prelude::*;

verus! {

/// An error from depth processing, stereo synthesis, or the video pipeline.
///
/// Each variant carries a human-readable message; `message` renders it with
/// the variant's prefix.
#[derive(Debug, Clone)]
pub enum SpatialError {
    /// The depth-estimation backend failed.
    ModelError(String),
    /// An image or depth grid was malformed (dimension mismatch, empty input).
    ImageError(String),
    /// A depth buffer had an unexpected shape.
    TensorError(String),
    /// A decoder/encoder stream failed or closed prematurely.
    IoError(String),
    /// A filter or pipeline parameter was out of range.
    ConfigError(String),
    /// Anything else.
    Other(String),
}

pub type SpatialResult<T> = Result<T, SpatialError>;

impl SpatialError {
    /// What `message` returns: the variant's prefix followed by its payload.
    pub open spec fn message_spec(&self) -> Seq<char> {
        match self {
            SpatialError::ModelError(m) => "Model error: "@ + m@,
            SpatialError::ImageError(m) => "Image error: "@ + m@,
            SpatialError::TensorError(m) => "Tensor error: "@ + m@,
            SpatialError::IoError(m) => "I/O error: "@ + m@,
            SpatialError::ConfigError(m) => "Configuration error: "@ + m@,
            SpatialError::Other(m) => "Error: "@ + m@,
        }
    }

    /// Renders the error as a prefixed message string.
    pub fn message(&self) -> (r: String)
        ensures
            r@ == self.message_spec(),
    {
        let (prefix, m): (&str, &String) = match self {
            SpatialError::ModelError(m) => ("Model error: ", m),
            SpatialError::ImageError(m) => ("Image error: ", m),
            SpatialError::TensorError(m) => ("Tensor error: ", m),
            SpatialError::IoError(m) => ("I/O error: ", m),
            SpatialError::ConfigError(m) => ("Configuration error: ", m),
            SpatialError::Other(m) => ("Error: ", m),
        };
        prefix.to_owned().concat(m.as_str())
    }
}

} // verus!
