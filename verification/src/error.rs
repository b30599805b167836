//! The errors of a conversion.

use crate::text::join;
use vstd::prelude::*;
use vstd::std_specs::convert::FromSpecImpl;

verus! {

/// The error of a file operation, carried through unread.
#[verifier::external_type_specification]
#[verifier::external_body]
pub struct ExIoError(std::io::Error);

/// The error of the archive container, carried through unread.
#[verifier::external_type_specification]
#[verifier::external_body]
pub struct ExZipError(zip::result::ZipError);

/// The error of reading or writing a document, carried through unread.
#[verifier::external_type_specification]
#[verifier::external_body]
pub struct ExJsonError(serde_json::Error);

/// Why a conversion failed.
#[derive(Debug)]
pub enum ScpError {
    /// The file system or the archive could not be read or written.
    Io(std::io::Error),
    /// The archive container is corrupt or lacks an entry.
    Zip(zip::result::ZipError),
    /// A document could not be read or written.
    Json(serde_json::Error),
    /// A path that does not exist or leaves its base directory.
    InvalidPath(String),
    /// A pack without manifest, a file with the wrong extension, or a
    /// document of the wrong shape.
    InvalidFormat(String),
}

impl From<std::io::Error> for ScpError {
    fn from(err: std::io::Error) -> (r: ScpError) {
        ScpError::Io(err)
    }
}

impl FromSpecImpl<std::io::Error> for ScpError {
    open spec fn obeys_from_spec() -> bool {
        true
    }

    open spec fn from_spec(err: std::io::Error) -> ScpError {
        ScpError::Io(err)
    }
}

impl From<zip::result::ZipError> for ScpError {
    fn from(err: zip::result::ZipError) -> (r: ScpError) {
        ScpError::Zip(err)
    }
}

impl FromSpecImpl<zip::result::ZipError> for ScpError {
    open spec fn obeys_from_spec() -> bool {
        true
    }

    open spec fn from_spec(err: zip::result::ZipError) -> ScpError {
        ScpError::Zip(err)
    }
}

impl From<serde_json::Error> for ScpError {
    fn from(err: serde_json::Error) -> (r: ScpError) {
        ScpError::Json(err)
    }
}

impl FromSpecImpl<serde_json::Error> for ScpError {
    open spec fn obeys_from_spec() -> bool {
        true
    }

    open spec fn from_spec(err: serde_json::Error) -> ScpError {
        ScpError::Json(err)
    }
}

/// `Display` of `std::io::Error`: the error in words. Nothing is claimed of
/// the text.
#[verifier::external_body]
fn io_error_text(err: &std::io::Error) -> (r: String) {
    format!("{}", err)
}

/// `Display` of `zip::result::ZipError`: the error in words. Nothing is
/// claimed of the text.
#[verifier::external_body]
fn zip_error_text(err: &zip::result::ZipError) -> (r: String) {
    format!("{}", err)
}

/// `Display` of `serde_json::Error`: the error in words. Nothing is claimed
/// of the text.
#[verifier::external_body]
fn json_error_text(err: &serde_json::Error) -> (r: String) {
    format!("{}", err)
}

impl ScpError {
    /// The words that stand before the detail of each kind of error.
    pub open spec fn heading(self) -> Seq<char> {
        match self {
            ScpError::Io(_) => "IO error: "@,
            ScpError::Zip(_) => "ZIP error: "@,
            ScpError::Json(_) => "JSON error: "@,
            ScpError::InvalidPath(_) => "Invalid path: "@,
            ScpError::InvalidFormat(_) => "Invalid format: "@,
        }
    }

    /// The error in one line: the heading of its kind, then the detail. For
    /// the two kinds that carry a text of their own the detail is that text.
    pub fn message(&self) -> (r: String)
        ensures
            r@.len() >= self.heading().len(),
            r@.subrange(0, self.heading().len() as int) == self.heading(),
            self matches ScpError::InvalidPath(p) ==> r@ == "Invalid path: "@ + p@,
            self matches ScpError::InvalidFormat(m) ==> r@ == "Invalid format: "@ + m@,
    {
        let r = match self {
            ScpError::Io(err) => join("IO error: ", io_error_text(err).as_str()),
            ScpError::Zip(err) => join("ZIP error: ", zip_error_text(err).as_str()),
            ScpError::Json(err) => join("JSON error: ", json_error_text(err).as_str()),
            ScpError::InvalidPath(p) => join("Invalid path: ", p.as_str()),
            ScpError::InvalidFormat(m) => join("Invalid format: ", m.as_str()),
        };
        assert(r@.subrange(0, self.heading().len() as int) =~= self.heading());
        r
    }
}

} // verus!
