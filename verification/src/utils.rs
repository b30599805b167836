//! Paths relative to a base, and what must hold of a pack directory and an
//! archive file before either is read.

use crate::error::ScpError;
use crate::text::{join, same_text};
use vstd::prelude::*;
use vstd::string::*;

verus! {

/// `Path::strip_prefix` of std, on paths given as text: what is left of
/// `path` behind `base`, or nothing where `base` is no prefix of it. How a
/// path falls into components differs between systems, so nothing is claimed
/// of the text.
#[verifier::external_body]
fn path_behind(path: &str, base: &str) -> (r: Option<String>) {
    std::path::Path::new(path).strip_prefix(base).ok().map(|p| p.to_string_lossy().to_string())
}

/// `Path::extension` of std, on a path given as text: the extension of its
/// file name, where it has one that is valid text. How a path falls into
/// components differs between systems, so nothing is claimed of the text.
#[verifier::external_body]
fn path_extension(path: &str) -> (r: Option<String>) {
    std::path::Path::new(path).extension().and_then(|s| s.to_str()).map(|s| s.to_string())
}

/// A text with a slash in the place of each backslash.
pub open spec fn slashed(s: Seq<char>) -> Seq<char> {
    s.map_values(
        |c: char|
            if c == '\\' {
                '/'
            } else {
                c
            },
    )
}

/// A text with a slash in the place of each backslash.
pub fn with_slashes(s: &str) -> (r: String)
    ensures
        r@ == slashed(s@),
{
    let total = s.unicode_len();
    let mut out = String::new();
    let mut start: usize = 0;
    let mut n: usize = 0;
    assert(out@ + s@.subrange(0, 0) =~= slashed(s@.take(0)));
    for c in it: s.chars()
        invariant
            it.seq() == s@,
            total == s@.len(),
            n == it.index(),
            start <= n <= total,
            out@ + s@.subrange(start as int, n as int) == slashed(s@.take(n as int)),
    {
        let ghost before = out@;
        let ghost done = slashed(s@.take(n as int));
        assert(s@.take(n + 1) =~= s@.take(n as int).push(c));
        if c == '\\' {
            out.append(s.substring_char(start, n));
            assert(out@ == done);
            out.append("/");
            proof {
                reveal_strlit("/");
            }
            assert(out@ =~= done.push('/'));
            assert(slashed(s@.take(n as int).push(c)) =~= done.push('/'));
            start = n + 1;
            assert(s@.subrange(start as int, n + 1) =~= Seq::empty());
            assert(slashed(s@.take(n + 1)) == done.push('/'));
            assert(out@ + s@.subrange(start as int, n + 1) =~= out@);
        } else {
            let ghost segment = s@.subrange(start as int, n as int);
            assert(s@.subrange(start as int, n + 1) =~= segment.push(c));
            assert(slashed(s@.take(n as int).push(c)) =~= done.push(c));
            assert(out@ + s@.subrange(start as int, n + 1) =~= done.push(c));
        }
        n += 1;
    }
    out.append(s.substring_char(start, total));
    assert(s@.take(total as int) =~= s@);
    out
}

/// The relative path that stands for what is left of a path behind its base,
/// with slashes only; a path that does not lie below the base is refused.
pub fn relative_path(path: &str, behind_base: Option<String>) -> (r: Result<String, ScpError>)
    ensures
        match behind_base {
            Some(rest) => r matches Ok(s) && s@ == slashed(rest@),
            None => r matches Err(ScpError::InvalidPath(p)) && p@ == path@,
        },
{
    match behind_base {
        Some(rest) => Ok(with_slashes(rest.as_str())),
        None => Err(ScpError::InvalidPath(String::from_str(path))),
    }
}

/// The path of a file relative to a base directory, with slashes only. Fails
/// where the file does not lie below the base.
pub fn normalize_path(path: &str, base: &str) -> (r: Result<String, ScpError>)
    ensures
        match r {
            Ok(s) => forall|i: int| 0 <= i < s@.len() ==> s@[i] != '\\',
            Err(e) => e matches ScpError::InvalidPath(p) && p@ == path@,
        },
{
    relative_path(path, path_behind(path, base))
}

/// A pack directory can be read: it exists and holds a manifest.
pub fn validate_pack_dir(pack_dir: &str, exists: bool, has_manifest: bool) -> (r: Result<
    (),
    ScpError,
>)
    ensures
        match r {
            Ok(_) => exists && has_manifest,
            Err(ScpError::InvalidPath(p)) => !exists && p@ == "Pack directory does not exist: "@
                + pack_dir@,
            Err(ScpError::InvalidFormat(m)) => exists && !has_manifest && m@
                == "db.json not found in pack directory"@,
            Err(_) => false,
        },
{
    if !exists {
        return Err(ScpError::InvalidPath(join("Pack directory does not exist: ", pack_dir)));
    }
    if !has_manifest {
        return Err(
            ScpError::InvalidFormat(String::from_str("db.json not found in pack directory")),
        );
    }
    Ok(())
}

/// The extension that the name of an archive carries.
pub open spec fn archive_extension() -> Seq<char> {
    "scp"@
}

/// Whether an extension, if there is one, is that of an archive.
pub open spec fn is_archive_extension(extension: Option<&str>) -> bool {
    match extension {
        Some(e) => e@ == archive_extension(),
        None => false,
    }
}

/// An archive file can be read: it exists, and the extension of its name,
/// as given, is that of an archive.
pub fn check_scp_file(scp_file: &str, exists: bool, extension: Option<&str>) -> (r: Result<
    (),
    ScpError,
>)
    ensures
        match r {
            Ok(_) => exists && is_archive_extension(extension),
            Err(ScpError::InvalidPath(p)) => !exists && p@ == "SCP file does not exist: "@
                + scp_file@,
            Err(ScpError::InvalidFormat(m)) => exists && !is_archive_extension(extension) && m@
                == "File must have .scp extension"@,
            Err(_) => false,
        },
{
    if !exists {
        return Err(ScpError::InvalidPath(join("SCP file does not exist: ", scp_file)));
    }
    let fits = match extension {
        Some(e) => same_text(e, "scp"),
        None => false,
    };
    if !fits {
        return Err(ScpError::InvalidFormat(String::from_str("File must have .scp extension")));
    }
    Ok(())
}

/// An archive file can be read: it exists and its name has the extension of
/// an archive.
pub fn validate_scp_file(scp_file: &str, exists: bool) -> (r: Result<(), ScpError>)
    ensures
        match r {
            Ok(_) => exists,
            Err(ScpError::InvalidPath(p)) => !exists && p@ == "SCP file does not exist: "@
                + scp_file@,
            Err(ScpError::InvalidFormat(m)) => exists && m@ == "File must have .scp extension"@,
            Err(_) => false,
        },
{
    match path_extension(scp_file) {
        Some(e) => check_scp_file(scp_file, exists, Some(e.as_str())),
        None => check_scp_file(scp_file, exists, None),
    }
}

} // verus!
