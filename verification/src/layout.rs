//! The fixed names of an archive and of a pack.

use crate::text::join;
use vstd::prelude::*;

verus! {

/// The directory of an archive below which every entry stands.
pub open spec fn root() -> Seq<char> {
    "static/sonolus/"@
}

/// The place of the manifest's info in an archive.
pub open spec fn info_path() -> Seq<char> {
    root() + "info"@
}

/// The place of the package document in an archive.
pub open spec fn package_path() -> Seq<char> {
    root() + "package"@
}

/// The directory of the assets in an archive, with its closing slash.
pub open spec fn repository_prefix() -> Seq<char> {
    root() + "repository/"@
}

/// The directory of the assets in a pack, with its closing slash.
pub open spec fn repository_directory() -> Seq<char> {
    "repository/"@
}

/// The place of the manifest's info in an archive.
pub fn info_entry_name() -> (r: String)
    ensures
        r@ == info_path(),
{
    join("static/sonolus/", "info")
}

/// The place of the package document in an archive.
pub fn package_entry_name() -> (r: String)
    ensures
        r@ == package_path(),
{
    join("static/sonolus/", "package")
}

/// The directory of the assets in an archive, with its closing slash.
pub fn repository_entry_prefix() -> (r: String)
    ensures
        r@ == repository_prefix(),
{
    join("static/sonolus/", "repository/")
}

/// The place of the asset `name` in an archive.
pub fn repository_entry_name(name: &str) -> (r: String)
    ensures
        r@ == repository_prefix() + name@,
{
    join(repository_entry_prefix().as_str(), name)
}

/// The place of the asset `name` in a pack.
pub fn repository_file_name(name: &str) -> (r: String)
    ensures
        r@ == repository_directory() + name@,
{
    join("repository/", name)
}

} // verus!
