use vstd::prelude::*;

verus! {

/// Relies on std::path::Path::exists: whether some filesystem entry is
/// present at the path at the instant of the call. The answer depends on
/// the disk, so nothing is promised of it; inability to check reads as
/// absent.
#[verifier::external_body]
pub(crate) fn path_exists(p: &str) -> bool {
    std::path::Path::new(p).exists()
}

/// Relies on std::path::Path::is_dir: whether the entry at the path is a
/// directory (symbolic links followed). The answer depends on the disk, so
/// nothing is promised of it.
#[verifier::external_body]
pub(crate) fn path_is_dir(p: &str) -> bool {
    std::path::Path::new(p).is_dir()
}

/// Relies on walkdir::WalkDir: visits the root and every entry reachable
/// from it, following symbolic links, and skips any entry it cannot read.
/// Each entry comes out as its path text and whether it is a regular file.
/// What comes out depends on the disk, so nothing is promised of it.
#[verifier::external_body]
pub(crate) fn walk_entries(root: &str) -> Vec<(String, bool)> {
    let mut out = Vec::new();
    for entry in walkdir::WalkDir::new(root).follow_links(true).into_iter().filter_map(|e| e.ok())
    {
        let is_file = entry.file_type().is_file();
        out.push((entry.path().to_string_lossy().to_string(), is_file));
    }
    out
}

} // verus!
