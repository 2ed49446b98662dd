//! Command-line options and the validation of the root directory.
use std::path::Path;
use crate::check::Config;
use vstd::prelude::*;

verus! {

/// Options of one run, as given on the command line.
pub struct Args {
    /// The root directory of the project.
    pub directory: String,
    /// Ignore packages whose manifest entry declares only a binary.
    pub ignore_bin_package: bool,
    /// Do not report missing dependencies.
    pub skip_missing: bool,
    /// A file holding patterns of files to ignore.
    pub ignore_path: Option<String>,
    /// Patterns of files or directories to ignore.
    pub ignore_patterns: Option<Vec<String>>,
    /// Package names to leave out of both results.
    pub ignore_matches: Option<Vec<String>>,
    /// How much is logged: 0 for warnings only, more for progress.
    pub verbose: u8,
}

pub enum Error {
    DirectoryNotFound,
}

impl Error {
    /// The message shown to the user.
    pub fn message(&self) -> (r: String)
        ensures
            r@ == "directory not found"@,
    {
        proof {
            reveal_strlit("directory not found");
        }
        match self {
            Error::DirectoryNotFound => String::from_str("directory not found"),
        }
    }
}

/// Relies on std::path::Path::is_dir: whether the path names a directory
/// on disk, following symbolic links; false when the path names nothing on
/// disk, as the empty path does.
#[verifier::external_body]
fn path_is_dir(path: &str) -> (r: bool)
    ensures
        path@.len() == 0 ==> !r,
{
    Path::new(path).is_dir()
}

/// Relies on std::path::Path::file_name: whether the path's last component
/// is a normal name (not `..`, not a root).
#[verifier::external_body]
fn path_has_file_name(path: &str) -> (r: bool) {
    Path::new(path).file_name().is_some()
}

/// Relies on std::path::Path::canonicalize: whether the path resolves to an
/// absolute path on disk.
#[verifier::external_body]
fn path_canonicalizes(path: &str) -> (r: bool) {
    Path::new(path).canonicalize().is_ok()
}

/// Whether a path with the given properties is accepted as a directory: it
/// must be a directory and either end in a name or resolve on disk.
pub fn directory_verdict(is_dir: bool, has_file_name: bool, canonicalizes: bool) -> (r: bool)
    ensures
        r == (is_dir && (has_file_name || canonicalizes)),
{
    is_dir && (has_file_name || canonicalizes)
}

/// Whether `path` names an existing directory.
pub fn is_existing_directory(path: &str) -> (r: bool)
    ensures
        path@.len() == 0 ==> !r,
{
    let is_dir = path_is_dir(path);
    if !is_dir {
        return false;
    }
    let named = path_has_file_name(path);
    let resolves = if named { true } else { path_canonicalizes(path) };
    directory_verdict(is_dir, named, resolves)
}

/// The outcome of validating the root directory, given whether it exists.
pub fn directory_outcome(exists: bool) -> (r: Result<(), Error>)
    ensures
        exists ==> r is Ok,
        !exists ==> r matches Err(Error::DirectoryNotFound),
{
    if exists {
        Ok(())
    } else {
        Err(Error::DirectoryNotFound)
    }
}

/// Accepts `path` if it names an existing directory, else fails with
/// `DirectoryNotFound`.
pub fn validate_directory(path: &str) -> (r: Result<(), Error>)
    ensures
        path@.len() == 0 ==> r matches Err(Error::DirectoryNotFound),
{
    directory_outcome(is_existing_directory(path))
}

fn append_clones(dst: &mut Vec<String>, src: &Vec<String>)
    ensures
        final(dst).deep_view() == old(dst).deep_view() + src.deep_view(),
{
    let ghost start = dst.deep_view();
    let mut i: usize = 0;
    while i < src.len()
        invariant
            i <= src.len(),
            dst.deep_view() == start + src.deep_view().subrange(0, i as int),
        decreases src.len() - i,
    {
        let ghost before = dst.deep_view();
        let c = src[i].clone();
        assert(c@ == src.deep_view()[i as int]);
        dst.push(c);
        assert(dst.deep_view() =~= before.push(c@));
        i = i + 1;
        assert(dst.deep_view() =~= start + src.deep_view().subrange(0, i as int));
    }
    assert(src.deep_view().subrange(0, i as int) =~= src.deep_view());
}

impl Args {
    /// The configuration of a run: the patterns read from the ignore file
    /// come first, then those given on the command line.
    pub fn config(&self, file_patterns: &Vec<String>) -> (r: Config)
        ensures
            r.skip_missing == self.skip_missing,
            r.ignore_patterns.deep_view() == file_patterns.deep_view() + match self.ignore_patterns {
                Some(p) => p.deep_view(),
                None => Seq::empty(),
            },
            r.ignore_matches.deep_view() == match self.ignore_matches {
                Some(m) => m.deep_view(),
                None => Seq::empty(),
            },
    {
        let mut ignore_patterns: Vec<String> = Vec::new();
        append_clones(&mut ignore_patterns, file_patterns);
        assert(ignore_patterns.deep_view() =~= file_patterns.deep_view());
        let mut ignore_matches: Vec<String> = Vec::new();
        match &self.ignore_patterns {
            Some(p) => append_clones(&mut ignore_patterns, p),
            None => assert(ignore_patterns.deep_view() =~= ignore_patterns.deep_view() + Seq::empty()),
        }
        match &self.ignore_matches {
            Some(m) => append_clones(&mut ignore_matches, m),
            None => {},
        }
        assert(ignore_matches.deep_view() =~= match self.ignore_matches {
            Some(m) => m.deep_view(),
            None => Seq::<Seq<char>>::empty(),
        });
        Config { skip_missing: self.skip_missing, ignore_patterns, ignore_matches }
    }
}

} // verus!
