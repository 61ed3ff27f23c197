//! A build orchestrator for native C/C++/CUDA projects: the configuration
//! language, compiler profiles, dependency kinds and the decisions of the
//! build engine.
use vstd::prelude::*;

pub mod text;
pub mod lsd;
pub mod profile;
pub mod paths;
pub mod dependency;
pub mod configuration;
pub mod arguments;
pub mod engine;
pub mod cli;
pub mod laws;

use crate::text::lowercase_of;
use crate::text::to_lowercase;

verus! {

/// What a project produces: an executable or a library.
#[derive(Debug, Clone, Copy, PartialEq, Eq, Structural)]
pub enum BuildType {
    Binary,
    Library,
}

/// Whether `a` is a prefix of `b`.
pub open spec fn is_prefix(a: Seq<char>, b: Seq<char>) -> bool {
    a.len() <= b.len() && b.subrange(0, a.len() as int) == a
}

/// The build type that an already lowercased text names: any prefix of
/// `binary` or of `library`, `binary` first (so the empty text is `Binary`).
pub open spec fn build_type_of(l: Seq<char>) -> Option<BuildType> {
    if is_prefix(l, "binary"@) {
        Some(BuildType::Binary)
    } else if is_prefix(l, "library"@) {
        Some(BuildType::Library)
    } else {
        None
    }
}

/// The stem of the source file that a build type compiles.
pub open spec fn src_stem(b: BuildType) -> Seq<char> {
    match b {
        BuildType::Binary => "main"@,
        BuildType::Library => "lib"@,
    }
}

/// Whether the text `a` is a prefix of the text `b`.
pub fn starts(a: &str, b: &str) -> (r: bool)
    ensures
        r == is_prefix(a@, b@),
{
    let x = crate::text::chars_of(a);
    let y = crate::text::chars_of(b);
    if x.len() > y.len() {
        return false;
    }
    let mut i: usize = 0;
    while i < x.len()
        invariant
            x@ == a@,
            y@ == b@,
            x@.len() <= y@.len(),
            i <= x@.len(),
            forall|k: int| 0 <= k < i ==> x@[k] == y@[k],
        decreases x@.len() - i,
    {
        if x[i] != y[i] {
            assert(y@.subrange(0, x@.len() as int)[i as int] != x@[i as int]);
            return false;
        }
        i = i + 1;
    }
    assert(y@.subrange(0, x@.len() as int) =~= x@);
    true
}

impl BuildType {
    /// The stem of the source file: `main` or `lib`.
    pub fn src_filename(&self) -> (r: &'static str)
        ensures
            r@ == src_stem(*self),
    {
        match self {
            BuildType::Binary => "main",
            BuildType::Library => "lib",
        }
    }

    /// The build type that an already lowercased text names.
    pub fn from_lowercase(l: &str) -> (r: Option<BuildType>)
        ensures
            r == build_type_of(l@),
    {
        if starts(l, "binary") {
            Some(BuildType::Binary)
        } else if starts(l, "library") {
            Some(BuildType::Library)
        } else {
            None
        }
    }

    /// The build type that a text names, in any case.
    pub fn parse(s: &str) -> (r: Option<BuildType>)
        ensures
            r == build_type_of(lowercase_of(s@)),
    {
        let l = to_lowercase(s);
        BuildType::from_lowercase(l.as_str())
    }
}

/// Why a build fails. A filesystem or process error carries its message.
#[derive(Debug)]
pub enum BuildError {
    CouldNotDetectSourceFile,
    RequiredBuildTypeDoesNotHaveMatchingSourceFile(BuildType),
    BuildTypeNeedsToBeSpecified,
    InvalidProfile(String),
    CacheCouldNotGetCurrentVersion(String),
    CacheCouldNotGetCurrentProfile(String),
    CacheCouldNotCheckIfNeedsRecaching(String),
    CacheCouldNotMakeCacheDirs(String),
    CacheError(dependency::CacheError),
    TargetCouldNotReadChanges(String),
    TargetCouldNotPrepareDirs(String),
    CompilerCouldNotCollectArguments(String),
    /// Static libraries are not built by any backend yet.
    StaticLibraryNotImplemented,
    CompilerFailedSpawn(String),
    CompilerFailedWait(String),
    CompilerFailedExitCode(i32),
    CompilerKilled,
    PostBuildCouldNotCopyIncludes(String),
    PostBuildCouldNotDeleteObjectFiles(String),
    PostBuildCouldNotCopyDependencies(String),
}

/// Why running the built binary fails.
#[derive(Debug)]
pub enum RunError {
    BuildError(BuildError),
    FailedSpawn(String),
    FailedWait(String),
    Killed,
}

} // verus!
