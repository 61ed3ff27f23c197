//! The decisions of the build engine; the filesystem and process work around
//! them is done by the caller, which hands in what it observed.
use vstd::prelude::*;

use crate::text::str_eq;
use crate::BuildError;
use crate::BuildType;

verus! {

/// What the source files present decide about the build type.
pub enum Detection {
    Detected(BuildType),
    NeedsSpecifying,
    NoSourceFile,
}

/// The build type to build, given the requested one (if any) and which of
/// `src/main<suffix>` and `src/lib<suffix>` exist.
pub open spec fn detection(requested: Option<BuildType>, has_main: bool, has_lib: bool) -> Detection {
    match requested {
        Some(BuildType::Binary) => if has_main {
            Detection::Detected(BuildType::Binary)
        } else {
            Detection::NoSourceFile
        },
        Some(BuildType::Library) => if has_lib {
            Detection::Detected(BuildType::Library)
        } else {
            Detection::NoSourceFile
        },
        None => if has_main && has_lib {
            Detection::NeedsSpecifying
        } else if has_main {
            Detection::Detected(BuildType::Binary)
        } else if has_lib {
            Detection::Detected(BuildType::Library)
        } else {
            Detection::NoSourceFile
        },
    }
}

/// Decides the build type from the request and the source files present.
pub fn detect_build_type(requested: Option<BuildType>, has_main: bool, has_lib: bool) -> (r: Result<
    BuildType,
    BuildError,
>)
    ensures
        match detection(requested, has_main, has_lib) {
            Detection::Detected(b) => r == Ok::<BuildType, BuildError>(b),
            Detection::NeedsSpecifying => r matches Err(BuildError::BuildTypeNeedsToBeSpecified),
            Detection::NoSourceFile => r matches Err(BuildError::CouldNotDetectSourceFile),
        },
{
    match (requested, has_main, has_lib) {
        (Some(b), true, true) => Ok(b),
        (Some(BuildType::Binary), true, _) => Ok(BuildType::Binary),
        (Some(BuildType::Library), _, true) => Ok(BuildType::Library),
        (None, true, true) => Err(BuildError::BuildTypeNeedsToBeSpecified),
        (None, true, _) => Ok(BuildType::Binary),
        (None, _, true) => Ok(BuildType::Library),
        _ => Err(BuildError::CouldNotDetectSourceFile),
    }
}

/// Whether a dependency is cached (again): unless its cache directory exists
/// and it does not need recaching.
pub fn needs_caching(cache_dir_exists: bool, needs_recaching: bool) -> (r: bool)
    ensures
        r == !(cache_dir_exists && !needs_recaching),
{
    !(cache_dir_exists && !needs_recaching)
}

/// Whether the staged target is fresh, so that the compiler need not run: no
/// dependency was recached, the target exists, and its newest modification is
/// no older than that of the configuration file and of the sources.
pub open spec fn fresh(any_recached: bool, target_exists: bool, target_time: int, config_time: int, src_time: int) -> bool {
    !any_recached && target_exists && target_time >= config_time && target_time >= src_time
}

/// Whether the build can stop before the compiler runs; the times are the
/// newest modification times of each tree.
pub fn is_fresh(any_recached: bool, target_exists: bool, target_time: i128, config_time: i128, src_time: i128) -> (r: bool)
    ensures
        r == fresh(any_recached, target_exists, target_time as int, config_time as int, src_time as int),
{
    let newest = if config_time >= src_time {
        config_time
    } else {
        src_time
    };
    !any_recached && target_exists && target_time >= newest
}

/// The extensions of public headers, which are staged with the build.
pub open spec fn header_extension(e: Seq<char>) -> bool {
    e == "h"@ || e == "cuh"@ || e == "hh"@ || e == "H"@ || e == "hp"@ || e == "hxx"@ || e == "hpp"@
        || e == "HPP"@ || e == "h++"@ || e == "tcc"@
}

/// Whether a file with this extension is a public header.
pub fn is_header_extension(extension: &str) -> (r: bool)
    ensures
        r == header_extension(extension@),
{
    str_eq(extension, "h") || str_eq(extension, "cuh") || str_eq(extension, "hh") || str_eq(extension, "H")
        || str_eq(extension, "hp") || str_eq(extension, "hxx") || str_eq(extension, "hpp") || str_eq(
        extension,
        "HPP",
    ) || str_eq(extension, "h++") || str_eq(extension, "tcc")
}

/// Whether a file with this extension is an object file, removed from the
/// artifacts after a build.
pub fn is_object_extension(extension: &str) -> (r: bool)
    ensures
        r == (extension@ == "obj"@),
{
    str_eq(extension, "obj")
}

/// The outcome of a finished compiler process: its exit code, or `None` when
/// a signal ended it.
pub fn compiler_outcome(code: Option<i32>) -> (r: Result<(), BuildError>)
    ensures
        match code {
            None => r matches Err(BuildError::CompilerKilled),
            Some(c) => if c == 0 {
                r is Ok
            } else {
                r matches Err(BuildError::CompilerFailedExitCode(x)) && x == c
            },
        },
{
    match code {
        None => Err(BuildError::CompilerKilled),
        Some(c) => {
            if c == 0 {
                Ok(())
            } else {
                Err(BuildError::CompilerFailedExitCode(c))
            }
        },
    }
}

} // verus!
