//! Dependency kinds: a sibling project built from source (local-build) and a
//! pre-existing include and library directory pair (local-pair).
use vstd::prelude::*;

use crate::configuration::dependencies_from;
use crate::configuration::dependency_models;
use crate::configuration::Configuration;
use crate::configuration::LoadError;
use crate::lsd::Entries;
use crate::lsd::Level;
use crate::lsd::Node;
use crate::lsd::LSD;
use crate::profile::option_value;
use crate::text::lowercase_of;
use crate::text::owned;
use crate::text::split_into_two_words;
use crate::text::str_eq;
use crate::text::to_lowercase;
use crate::text::two_words;

verus! {

/// Which profile a local-build dependency is built with.
#[derive(Debug)]
pub enum DependencyProfile {
    /// The profile selected for the project that depends on it.
    Inherit,
    /// A fixed profile.
    OfName(String),
}

/// A dependency of a project.
#[derive(Debug)]
pub enum Dependency {
    LocalBuild { config: Configuration, profile: DependencyProfile },
    LocalPair { include_dir: String, lib_dir: String },
}

/// The kinds of dependency that an `is` text can name.
#[derive(Debug, Clone, Copy, PartialEq, Eq, Structural)]
pub enum DependencyKind {
    LocalBuild,
    LocalPair,
}

/// Why a local-build or local-pair entry does not read.
#[derive(Debug)]
pub enum InnerParseError {
    MissingProjectPath,
    ProjectPathIsNotAValue,
    ConfigurationLoadError(LoadError),
    ProfileIsNotAValue,
    MissingIncludePath,
    IncludePathIsNotAValue,
    IncludeDirIsNotADir,
    MissingLibraryPath,
    LibraryPathIsNotAValue,
    LibDirIsNotADir,
}

/// Why a dependency entry does not read.
#[derive(Debug)]
pub enum ParseError {
    CouldNotFindMatchingDependencyType,
    DependencyTypeIsNotAValue,
    Inner(InnerParseError),
    DependenciesWithoutTypeAreNotSupportedYet,
    DependenciesAsVersionsAreNotSupportedYet,
}

/// A failure while a dependency is cached: a filesystem error's message, or
/// the failed build of a local-build dependency.
#[derive(Debug)]
pub enum CacheError {
    IOError(String),
    BuildError(Box<crate::BuildError>),
}

/// The filesystem work that reading a dependency entry needs.
#[derive(Debug)]
pub enum Probe {
    /// None: the entry fails, or needs nothing, before any filesystem work.
    Nothing,
    /// Load the project configuration in this directory.
    Project(String),
    /// Check that these two paths are directories.
    Dirs(String, String),
}

/// The outcome of a probe.
#[derive(Debug)]
pub enum Found {
    Nothing,
    Project(Result<Configuration, LoadError>),
    Dirs(bool, bool),
}

/// The mathematical form of a probe.
pub enum ProbeModel {
    Nothing,
    Project(Seq<char>),
    Dirs(Seq<char>, Seq<char>),
}

impl View for Probe {
    type V = ProbeModel;

    open spec fn view(&self) -> ProbeModel {
        match self {
            Probe::Nothing => ProbeModel::Nothing,
            Probe::Project(p) => ProbeModel::Project(p@),
            Probe::Dirs(a, b) => ProbeModel::Dirs(a@, b@),
        }
    }
}

/// Whether an outcome answers a probe.
pub open spec fn answers(p: ProbeModel, f: Found) -> bool {
    match p {
        ProbeModel::Nothing => f is Nothing,
        ProbeModel::Project(_) => f is Project,
        ProbeModel::Dirs(_, _) => f is Dirs,
    }
}

/// The mathematical form of a dependency's profile policy.
pub enum ProfilePolicy {
    Inherit,
    OfName(Seq<char>),
}

/// The mathematical form of a dependency.
pub enum DependencyModel {
    LocalBuild { config: Configuration, profile: ProfilePolicy },
    LocalPair { include_dir: Seq<char>, lib_dir: Seq<char> },
}

impl View for Dependency {
    type V = DependencyModel;

    open spec fn view(&self) -> DependencyModel {
        match self {
            Dependency::LocalBuild { config, profile } => DependencyModel::LocalBuild {
                config: *config,
                profile: match profile {
                    DependencyProfile::Inherit => ProfilePolicy::Inherit,
                    DependencyProfile::OfName(n) => ProfilePolicy::OfName(n@),
                },
            },
            Dependency::LocalPair { include_dir, lib_dir } => DependencyModel::LocalPair {
                include_dir: include_dir@,
                lib_dir: lib_dir@,
            },
        }
    }
}

/// The dependency kind that a lowercased `is` text names.
pub open spec fn kind_of(t: Seq<char>) -> Option<DependencyKind> {
    if t == "local"@ {
        Some(DependencyKind::LocalBuild)
    } else {
        match two_words(t) {
            Some((a, b)) => if a == "local"@ && (b == "build"@ || b == "build++"@ || b == "buildpp"@) {
                Some(DependencyKind::LocalBuild)
            } else if a == "local"@ && (b == "pair"@ || b == "include"@ || b == "library"@) {
                Some(DependencyKind::LocalPair)
            } else {
                None
            },
            None => None,
        }
    }
}

/// The kind that a dependency level declares with `is`.
pub open spec fn entry_kind(l: Entries) -> Result<DependencyKind, ParseError> {
    match option_value(l, "is"@) {
        Err(()) => Err(ParseError::DependencyTypeIsNotAValue),
        Ok(None) => Err(ParseError::DependenciesWithoutTypeAreNotSupportedYet),
        Ok(Some(is)) => match kind_of(lowercase_of(is)) {
            Some(k) => Ok(k),
            None => Err(ParseError::CouldNotFindMatchingDependencyType),
        },
    }
}

/// The filesystem work that reading a dependency entry needs.
pub open spec fn probe_of(n: Node) -> ProbeModel {
    match n {
        Node::Value(_) => ProbeModel::Nothing,
        Node::Level(l) => match entry_kind(l) {
            Err(_) => ProbeModel::Nothing,
            Ok(DependencyKind::LocalBuild) => match option_value(l, "path"@) {
                Ok(Some(p)) => ProbeModel::Project(p),
                _ => ProbeModel::Nothing,
            },
            Ok(DependencyKind::LocalPair) => match (
                option_value(l, "include"@),
                option_value(l, "library"@),
            ) {
                (Ok(Some(i)), Ok(Some(b))) => ProbeModel::Dirs(i, b),
                _ => ProbeModel::Nothing,
            },
        },
    }
}

/// The profile policy that a lowercased text names.
pub open spec fn policy_of(t: Seq<char>) -> ProfilePolicy {
    if t == "inherit"@ {
        ProfilePolicy::Inherit
    } else {
        ProfilePolicy::OfName(t)
    }
}

/// What a dependency entry reads as, given the outcome of its probe.
pub open spec fn entry_of(n: Node, found: Found) -> Result<DependencyModel, ParseError> {
    match n {
        Node::Value(_) => Err(ParseError::DependenciesAsVersionsAreNotSupportedYet),
        Node::Level(l) => match entry_kind(l) {
            Err(e) => Err(e),
            Ok(DependencyKind::LocalBuild) => match option_value(l, "path"@) {
                Err(()) => Err(ParseError::Inner(InnerParseError::ProjectPathIsNotAValue)),
                Ok(None) => Err(ParseError::Inner(InnerParseError::MissingProjectPath)),
                Ok(Some(_)) => match found {
                    Found::Project(Ok(c)) => match option_value(l, "profile"@) {
                        Err(()) => Err(ParseError::Inner(InnerParseError::ProfileIsNotAValue)),
                        Ok(None) => Ok(
                            DependencyModel::LocalBuild {
                                config: c,
                                profile: ProfilePolicy::OfName("default"@),
                            },
                        ),
                        Ok(Some(p)) => Ok(
                            DependencyModel::LocalBuild { config: c, profile: policy_of(lowercase_of(p)) },
                        ),
                    },
                    Found::Project(Err(e)) => Err(ParseError::Inner(InnerParseError::ConfigurationLoadError(e))),
                    _ => Err(ParseError::CouldNotFindMatchingDependencyType),
                },
            },
            Ok(DependencyKind::LocalPair) => match option_value(l, "include"@) {
                Err(()) => Err(ParseError::Inner(InnerParseError::IncludePathIsNotAValue)),
                Ok(None) => Err(ParseError::Inner(InnerParseError::MissingIncludePath)),
                Ok(Some(inc)) => match option_value(l, "library"@) {
                    Err(()) => Err(ParseError::Inner(InnerParseError::LibraryPathIsNotAValue)),
                    Ok(None) => Err(ParseError::Inner(InnerParseError::MissingLibraryPath)),
                    Ok(Some(lib)) => match found {
                        Found::Dirs(inc_ok, lib_ok) => if !inc_ok {
                            Err(ParseError::Inner(InnerParseError::IncludeDirIsNotADir))
                        } else if !lib_ok {
                            Err(ParseError::Inner(InnerParseError::LibDirIsNotADir))
                        } else {
                            Ok(DependencyModel::LocalPair { include_dir: inc, lib_dir: lib })
                        },
                        _ => Err(ParseError::CouldNotFindMatchingDependencyType),
                    },
                },
            },
        },
    }
}

fn read_option(level: &Level, key: &str) -> (r: Result<Option<String>, ()>)
    ensures
        match option_value(level@, key@) {
            Err(()) => r is Err,
            Ok(None) => r matches Ok(None),
            Ok(Some(v)) => r matches Ok(Some(x)) && x@ == v,
        },
{
    match level.get(key) {
        None => Ok(None),
        Some(LSD::Value(v)) => Ok(Some(v.clone())),
        Some(LSD::Level(_)) => Err(()),
    }
}

fn read_kind(level: &Level) -> (r: Result<DependencyKind, ParseError>)
    ensures
        r == entry_kind(level@),
{
    match read_option(level, "is") {
        Err(()) => Err(ParseError::DependencyTypeIsNotAValue),
        Ok(None) => Err(ParseError::DependenciesWithoutTypeAreNotSupportedYet),
        Ok(Some(is)) => {
            let t = to_lowercase(is.as_str());
            if str_eq(t.as_str(), "local") {
                return Ok(DependencyKind::LocalBuild);
            }
            match split_into_two_words(t.as_str()) {
                None => Err(ParseError::CouldNotFindMatchingDependencyType),
                Some((a, b)) => {
                    if str_eq(a.as_str(), "local") && (str_eq(b.as_str(), "build") || str_eq(
                        b.as_str(),
                        "build++",
                    ) || str_eq(b.as_str(), "buildpp")) {
                        Ok(DependencyKind::LocalBuild)
                    } else if str_eq(a.as_str(), "local") && (str_eq(b.as_str(), "pair") || str_eq(
                        b.as_str(),
                        "include",
                    ) || str_eq(b.as_str(), "library")) {
                        Ok(DependencyKind::LocalPair)
                    } else {
                        Err(ParseError::CouldNotFindMatchingDependencyType)
                    }
                },
            }
        },
    }
}

/// The filesystem work that reading a dependency entry needs.
pub fn probe(entry: &LSD) -> (r: Probe)
    ensures
        r@ == probe_of(entry@),
{
    match entry {
        LSD::Value(_) => Probe::Nothing,
        LSD::Level(level) => match read_kind(level) {
            Err(_) => Probe::Nothing,
            Ok(DependencyKind::LocalBuild) => match read_option(level, "path") {
                Ok(Some(p)) => Probe::Project(p),
                _ => Probe::Nothing,
            },
            Ok(DependencyKind::LocalPair) => match (
                read_option(level, "include"),
                read_option(level, "library"),
            ) {
                (Ok(Some(i)), Ok(Some(b))) => Probe::Dirs(i, b),
                _ => Probe::Nothing,
            },
        },
    }
}

/// Reads a dependency entry, given the outcome of its probe.
pub fn parse_one(entry: &LSD, found: Found) -> (r: Result<Dependency, ParseError>)
    requires
        answers(probe_of(entry@), found),
    ensures
        match entry_of(entry@, found) {
            Ok(m) => r matches Ok(d) && d@ == m,
            Err(e) => r matches Err(x) && x == e,
        },
{
    match entry {
        LSD::Value(_) => Err(ParseError::DependenciesAsVersionsAreNotSupportedYet),
        LSD::Level(level) => match read_kind(level) {
            Err(e) => Err(e),
            Ok(DependencyKind::LocalBuild) => match read_option(level, "path") {
                Err(()) => Err(ParseError::Inner(InnerParseError::ProjectPathIsNotAValue)),
                Ok(None) => Err(ParseError::Inner(InnerParseError::MissingProjectPath)),
                Ok(Some(_)) => match found {
                    Found::Project(Ok(c)) => match read_option(level, "profile") {
                        Err(()) => Err(ParseError::Inner(InnerParseError::ProfileIsNotAValue)),
                        Ok(None) => Ok(
                            Dependency::LocalBuild {
                                config: c,
                                profile: DependencyProfile::OfName(owned("default")),
                            },
                        ),
                        Ok(Some(p)) => {
                            let t = to_lowercase(p.as_str());
                            let policy = if str_eq(t.as_str(), "inherit") {
                                DependencyProfile::Inherit
                            } else {
                                DependencyProfile::OfName(t)
                            };
                            Ok(Dependency::LocalBuild { config: c, profile: policy })
                        },
                    },
                    Found::Project(Err(e)) => Err(ParseError::Inner(InnerParseError::ConfigurationLoadError(e))),
                    _ => Err(ParseError::CouldNotFindMatchingDependencyType),
                },
            },
            Ok(DependencyKind::LocalPair) => match read_option(level, "include") {
                Err(()) => Err(ParseError::Inner(InnerParseError::IncludePathIsNotAValue)),
                Ok(None) => Err(ParseError::Inner(InnerParseError::MissingIncludePath)),
                Ok(Some(inc)) => match read_option(level, "library") {
                    Err(()) => Err(ParseError::Inner(InnerParseError::LibraryPathIsNotAValue)),
                    Ok(None) => Err(ParseError::Inner(InnerParseError::MissingLibraryPath)),
                    Ok(Some(lib)) => match found {
                        Found::Dirs(inc_ok, lib_ok) => {
                            if !inc_ok {
                                Err(ParseError::Inner(InnerParseError::IncludeDirIsNotADir))
                            } else if !lib_ok {
                                Err(ParseError::Inner(InnerParseError::LibDirIsNotADir))
                            } else {
                                Ok(Dependency::LocalPair { include_dir: inc, lib_dir: lib })
                            }
                        },
                        _ => Err(ParseError::CouldNotFindMatchingDependencyType),
                    },
                },
            },
        },
    }
}

/// The version of a dependency that is cached: the nested project's version
/// for local-build, empty for local-pair.
pub open spec fn version_of(d: DependencyModel) -> Seq<char> {
    match d {
        DependencyModel::LocalBuild { config, .. } => config.version@,
        DependencyModel::LocalPair { .. } => Seq::empty(),
    }
}

/// The profile a dependency is built with when `selected` is selected for the
/// project; empty for local-pair.
pub open spec fn profile_for(d: DependencyModel, selected: Seq<char>) -> Seq<char> {
    match d {
        DependencyModel::LocalBuild { profile, .. } => match profile {
            ProfilePolicy::Inherit => selected,
            ProfilePolicy::OfName(n) => n,
        },
        DependencyModel::LocalPair { .. } => Seq::empty(),
    }
}

impl Dependency {
    /// The version that is cached.
    pub fn current_version(&self) -> (r: String)
        ensures
            r@ == version_of(self@),
    {
        match self {
            Dependency::LocalBuild { config, .. } => config.version.clone(),
            Dependency::LocalPair { .. } => String::new(),
        }
    }

    /// The profile the dependency is built with when `selected_profile` is
    /// selected for the project.
    pub fn current_profile(&self, selected_profile: &str) -> (r: String)
        ensures
            r@ == profile_for(self@, selected_profile@),
    {
        match self {
            Dependency::LocalBuild { profile, .. } => match profile {
                DependencyProfile::Inherit => owned(selected_profile),
                DependencyProfile::OfName(n) => n.clone(),
            },
            Dependency::LocalPair { .. } => String::new(),
        }
    }
}

/// Whether a local-build dependency's cache is stale: its project has not
/// been built for the profile, or the cache is older than the project's
/// configuration, sources or build.
pub open spec fn local_build_stale(
    target_exists: bool,
    cache_time: int,
    config_time: int,
    src_time: int,
    target_time: int,
) -> bool {
    !target_exists || cache_time < config_time || cache_time < src_time || cache_time < target_time
}

/// Whether a local-pair dependency's cache is older than either source directory.
pub open spec fn local_pair_stale(cache_time: int, include_time: int, lib_time: int) -> bool {
    cache_time < include_time || cache_time < lib_time
}

/// Whether a local-build dependency must be cached again; the times are the
/// newest modification times of each tree.
pub fn local_build_needs_recaching(
    target_exists: bool,
    cache_time: i128,
    config_time: i128,
    src_time: i128,
    target_time: i128,
) -> (r: bool)
    ensures
        r == local_build_stale(target_exists, cache_time as int, config_time as int, src_time as int, target_time as int),
{
    if !target_exists {
        return true;
    }
    let newest = if config_time >= src_time {
        config_time
    } else {
        src_time
    };
    let newest = if newest >= target_time {
        newest
    } else {
        target_time
    };
    cache_time < newest
}

/// Whether a local-pair dependency must be cached again; the times are the
/// newest modification times of each tree.
pub fn local_pair_needs_recaching(cache_time: i128, include_time: i128, lib_time: i128) -> (r: bool)
    ensures
        r == local_pair_stale(cache_time as int, include_time as int, lib_time as int),
{
    let newest = if include_time >= lib_time {
        include_time
    } else {
        lib_time
    };
    cache_time < newest
}

/// Reads every entry of a dependency level, in order, given the outcome of
/// the probe of each; all errors are gathered.
pub fn parse_all(deps: &Level, found: Vec<Found>) -> (r: Result<Vec<(String, Dependency)>, Vec<ParseError>>)
    requires
        found@.len() == deps@.len(),
        forall|i: int| 0 <= i < found@.len() ==> answers(probe_of(deps@[i].1), #[trigger] found@[i]),
    ensures
        ({
            let (d, errors) = dependencies_from(deps@, found@, 0, Seq::empty(), Seq::empty());
            if errors.len() == 0 {
                r matches Ok(x) && dependency_models(x@) == d
            } else {
                r matches Err(x) && x@ == errors
            }
        }),
{
    let ghost fs = found@;
    let mut found = found;
    let n = deps.len();
    let mut out: Vec<(String, Dependency)> = Vec::new();
    let mut errors: Vec<ParseError> = Vec::new();
    let mut i: usize = 0;
    let ghost start = dependencies_from(deps@, fs, 0, Seq::empty(), Seq::empty());
    assert(dependency_models(out@) =~= Seq::<(Seq<char>, DependencyModel)>::empty());
    assert(found@ =~= fs.subrange(0, fs.len() as int));
    while i < n
        invariant
            n == deps@.len(),
            fs.len() == n,
            i <= n,
            found@ == fs.subrange(i as int, n as int),
            forall|k: int| 0 <= k < fs.len() ==> answers(probe_of(deps@[k].1), #[trigger] fs[k]),
            dependencies_from(deps@, fs, i as int, dependency_models(out@), errors@) == start,
            start == dependencies_from(deps@, fs, 0, Seq::empty(), Seq::empty()),
        decreases n - i,
    {
        let (alias, entry) = deps.entry(i);
        let f = found.remove(0);
        assert(found@ =~= fs.subrange(i + 1, n as int));
        assert(f == fs[i as int]);
        match parse_one(entry, f) {
            Ok(d) => {
                let ghost before = dependency_models(out@);
                let ghost dm = d@;
                out.push((alias.clone(), d));
                assert(dependency_models(out@) =~= before.push((deps@[i as int].0, dm)));
            },
            Err(e) => {
                errors.push(e);
            },
        }
        i = i + 1;
    }
    if errors.len() == 0 {
        Ok(out)
    } else {
        Err(errors)
    }
}

} // verus!
