//! Compiler profiles: the named bundles of toolchain settings, their option
//! parsing, overlays and the table that holds them.
use vstd::prelude::*;

use indexmap::IndexMap;

use crate::lsd::find;
use crate::lsd::Entries;
use crate::lsd::Level;
use crate::lsd::Node;
use crate::lsd::LSD;
use crate::BuildType;
use crate::text::has_words;
use crate::text::lowercase_of;
use crate::text::owned;
use crate::text::str_eq;
use crate::text::to_lowercase;
use crate::text::words_are;

verus! {

/// The profile that commands use when none is named.
pub const DEFAULT_PROFILE: &'static str = "default";

/// The operating system that artifacts are named for.
#[derive(Debug, Clone, Copy, PartialEq, Eq, Structural)]
pub enum TargetOs {
    Windows,
    Linux,
}

/// Whether a library is built shared or static.
#[derive(Debug, Clone, Copy, PartialEq, Eq, Structural)]
pub enum LibraryType {
    Shared,
    Static,
}

/// The language standards that MSVC takes.
#[derive(Debug, Clone, Copy, PartialEq, Eq, Structural)]
pub enum MsvcStandard {
    CPP14,
    CPP17,
    CPP20,
    CPPLatest,
    C11,
    C17,
}

/// The optimisation levels that MSVC takes.
#[derive(Debug, Clone, Copy, PartialEq, Eq, Structural)]
pub enum MsvcOptimize {
    MinimizeSize,
    MaximizeSpeed,
}

/// The language standards that NVCC takes.
#[derive(Debug, Clone, Copy, PartialEq, Eq, Structural)]
pub enum NvccStandard {
    CPP03,
    CPP11,
    CPP14,
    CPP17,
    CPP20,
}

/// The optimisation levels that NVCC takes.
#[derive(Debug, Clone, Copy, PartialEq, Eq, Structural)]
pub enum NvccOptimize {
    No,
    Yes,
    EvenMore,
    YetMore,
    Size,
    UncompliantFast,
    Debug,
    SizeAggressive,
}

/// Settings of the MSVC backend.
#[derive(Debug)]
pub struct MsvcProfile {
    pub compiler_path: Option<String>,
    pub standard: Option<MsvcStandard>,
    pub optimize: Option<MsvcOptimize>,
    pub openmp: bool,
    pub library_type: LibraryType,
}

/// Settings of the NVCC backend.
#[derive(Debug)]
pub struct NvccProfile {
    pub compiler_path: Option<String>,
    pub standard: Option<NvccStandard>,
    pub optimize: Option<NvccOptimize>,
    pub optimize_device: bool,
    pub library_type: LibraryType,
}

/// A compiler profile: one of the backends with its settings.
#[derive(Debug)]
pub enum Profile {
    Msvc(MsvcProfile),
    Nvcc(NvccProfile),
}

/// Why a profile entry does not read.
#[derive(Debug, Clone)]
pub enum ParseError {
    CouldNotFindMatchingCompiler,
    InheritingFromNonExistentProfile(String),
    InheritIsNotAValue,
    MissingProfileType,
    ProfileTypeIsNotAValue,
    InvalidValueForKey(String),
}

/// The mathematical form of a profile parse error.
pub enum ProfileFault {
    CouldNotFindMatchingCompiler,
    InheritingFromNonExistentProfile(Seq<char>),
    InheritIsNotAValue,
    MissingProfileType,
    ProfileTypeIsNotAValue,
    InvalidValueForKey(Seq<char>),
}

impl View for ParseError {
    type V = ProfileFault;

    open spec fn view(&self) -> ProfileFault {
        match self {
            ParseError::CouldNotFindMatchingCompiler => ProfileFault::CouldNotFindMatchingCompiler,
            ParseError::InheritingFromNonExistentProfile(n) => ProfileFault::InheritingFromNonExistentProfile(n@),
            ParseError::InheritIsNotAValue => ProfileFault::InheritIsNotAValue,
            ParseError::MissingProfileType => ProfileFault::MissingProfileType,
            ParseError::ProfileTypeIsNotAValue => ProfileFault::ProfileTypeIsNotAValue,
            ParseError::InvalidValueForKey(k) => ProfileFault::InvalidValueForKey(k@),
        }
    }
}

/// The mathematical form of the MSVC settings.
pub struct MsvcModel {
    pub compiler_path: Option<Seq<char>>,
    pub standard: Option<MsvcStandard>,
    pub optimize: Option<MsvcOptimize>,
    pub openmp: bool,
    pub library_type: LibraryType,
}

/// The mathematical form of the NVCC settings.
pub struct NvccModel {
    pub compiler_path: Option<Seq<char>>,
    pub standard: Option<NvccStandard>,
    pub optimize: Option<NvccOptimize>,
    pub optimize_device: bool,
    pub library_type: LibraryType,
}

/// The mathematical form of a profile.
pub enum ProfileModel {
    Msvc(MsvcModel),
    Nvcc(NvccModel),
}

pub open spec fn opt_view(o: Option<String>) -> Option<Seq<char>> {
    match o {
        Some(s) => Some(s@),
        None => None,
    }
}

impl View for MsvcProfile {
    type V = MsvcModel;

    open spec fn view(&self) -> MsvcModel {
        MsvcModel {
            compiler_path: opt_view(self.compiler_path),
            standard: self.standard,
            optimize: self.optimize,
            openmp: self.openmp,
            library_type: self.library_type,
        }
    }
}

impl View for NvccProfile {
    type V = NvccModel;

    open spec fn view(&self) -> NvccModel {
        NvccModel {
            compiler_path: opt_view(self.compiler_path),
            standard: self.standard,
            optimize: self.optimize,
            optimize_device: self.optimize_device,
            library_type: self.library_type,
        }
    }
}

impl View for Profile {
    type V = ProfileModel;

    open spec fn view(&self) -> ProfileModel {
        match self {
            Profile::Msvc(p) => ProfileModel::Msvc(p@),
            Profile::Nvcc(p) => ProfileModel::Nvcc(p@),
        }
    }
}

//
// Option texts
//

/// The MSVC standard that a lowercased text names.
pub open spec fn msvc_standard_of(l: Seq<char>) -> Option<MsvcStandard> {
    if l == "c++14"@ || l == "cpp14"@ || words_are(l, "c++"@, "14"@) || words_are(l, "cpp"@, "14"@) {
        Some(MsvcStandard::CPP14)
    } else if l == "c++17"@ || l == "cpp17"@ || words_are(l, "c++"@, "17"@) || words_are(l, "cpp"@, "17"@) {
        Some(MsvcStandard::CPP17)
    } else if l == "c++20"@ || l == "cpp20"@ || words_are(l, "c++"@, "20"@) || words_are(l, "cpp"@, "20"@) {
        Some(MsvcStandard::CPP20)
    } else if l == "c++latest"@ || l == "cpplatest"@ || words_are(l, "c++"@, "latest"@) || words_are(l, "cpp"@, "latest"@) {
        Some(MsvcStandard::CPPLatest)
    } else if l == "c11"@ || words_are(l, "c"@, "11"@) {
        Some(MsvcStandard::C11)
    } else if l == "c17"@ || words_are(l, "c"@, "17"@) {
        Some(MsvcStandard::C17)
    } else {
        None
    }
}

/// The MSVC optimisation level that a lowercased text names.
pub open spec fn msvc_optimize_of(l: Seq<char>) -> Option<MsvcOptimize> {
    if l == "1"@ || l == "o1"@ || l == "minsize"@ || l == "minimumsize"@ || l == "minimizesize"@
        || l == "size"@ || words_are(l, "o"@, "1"@) || words_are(l, "min"@, "size"@) || words_are(l, "minimum"@, "size"@)
        || words_are(l, "minimize"@, "size"@) {
        Some(MsvcOptimize::MinimizeSize)
    } else if l == "2"@ || l == "o2"@ || l == "maxspeed"@ || l == "maximumspeed"@ || l == "maximizespeed"@
        || l == "speed"@ || words_are(l, "o"@, "2"@) || words_are(l, "max"@, "speed"@) || words_are(l, "maximum"@, "speed"@)
        || words_are(l, "maximize"@, "speed"@) {
        Some(MsvcOptimize::MaximizeSpeed)
    } else {
        None
    }
}

/// The NVCC standard that a lowercased text names.
pub open spec fn nvcc_standard_of(l: Seq<char>) -> Option<NvccStandard> {
    if l == "c++03"@ || l == "cpp03"@ || words_are(l, "c++"@, "03"@) || words_are(l, "cpp"@, "03"@) {
        Some(NvccStandard::CPP03)
    } else if l == "c++11"@ || l == "cpp11"@ || words_are(l, "c++"@, "11"@) || words_are(l, "cpp"@, "11"@) {
        Some(NvccStandard::CPP11)
    } else if l == "c++14"@ || l == "cpp14"@ || words_are(l, "c++"@, "14"@) || words_are(l, "cpp"@, "14"@) {
        Some(NvccStandard::CPP14)
    } else if l == "c++17"@ || l == "cpp17"@ || words_are(l, "c++"@, "17"@) || words_are(l, "cpp"@, "17"@) {
        Some(NvccStandard::CPP17)
    } else if l == "c++20"@ || l == "cpp20"@ || words_are(l, "c++"@, "20"@) || words_are(l, "cpp"@, "20"@) {
        Some(NvccStandard::CPP20)
    } else {
        None
    }
}

/// The NVCC optimisation level that a lowercased text names.
pub open spec fn nvcc_optimize_of(l: Seq<char>) -> Option<NvccOptimize> {
    if l == "0"@ || l == "o0"@ || l == "no"@ || l == "n"@ || l == "off"@ || l == "false"@ || l == "none"@
        || words_are(l, "o"@, "0"@) {
        Some(NvccOptimize::No)
    } else if l == "1"@ || l == "o1"@ || l == "yes"@ || l == "y"@ || l == "on"@ || l == "true"@ || l == "o"@
        || l == "optimize"@ || words_are(l, "o"@, "1"@) {
        Some(NvccOptimize::Yes)
    } else if l == "2"@ || l == "o2"@ || words_are(l, "o"@, "2"@) {
        Some(NvccOptimize::EvenMore)
    } else if l == "3"@ || l == "o3"@ || words_are(l, "o"@, "3"@) {
        Some(NvccOptimize::YetMore)
    } else if l == "s"@ || l == "os"@ || l == "size"@ || words_are(l, "o"@, "size"@) {
        Some(NvccOptimize::Size)
    } else if l == "fast"@ || l == "ofast"@ || words_are(l, "o"@, "fast"@) {
        Some(NvccOptimize::UncompliantFast)
    } else if l == "g"@ || l == "og"@ || l == "debug"@ || l == "odebug"@ || words_are(l, "o"@, "g"@)
        || words_are(l, "o"@, "debug"@) {
        Some(NvccOptimize::Debug)
    } else if l == "z"@ || l == "oz"@ {
        Some(NvccOptimize::SizeAggressive)
    } else {
        None
    }
}

/// The library type that a lowercased text names.
pub open spec fn library_type_of(l: Seq<char>) -> Option<LibraryType> {
    if l == "static"@ || l == "lib"@ || l == "a"@ {
        Some(LibraryType::Static)
    } else if l == "shared"@ || l == "dll"@ || l == "so"@ {
        Some(LibraryType::Shared)
    } else {
        None
    }
}

/// The boolean that a text spells, exactly `true` or `false`.
pub open spec fn bool_of(s: Seq<char>) -> Option<bool> {
    if s == "true"@ {
        Some(true)
    } else if s == "false"@ {
        Some(false)
    } else {
        None
    }
}

impl MsvcStandard {
    /// The standard that an already lowercased text names.
    pub fn from_lowercase(l: &str) -> (r: Option<MsvcStandard>)
        ensures
            r == msvc_standard_of(l@),
    {
        if str_eq(l, "c++14") || str_eq(l, "cpp14") || has_words(l, "c++", "14") || has_words(l, "cpp", "14") {
            Some(MsvcStandard::CPP14)
        } else if str_eq(l, "c++17") || str_eq(l, "cpp17") || has_words(l, "c++", "17") || has_words(l, "cpp", "17") {
            Some(MsvcStandard::CPP17)
        } else if str_eq(l, "c++20") || str_eq(l, "cpp20") || has_words(l, "c++", "20") || has_words(l, "cpp", "20") {
            Some(MsvcStandard::CPP20)
        } else if str_eq(l, "c++latest") || str_eq(l, "cpplatest") || has_words(l, "c++", "latest") || has_words(l, "cpp", "latest") {
            Some(MsvcStandard::CPPLatest)
        } else if str_eq(l, "c11") || has_words(l, "c", "11") {
            Some(MsvcStandard::C11)
        } else if str_eq(l, "c17") || has_words(l, "c", "17") {
            Some(MsvcStandard::C17)
        } else {
            None
        }
    }

    /// The standard that a text names, in any case.
    pub fn parse(s: &str) -> (r: Option<MsvcStandard>)
        ensures
            r == msvc_standard_of(lowercase_of(s@)),
    {
        let l = to_lowercase(s);
        MsvcStandard::from_lowercase(l.as_str())
    }

    /// The text of the `/std:` flag.
    pub fn text(&self) -> (r: &'static str)
        ensures
            r@ == msvc_standard_text(*self),
    {
        match self {
            MsvcStandard::CPP14 => "c++14",
            MsvcStandard::CPP17 => "c++17",
            MsvcStandard::CPP20 => "c++20",
            MsvcStandard::CPPLatest => "c++latest",
            MsvcStandard::C11 => "c11",
            MsvcStandard::C17 => "c17",
        }
    }
}

pub open spec fn msvc_standard_text(s: MsvcStandard) -> Seq<char> {
    match s {
        MsvcStandard::CPP14 => "c++14"@,
        MsvcStandard::CPP17 => "c++17"@,
        MsvcStandard::CPP20 => "c++20"@,
        MsvcStandard::CPPLatest => "c++latest"@,
        MsvcStandard::C11 => "c11"@,
        MsvcStandard::C17 => "c17"@,
    }
}

impl MsvcOptimize {
    /// The level that an already lowercased text names.
    pub fn from_lowercase(l: &str) -> (r: Option<MsvcOptimize>)
        ensures
            r == msvc_optimize_of(l@),
    {
        if str_eq(l, "1") || str_eq(l, "o1") || str_eq(l, "minsize") || str_eq(l, "minimumsize")
            || str_eq(l, "minimizesize") || str_eq(l, "size") || has_words(l, "o", "1") || has_words(l, "min", "size")
            || has_words(l, "minimum", "size") || has_words(l, "minimize", "size") {
            Some(MsvcOptimize::MinimizeSize)
        } else if str_eq(l, "2") || str_eq(l, "o2") || str_eq(l, "maxspeed") || str_eq(l, "maximumspeed")
            || str_eq(l, "maximizespeed") || str_eq(l, "speed") || has_words(l, "o", "2") || has_words(l, "max", "speed")
            || has_words(l, "maximum", "speed") || has_words(l, "maximize", "speed") {
            Some(MsvcOptimize::MaximizeSpeed)
        } else {
            None
        }
    }

    /// The level that a text names, in any case.
    pub fn parse(s: &str) -> (r: Option<MsvcOptimize>)
        ensures
            r == msvc_optimize_of(lowercase_of(s@)),
    {
        let l = to_lowercase(s);
        MsvcOptimize::from_lowercase(l.as_str())
    }

    /// The text of the `/O` flag.
    pub fn text(&self) -> (r: &'static str)
        ensures
            r@ == msvc_optimize_text(*self),
    {
        match self {
            MsvcOptimize::MinimizeSize => "1",
            MsvcOptimize::MaximizeSpeed => "2",
        }
    }
}

pub open spec fn msvc_optimize_text(o: MsvcOptimize) -> Seq<char> {
    match o {
        MsvcOptimize::MinimizeSize => "1"@,
        MsvcOptimize::MaximizeSpeed => "2"@,
    }
}

impl NvccStandard {
    /// The standard that an already lowercased text names.
    pub fn from_lowercase(l: &str) -> (r: Option<NvccStandard>)
        ensures
            r == nvcc_standard_of(l@),
    {
        if str_eq(l, "c++03") || str_eq(l, "cpp03") || has_words(l, "c++", "03") || has_words(l, "cpp", "03") {
            Some(NvccStandard::CPP03)
        } else if str_eq(l, "c++11") || str_eq(l, "cpp11") || has_words(l, "c++", "11") || has_words(l, "cpp", "11") {
            Some(NvccStandard::CPP11)
        } else if str_eq(l, "c++14") || str_eq(l, "cpp14") || has_words(l, "c++", "14") || has_words(l, "cpp", "14") {
            Some(NvccStandard::CPP14)
        } else if str_eq(l, "c++17") || str_eq(l, "cpp17") || has_words(l, "c++", "17") || has_words(l, "cpp", "17") {
            Some(NvccStandard::CPP17)
        } else if str_eq(l, "c++20") || str_eq(l, "cpp20") || has_words(l, "c++", "20") || has_words(l, "cpp", "20") {
            Some(NvccStandard::CPP20)
        } else {
            None
        }
    }

    /// The standard that a text names, in any case.
    pub fn parse(s: &str) -> (r: Option<NvccStandard>)
        ensures
            r == nvcc_standard_of(lowercase_of(s@)),
    {
        let l = to_lowercase(s);
        NvccStandard::from_lowercase(l.as_str())
    }

    /// The text of the `--std` flag.
    pub fn text(&self) -> (r: &'static str)
        ensures
            r@ == nvcc_standard_text(*self),
    {
        match self {
            NvccStandard::CPP03 => "c++03",
            NvccStandard::CPP11 => "c++11",
            NvccStandard::CPP14 => "c++14",
            NvccStandard::CPP17 => "c++17",
            NvccStandard::CPP20 => "c++20",
        }
    }
}

pub open spec fn nvcc_standard_text(s: NvccStandard) -> Seq<char> {
    match s {
        NvccStandard::CPP03 => "c++03"@,
        NvccStandard::CPP11 => "c++11"@,
        NvccStandard::CPP14 => "c++14"@,
        NvccStandard::CPP17 => "c++17"@,
        NvccStandard::CPP20 => "c++20"@,
    }
}

impl NvccOptimize {
    /// The level that an already lowercased text names.
    pub fn from_lowercase(l: &str) -> (r: Option<NvccOptimize>)
        ensures
            r == nvcc_optimize_of(l@),
    {
        if str_eq(l, "0") || str_eq(l, "o0") || str_eq(l, "no") || str_eq(l, "n") || str_eq(l, "off")
            || str_eq(l, "false") || str_eq(l, "none") || has_words(l, "o", "0") {
            Some(NvccOptimize::No)
        } else if str_eq(l, "1") || str_eq(l, "o1") || str_eq(l, "yes") || str_eq(l, "y") || str_eq(l, "on")
            || str_eq(l, "true") || str_eq(l, "o") || str_eq(l, "optimize") || has_words(l, "o", "1") {
            Some(NvccOptimize::Yes)
        } else if str_eq(l, "2") || str_eq(l, "o2") || has_words(l, "o", "2") {
            Some(NvccOptimize::EvenMore)
        } else if str_eq(l, "3") || str_eq(l, "o3") || has_words(l, "o", "3") {
            Some(NvccOptimize::YetMore)
        } else if str_eq(l, "s") || str_eq(l, "os") || str_eq(l, "size") || has_words(l, "o", "size") {
            Some(NvccOptimize::Size)
        } else if str_eq(l, "fast") || str_eq(l, "ofast") || has_words(l, "o", "fast") {
            Some(NvccOptimize::UncompliantFast)
        } else if str_eq(l, "g") || str_eq(l, "og") || str_eq(l, "debug") || str_eq(l, "odebug")
            || has_words(l, "o", "g") || has_words(l, "o", "debug") {
            Some(NvccOptimize::Debug)
        } else if str_eq(l, "z") || str_eq(l, "oz") {
            Some(NvccOptimize::SizeAggressive)
        } else {
            None
        }
    }

    /// The level that a text names, in any case.
    pub fn parse(s: &str) -> (r: Option<NvccOptimize>)
        ensures
            r == nvcc_optimize_of(lowercase_of(s@)),
    {
        let l = to_lowercase(s);
        NvccOptimize::from_lowercase(l.as_str())
    }

    /// The text of the `--optimize` flag.
    pub fn text(&self) -> (r: &'static str)
        ensures
            r@ == nvcc_optimize_text(*self),
    {
        match self {
            NvccOptimize::No => "0",
            NvccOptimize::Yes => "1",
            NvccOptimize::EvenMore => "2",
            NvccOptimize::YetMore => "3",
            NvccOptimize::Size => "s",
            NvccOptimize::UncompliantFast => "fast",
            NvccOptimize::Debug => "g",
            NvccOptimize::SizeAggressive => "z",
        }
    }
}

pub open spec fn nvcc_optimize_text(o: NvccOptimize) -> Seq<char> {
    match o {
        NvccOptimize::No => "0"@,
        NvccOptimize::Yes => "1"@,
        NvccOptimize::EvenMore => "2"@,
        NvccOptimize::YetMore => "3"@,
        NvccOptimize::Size => "s"@,
        NvccOptimize::UncompliantFast => "fast"@,
        NvccOptimize::Debug => "g"@,
        NvccOptimize::SizeAggressive => "z"@,
    }
}

impl LibraryType {
    /// The library type that an already lowercased text names.
    pub fn from_lowercase(l: &str) -> (r: Option<LibraryType>)
        ensures
            r == library_type_of(l@),
    {
        if str_eq(l, "static") || str_eq(l, "lib") || str_eq(l, "a") {
            Some(LibraryType::Static)
        } else if str_eq(l, "shared") || str_eq(l, "dll") || str_eq(l, "so") {
            Some(LibraryType::Shared)
        } else {
            None
        }
    }

    /// The library type that a text names, in any case.
    pub fn parse(s: &str) -> (r: Option<LibraryType>)
        ensures
            r == library_type_of(lowercase_of(s@)),
    {
        let l = to_lowercase(s);
        LibraryType::from_lowercase(l.as_str())
    }
}

/// The boolean that a text spells, exactly `true` or `false`.
pub fn parse_bool(s: &str) -> (r: Option<bool>)
    ensures
        r == bool_of(s@),
{
    if str_eq(s, "true") {
        Some(true)
    } else if str_eq(s, "false") {
        Some(false)
    } else {
        None
    }
}

//
// Overlays
//

/// The scalar under `key` in a level: `Ok(None)` when absent, `Err(())` when
/// the key holds a level.
pub open spec fn option_value(l: Entries, key: Seq<char>) -> Result<Option<Seq<char>>, ()> {
    match find(l, key) {
        None => Ok(None),
        Some(i) => match l[i].1 {
            Node::Value(v) => Ok(Some(v)),
            Node::Level(_) => Err(()),
        },
    }
}

/// Reads an option through `f`; an unreadable text is `Err(())`.
pub open spec fn option_read<T>(v: Result<Option<Seq<char>>, ()>, f: spec_fn(Seq<char>) -> Option<T>) -> Result<Option<T>, ()> {
    match v {
        Err(()) => Err(()),
        Ok(None) => Ok(None),
        Ok(Some(x)) => match f(x) {
            Some(t) => Ok(Some(t)),
            None => Err(()),
        },
    }
}

/// `new` where it is present, else `old`.
pub open spec fn overlay<T>(old: Option<T>, new: Option<T>) -> Option<T> {
    match new {
        Some(x) => Some(x),
        None => old,
    }
}

/// `new` where it is present, else `old`.
pub open spec fn overlay_flag<T>(old: T, new: Option<T>) -> T {
    match new {
        Some(x) => x,
        None => old,
    }
}

/// MSVC settings with the options of a level applied over them.
pub open spec fn msvc_apply(p: MsvcModel, l: Entries) -> Result<MsvcModel, ProfileFault> {
    let cp = option_value(l, "compiler_path"@);
    let st = option_read(option_value(l, "standard"@), |x: Seq<char>| msvc_standard_of(lowercase_of(x)));
    let op = option_read(option_value(l, "optimize"@), |x: Seq<char>| msvc_optimize_of(lowercase_of(x)));
    let mp = option_read(option_value(l, "openmp"@), |x: Seq<char>| bool_of(x));
    let lt = option_read(option_value(l, "library"@), |x: Seq<char>| library_type_of(lowercase_of(x)));
    if cp is Err {
        Err(ProfileFault::InvalidValueForKey("compiler_path"@))
    } else if st is Err {
        Err(ProfileFault::InvalidValueForKey("standard"@))
    } else if op is Err {
        Err(ProfileFault::InvalidValueForKey("optimize"@))
    } else if mp is Err {
        Err(ProfileFault::InvalidValueForKey("openmp"@))
    } else if lt is Err {
        Err(ProfileFault::InvalidValueForKey("library"@))
    } else {
        Ok(
            MsvcModel {
                compiler_path: overlay(p.compiler_path, cp->Ok_0),
                standard: overlay(p.standard, st->Ok_0),
                optimize: overlay(p.optimize, op->Ok_0),
                openmp: overlay_flag(p.openmp, mp->Ok_0),
                library_type: overlay_flag(p.library_type, lt->Ok_0),
            },
        )
    }
}

/// NVCC settings with the options of a level applied over them.
pub open spec fn nvcc_apply(p: NvccModel, l: Entries) -> Result<NvccModel, ProfileFault> {
    let cp = option_value(l, "compiler_path"@);
    let st = option_read(option_value(l, "standard"@), |x: Seq<char>| nvcc_standard_of(lowercase_of(x)));
    let op = option_read(option_value(l, "optimize"@), |x: Seq<char>| nvcc_optimize_of(lowercase_of(x)));
    let dp = option_read(option_value(l, "dopt"@), |x: Seq<char>| bool_of(x));
    let lt = option_read(option_value(l, "library"@), |x: Seq<char>| library_type_of(lowercase_of(x)));
    if cp is Err {
        Err(ProfileFault::InvalidValueForKey("compiler_path"@))
    } else if st is Err {
        Err(ProfileFault::InvalidValueForKey("standard"@))
    } else if op is Err {
        Err(ProfileFault::InvalidValueForKey("optimize"@))
    } else if dp is Err {
        Err(ProfileFault::InvalidValueForKey("dopt"@))
    } else if lt is Err {
        Err(ProfileFault::InvalidValueForKey("library"@))
    } else {
        Ok(
            NvccModel {
                compiler_path: overlay(p.compiler_path, cp->Ok_0),
                standard: overlay(p.standard, st->Ok_0),
                optimize: overlay(p.optimize, op->Ok_0),
                optimize_device: overlay_flag(p.optimize_device, dp->Ok_0),
                library_type: overlay_flag(p.library_type, lt->Ok_0),
            },
        )
    }
}

/// A profile with the options of a level applied over it.
pub open spec fn profile_apply(p: ProfileModel, l: Entries) -> Result<ProfileModel, ProfileFault> {
    match p {
        ProfileModel::Msvc(m) => match msvc_apply(m, l) {
            Ok(x) => Ok(ProfileModel::Msvc(x)),
            Err(f) => Err(f),
        },
        ProfileModel::Nvcc(m) => match nvcc_apply(m, l) {
            Ok(x) => Ok(ProfileModel::Nvcc(x)),
            Err(f) => Err(f),
        },
    }
}

/// The scalar under `key` in a level, or `Err(())` where it holds a level.
fn read_option(level: &Level, key: &str) -> (r: Result<Option<String>, ()>)
    ensures
        match option_value(level@, key@) {
            Err(()) => r is Err,
            Ok(None) => r matches Ok(None),
            Ok(Some(v)) => r matches Ok(Some(x)) && x@ == v,
        },
{
    match level.get(key) {
        None => Ok(None),
        Some(LSD::Value(v)) => Ok(Some(v.clone())),
        Some(LSD::Level(_)) => Err(()),
    }
}

fn copy_path(p: &Option<String>) -> (r: Option<String>)
    ensures
        opt_view(r) == opt_view(*p),
{
    match p {
        Some(s) => Some(s.clone()),
        None => None,
    }
}

impl MsvcProfile {
    /// The backend's defaults: no flags, a shared library.
    pub fn create_default() -> (r: MsvcProfile)
        ensures
            r@ == (MsvcModel {
                compiler_path: None,
                standard: None,
                optimize: None,
                openmp: false,
                library_type: LibraryType::Shared,
            }),
    {
        MsvcProfile {
            compiler_path: None,
            standard: None,
            optimize: None,
            openmp: false,
            library_type: LibraryType::Shared,
        }
    }

    /// A copy of the settings.
    pub fn copy(&self) -> (r: MsvcProfile)
        ensures
            r@ == self@,
    {
        MsvcProfile {
            compiler_path: copy_path(&self.compiler_path),
            standard: self.standard,
            optimize: self.optimize,
            openmp: self.openmp,
            library_type: self.library_type,
        }
    }

    /// Applies the options of a level over the settings; on an error the
    /// settings stay as they were.
    pub fn apply(&mut self, level: &Level) -> (r: Result<(), ParseError>)
        ensures
            match msvc_apply(old(self)@, level@) {
                Ok(m) => r is Ok && final(self)@ == m,
                Err(f) => r matches Err(e) && e@ == f && final(self)@ == old(self)@,
            },
    {
        let cp = read_option(level, "compiler_path");
        let st = match read_option(level, "standard") {
            Err(()) => Err(()),
            Ok(None) => Ok(None),
            Ok(Some(x)) => match MsvcStandard::parse(x.as_str()) {
                Some(v) => Ok(Some(v)),
                None => Err(()),
            },
        };
        let op = match read_option(level, "optimize") {
            Err(()) => Err(()),
            Ok(None) => Ok(None),
            Ok(Some(x)) => match MsvcOptimize::parse(x.as_str()) {
                Some(v) => Ok(Some(v)),
                None => Err(()),
            },
        };
        let mp = match read_option(level, "openmp") {
            Err(()) => Err(()),
            Ok(None) => Ok(None),
            Ok(Some(x)) => match parse_bool(x.as_str()) {
                Some(v) => Ok(Some(v)),
                None => Err(()),
            },
        };
        let lt = match read_option(level, "library") {
            Err(()) => Err(()),
            Ok(None) => Ok(None),
            Ok(Some(x)) => match LibraryType::parse(x.as_str()) {
                Some(v) => Ok(Some(v)),
                None => Err(()),
            },
        };
        match (cp, st, op, mp, lt) {
            (Err(()), _, _, _, _) => Err(ParseError::InvalidValueForKey(owned("compiler_path"))),
            (_, Err(()), _, _, _) => Err(ParseError::InvalidValueForKey(owned("standard"))),
            (_, _, Err(()), _, _) => Err(ParseError::InvalidValueForKey(owned("optimize"))),
            (_, _, _, Err(()), _) => Err(ParseError::InvalidValueForKey(owned("openmp"))),
            (_, _, _, _, Err(())) => Err(ParseError::InvalidValueForKey(owned("library"))),
            (Ok(cp), Ok(st), Ok(op), Ok(mp), Ok(lt)) => {
                if let Some(x) = cp {
                    self.compiler_path = Some(x);
                }
                if let Some(x) = st {
                    self.standard = Some(x);
                }
                if let Some(x) = op {
                    self.optimize = Some(x);
                }
                if let Some(x) = mp {
                    self.openmp = x;
                }
                if let Some(x) = lt {
                    self.library_type = x;
                }
                Ok(())
            },
        }
    }
}

impl NvccProfile {
    /// The backend's defaults: no flags, a shared library.
    pub fn create_default() -> (r: NvccProfile)
        ensures
            r@ == (NvccModel {
                compiler_path: None,
                standard: None,
                optimize: None,
                optimize_device: false,
                library_type: LibraryType::Shared,
            }),
    {
        NvccProfile {
            compiler_path: None,
            standard: None,
            optimize: None,
            optimize_device: false,
            library_type: LibraryType::Shared,
        }
    }

    /// A copy of the settings.
    pub fn copy(&self) -> (r: NvccProfile)
        ensures
            r@ == self@,
    {
        NvccProfile {
            compiler_path: copy_path(&self.compiler_path),
            standard: self.standard,
            optimize: self.optimize,
            optimize_device: self.optimize_device,
            library_type: self.library_type,
        }
    }

    /// Applies the options of a level over the settings; on an error the
    /// settings stay as they were.
    pub fn apply(&mut self, level: &Level) -> (r: Result<(), ParseError>)
        ensures
            match nvcc_apply(old(self)@, level@) {
                Ok(m) => r is Ok && final(self)@ == m,
                Err(f) => r matches Err(e) && e@ == f && final(self)@ == old(self)@,
            },
    {
        let cp = read_option(level, "compiler_path");
        let st = match read_option(level, "standard") {
            Err(()) => Err(()),
            Ok(None) => Ok(None),
            Ok(Some(x)) => match NvccStandard::parse(x.as_str()) {
                Some(v) => Ok(Some(v)),
                None => Err(()),
            },
        };
        let op = match read_option(level, "optimize") {
            Err(()) => Err(()),
            Ok(None) => Ok(None),
            Ok(Some(x)) => match NvccOptimize::parse(x.as_str()) {
                Some(v) => Ok(Some(v)),
                None => Err(()),
            },
        };
        let dp = match read_option(level, "dopt") {
            Err(()) => Err(()),
            Ok(None) => Ok(None),
            Ok(Some(x)) => match parse_bool(x.as_str()) {
                Some(v) => Ok(Some(v)),
                None => Err(()),
            },
        };
        let lt = match read_option(level, "library") {
            Err(()) => Err(()),
            Ok(None) => Ok(None),
            Ok(Some(x)) => match LibraryType::parse(x.as_str()) {
                Some(v) => Ok(Some(v)),
                None => Err(()),
            },
        };
        match (cp, st, op, dp, lt) {
            (Err(()), _, _, _, _) => Err(ParseError::InvalidValueForKey(owned("compiler_path"))),
            (_, Err(()), _, _, _) => Err(ParseError::InvalidValueForKey(owned("standard"))),
            (_, _, Err(()), _, _) => Err(ParseError::InvalidValueForKey(owned("optimize"))),
            (_, _, _, Err(()), _) => Err(ParseError::InvalidValueForKey(owned("dopt"))),
            (_, _, _, _, Err(())) => Err(ParseError::InvalidValueForKey(owned("library"))),
            (Ok(cp), Ok(st), Ok(op), Ok(dp), Ok(lt)) => {
                if let Some(x) = cp {
                    self.compiler_path = Some(x);
                }
                if let Some(x) = st {
                    self.standard = Some(x);
                }
                if let Some(x) = op {
                    self.optimize = Some(x);
                }
                if let Some(x) = dp {
                    self.optimize_device = x;
                }
                if let Some(x) = lt {
                    self.library_type = x;
                }
                Ok(())
            },
        }
    }
}

//
// The profile table
//

#[verifier::external_type_specification]
#[verifier::external_body]
#[verifier::reject_recursive_types(K)]
#[verifier::reject_recursive_types(V)]
#[verifier::reject_recursive_types(S)]
pub struct ExIndexMap<K, V, S>(IndexMap<K, V, S>);

/// The table of profiles, keyed by name, in the order of declaration.
pub type ProfileTable = IndexMap<String, Profile>;

/// What a profile table holds, in its order.
pub uninterp spec fn table_entries(m: ProfileTable) -> Seq<(Seq<char>, Profile)>;

/// Index of the entry named `k`.
pub open spec fn table_find(e: Seq<(Seq<char>, Profile)>, k: Seq<char>) -> Option<int> {
    if exists|i: int| 0 <= i < e.len() && #[trigger] e[i].0 == k {
        Some(choose|i: int| 0 <= i < e.len() && #[trigger] e[i].0 == k)
    } else {
        None
    }
}

/// Whether no name occurs twice in the table.
pub open spec fn table_unique(e: Seq<(Seq<char>, Profile)>) -> bool {
    forall|i: int, j: int| 0 <= i < e.len() && 0 <= j < e.len() && e[i].0 == e[j].0 ==> i == j
}

/// Relies on `IndexMap::new`: an empty map.
#[verifier::external_body]
pub(crate) fn table_new() -> (r: ProfileTable)
    ensures
        table_entries(r) == Seq::<(Seq<char>, Profile)>::empty(),
{
    IndexMap::new()
}

/// Relies on `IndexMap::insert`: a new key goes last; a key already present
/// keeps its place and takes the new value.
#[verifier::external_body]
pub(crate) fn table_insert(m: &mut ProfileTable, k: String, v: Profile)
    ensures
        match table_find(table_entries(*old(m)), k@) {
            None => table_entries(*final(m)) == table_entries(*old(m)).push((k@, v)),
            Some(i) => table_entries(*final(m)) == table_entries(*old(m)).update(i, (k@, v)),
        },
{
    m.insert(k, v);
}

/// Relies on `IndexMap::get`: the value stored under an equal key.
#[verifier::external_body]
pub(crate) fn table_get<'a>(m: &'a ProfileTable, k: &str) -> (r: Option<&'a Profile>)
    ensures
        match table_find(table_entries(*m), k@) {
            None => r is None,
            Some(i) => r matches Some(p) && *p == table_entries(*m)[i].1,
        },
{
    m.get(k)
}

impl Profile {
    /// A copy of the profile.
    pub fn copy(&self) -> (r: Profile)
        ensures
            r@ == self@,
    {
        match self {
            Profile::Msvc(p) => Profile::Msvc(p.copy()),
            Profile::Nvcc(p) => Profile::Nvcc(p.copy()),
        }
    }

    /// A copy of the profile with the options of a level applied over it.
    pub fn inherit_with(&self, level: &Level) -> (r: Result<Profile, ParseError>)
        ensures
            match profile_apply(self@, level@) {
                Ok(m) => r matches Ok(p) && p@ == m,
                Err(f) => r matches Err(e) && e@ == f,
            },
    {
        match self {
            Profile::Msvc(p) => {
                let mut q = p.copy();
                match q.apply(level) {
                    Ok(()) => Ok(Profile::Msvc(q)),
                    Err(e) => Err(e),
                }
            },
            Profile::Nvcc(p) => {
                let mut q = p.copy();
                match q.apply(level) {
                    Ok(()) => Ok(Profile::Nvcc(q)),
                    Err(e) => Err(e),
                }
            },
        }
    }

    /// Suffix of the source file that the backend compiles.
    pub fn src_file_suffix(&self) -> (r: &'static str)
        ensures
            r@ == src_suffix(self@),
    {
        match self {
            Profile::Msvc(_) => ".cpp",
            Profile::Nvcc(_) => ".cu",
        }
    }

    /// What precedes the project name in the artifact's file name.
    pub fn artifact_prefix(&self, build_type: BuildType, os: TargetOs) -> (r: &'static str)
        ensures
            r@ == artifact_prefix_of(self@, build_type, os),
    {
        match (self, build_type, os) {
            (Profile::Nvcc(_), BuildType::Library, TargetOs::Linux) => "lib",
            _ => "",
        }
    }

    /// What follows the project name in the artifact's file name.
    pub fn artifact_suffix(&self, build_type: BuildType, os: TargetOs) -> (r: &'static str)
        ensures
            r@ == artifact_suffix_of(self@, build_type, os),
    {
        let lt = match self {
            Profile::Msvc(p) => p.library_type,
            Profile::Nvcc(p) => p.library_type,
        };
        let unix = match (self, os) {
            (Profile::Nvcc(_), TargetOs::Linux) => true,
            _ => false,
        };
        match (build_type, lt, unix) {
            (BuildType::Binary, _, false) => ".exe",
            (BuildType::Binary, _, true) => "",
            (BuildType::Library, LibraryType::Shared, false) => ".dll",
            (BuildType::Library, LibraryType::Static, false) => ".lib",
            (BuildType::Library, LibraryType::Shared, true) => ".so",
            (BuildType::Library, LibraryType::Static, true) => ".a",
        }
    }

    /// The compiler to run: the configured path, else the backend's own.
    pub fn compiler_command(&self) -> (r: &str)
        ensures
            r@ == compiler_command_of(self@),
    {
        match self {
            Profile::Msvc(p) => match &p.compiler_path {
                Some(c) => c.as_str(),
                None => "cl",
            },
            Profile::Nvcc(p) => match &p.compiler_path {
                Some(c) => c.as_str(),
                None => "nvcc",
            },
        }
    }

}

/// Suffix of the source file that a backend compiles.
pub open spec fn src_suffix(p: ProfileModel) -> Seq<char> {
    match p {
        ProfileModel::Msvc(_) => ".cpp"@,
        ProfileModel::Nvcc(_) => ".cu"@,
    }
}

/// What precedes the project name in an artifact's file name.
pub open spec fn artifact_prefix_of(p: ProfileModel, b: BuildType, os: TargetOs) -> Seq<char> {
    if p is Nvcc && b == BuildType::Library && os == TargetOs::Linux {
        "lib"@
    } else {
        ""@
    }
}

/// What follows the project name in an artifact's file name.
pub open spec fn artifact_suffix_of(p: ProfileModel, b: BuildType, os: TargetOs) -> Seq<char> {
    let lt = match p {
        ProfileModel::Msvc(m) => m.library_type,
        ProfileModel::Nvcc(m) => m.library_type,
    };
    let unix = p is Nvcc && os == TargetOs::Linux;
    match (b, lt, unix) {
        (BuildType::Binary, _, false) => ".exe"@,
        (BuildType::Binary, _, true) => ""@,
        (BuildType::Library, LibraryType::Shared, false) => ".dll"@,
        (BuildType::Library, LibraryType::Static, false) => ".lib"@,
        (BuildType::Library, LibraryType::Shared, true) => ".so"@,
        (BuildType::Library, LibraryType::Static, true) => ".a"@,
    }
}

/// The compiler that a profile runs.
pub open spec fn compiler_command_of(p: ProfileModel) -> Seq<char> {
    match p {
        ProfileModel::Msvc(m) => match m.compiler_path {
            Some(c) => c,
            None => "cl"@,
        },
        ProfileModel::Nvcc(m) => match m.compiler_path {
            Some(c) => c,
            None => "nvcc"@,
        },
    }
}

//
// Parsing profile entries
//

/// The backend that a lowercased `is` text names, with its defaults.
pub open spec fn backend_default(l: Seq<char>) -> Option<ProfileModel> {
    if l == "nvcc"@ || l == "cuda"@ {
        Some(
            ProfileModel::Nvcc(
                NvccModel {
                    compiler_path: None,
                    standard: None,
                    optimize: None,
                    optimize_device: false,
                    library_type: LibraryType::Shared,
                },
            ),
        )
    } else if l == "msvc"@ {
        Some(
            ProfileModel::Msvc(
                MsvcModel {
                    compiler_path: None,
                    standard: None,
                    optimize: None,
                    openmp: false,
                    library_type: LibraryType::Shared,
                },
            ),
        )
    } else {
        None
    }
}

/// What a profile entry declares, given the profiles declared before it.
pub open spec fn profile_entry(
    earlier: Seq<(Seq<char>, Profile)>,
    entry: Node,
) -> Result<ProfileModel, ProfileFault> {
    match entry {
        Node::Value(v) => match backend_default(lowercase_of(v)) {
            Some(p) => Ok(p),
            None => Err(ProfileFault::CouldNotFindMatchingCompiler),
        },
        Node::Level(l) => match option_value(l, "inherit"@) {
            Err(()) => Err(ProfileFault::InheritIsNotAValue),
            Ok(Some(name)) => match table_find(earlier, name) {
                None => Err(ProfileFault::InheritingFromNonExistentProfile(name)),
                Some(i) => profile_apply(earlier[i].1@, l),
            },
            Ok(None) => match option_value(l, "is"@) {
                Err(()) => Err(ProfileFault::ProfileTypeIsNotAValue),
                Ok(None) => Err(ProfileFault::MissingProfileType),
                Ok(Some(is)) => match backend_default(lowercase_of(is)) {
                    Some(p) => profile_apply(p, l),
                    None => Err(ProfileFault::CouldNotFindMatchingCompiler),
                },
            },
        },
    }
}

fn backend_default_exec(is: &str) -> (r: Option<Profile>)
    ensures
        match backend_default(lowercase_of(is@)) {
            Some(m) => r matches Some(p) && p@ == m,
            None => r is None,
        },
{
    let l = to_lowercase(is);
    if str_eq(l.as_str(), "nvcc") || str_eq(l.as_str(), "cuda") {
        Some(Profile::Nvcc(NvccProfile::create_default()))
    } else if str_eq(l.as_str(), "msvc") {
        Some(Profile::Msvc(MsvcProfile::create_default()))
    } else {
        None
    }
}

/// Reads one profile entry, given the table of the profiles declared before it.
pub fn parse_one(profiles: &ProfileTable, entry: &LSD) -> (r: Result<Profile, ParseError>)
    ensures
        match profile_entry(table_entries(*profiles), entry@) {
            Ok(m) => r matches Ok(p) && p@ == m,
            Err(f) => r matches Err(e) && e@ == f,
        },
{
    match entry {
        LSD::Value(v) => match backend_default_exec(v.as_str()) {
            Some(p) => Ok(p),
            None => Err(ParseError::CouldNotFindMatchingCompiler),
        },
        LSD::Level(level) => {
            match read_option(level, "inherit") {
                Err(()) => Err(ParseError::InheritIsNotAValue),
                Ok(Some(name)) => match table_get(profiles, name.as_str()) {
                    None => Err(ParseError::InheritingFromNonExistentProfile(name)),
                    Some(p) => p.inherit_with(level),
                },
                Ok(None) => match read_option(level, "is") {
                    Err(()) => Err(ParseError::ProfileTypeIsNotAValue),
                    Ok(None) => Err(ParseError::MissingProfileType),
                    Ok(Some(is)) => match backend_default_exec(is.as_str()) {
                        Some(p) => p.inherit_with(level),
                        None => Err(ParseError::CouldNotFindMatchingCompiler),
                    },
                },
            }
        },
    }
}

/// What the entries `e[i..]` of a profile level add to the table `earlier`
/// and to the errors found so far: each entry in order, an error in place of
/// an entry that does not read.
pub open spec fn profiles_from(
    e: Entries,
    i: int,
    earlier: Seq<(Seq<char>, ProfileModel)>,
    errors: Seq<ProfileFault>,
) -> (Seq<(Seq<char>, ProfileModel)>, Seq<ProfileFault>)
    decreases e.len() - i,
{
    if i < 0 || i >= e.len() {
        (earlier, errors)
    } else {
        match profile_entry_model(earlier, e[i].1) {
            Ok(p) => profiles_from(e, i + 1, model_insert(earlier, e[i].0, p), errors),
            Err(f) => profiles_from(e, i + 1, earlier, errors.push(f)),
        }
    }
}

/// `profile_entry` over a table of profile models.
pub open spec fn profile_entry_model(
    earlier: Seq<(Seq<char>, ProfileModel)>,
    entry: Node,
) -> Result<ProfileModel, ProfileFault> {
    match entry {
        Node::Value(v) => match backend_default(lowercase_of(v)) {
            Some(p) => Ok(p),
            None => Err(ProfileFault::CouldNotFindMatchingCompiler),
        },
        Node::Level(l) => match option_value(l, "inherit"@) {
            Err(()) => Err(ProfileFault::InheritIsNotAValue),
            Ok(Some(name)) => match model_find(earlier, name) {
                None => Err(ProfileFault::InheritingFromNonExistentProfile(name)),
                Some(i) => profile_apply(earlier[i].1, l),
            },
            Ok(None) => match option_value(l, "is"@) {
                Err(()) => Err(ProfileFault::ProfileTypeIsNotAValue),
                Ok(None) => Err(ProfileFault::MissingProfileType),
                Ok(Some(is)) => match backend_default(lowercase_of(is)) {
                    Some(p) => profile_apply(p, l),
                    None => Err(ProfileFault::CouldNotFindMatchingCompiler),
                },
            },
        },
    }
}

/// Index of the model named `k`.
pub open spec fn model_find(e: Seq<(Seq<char>, ProfileModel)>, k: Seq<char>) -> Option<int> {
    if exists|i: int| 0 <= i < e.len() && #[trigger] e[i].0 == k {
        Some(choose|i: int| 0 <= i < e.len() && #[trigger] e[i].0 == k)
    } else {
        None
    }
}

/// Inserts a named model: a new name goes last, a present one takes the value.
pub open spec fn model_insert(e: Seq<(Seq<char>, ProfileModel)>, k: Seq<char>, p: ProfileModel) -> Seq<
    (Seq<char>, ProfileModel),
> {
    match model_find(e, k) {
        None => e.push((k, p)),
        Some(i) => e.update(i, (k, p)),
    }
}

/// The models of a profile table.
pub open spec fn table_models(e: Seq<(Seq<char>, Profile)>) -> Seq<(Seq<char>, ProfileModel)> {
    e.map_values(|x: (Seq<char>, Profile)| (x.0, x.1@))
}

/// What a profile level reads as: the table of its profiles, or every error
/// that its entries hold.
pub open spec fn profiles_of(e: Entries) -> Result<Seq<(Seq<char>, ProfileModel)>, Seq<ProfileFault>> {
    let (t, errors) = profiles_from(e, 0, Seq::empty(), Seq::empty());
    if errors.len() == 0 {
        Ok(t)
    } else {
        Err(errors)
    }
}

proof fn lemma_table_find_models(e: Seq<(Seq<char>, Profile)>, k: Seq<char>)
    requires
        table_unique(e),
    ensures
        table_find(e, k) == model_find(table_models(e), k),
{
    let m = table_models(e);
    if exists|i: int| 0 <= i < e.len() && #[trigger] e[i].0 == k {
        let i = choose|i: int| 0 <= i < e.len() && #[trigger] e[i].0 == k;
        assert(m[i].0 == k);
        let j = choose|j: int| 0 <= j < m.len() && #[trigger] m[j].0 == k;
        assert(e[j].0 == k);
    } else {
        assert forall|j: int| 0 <= j < m.len() implies #[trigger] m[j].0 != k by {
            assert(e[j].0 == m[j].0);
        }
    }
}

/// Reads every entry of a profile level, in order; an entry may inherit from
/// one declared before it. All errors are gathered.
pub fn parse_all(level: &Level) -> (r: Result<ProfileTable, Vec<ParseError>>)
    ensures
        match profiles_of(level@) {
            Ok(t) => r matches Ok(m) && table_models(table_entries(m)) == t && table_unique(
                table_entries(m),
            ),
            Err(errors) => r matches Err(v) && v@.len() == errors.len() && forall|i: int|
                0 <= i < errors.len() ==> (#[trigger] v@[i])@ == errors[i],
        },
{
    let mut profiles = table_new();
    let mut errors: Vec<ParseError> = Vec::new();
    let n = level.len();
    let mut i: usize = 0;
    let ghost start = profiles_from(level@, 0, Seq::empty(), Seq::empty());
    assert(table_models(table_entries(profiles)) =~= Seq::<(Seq<char>, ProfileModel)>::empty());
    assert(table_unique(table_entries(profiles)));
    assert(errors@.map_values(|e: ParseError| e@) =~= Seq::<ProfileFault>::empty());
    while i < n
        invariant
            n == level@.len(),
            i <= n,
            table_unique(table_entries(profiles)),
            profiles_from(level@, i as int, table_models(table_entries(profiles)), errors@.map_values(|e: ParseError| e@)) == start,
            start == profiles_from(level@, 0, Seq::empty(), Seq::empty()),
        decreases n - i,
    {
        let (name, entry) = level.entry(i);
        let ghost before = table_entries(profiles);
        let ghost errs = errors@.map_values(|e: ParseError| e@);
        proof {
            lemma_table_find_models(before, name@);
            lemma_profile_entry_models(before, entry@);
        }
        match parse_one(&profiles, entry) {
            Ok(p) => {
                let ghost pm = p@;
                table_insert(&mut profiles, name.clone(), p);
                proof {
                    let after = table_entries(profiles);
                    assert(table_models(after) =~= model_insert(table_models(before), name@, pm));
                    assert(table_unique(after)) by {
                        match table_find(before, name@) {
                            None => {
                                assert forall|a: int, b: int|
                                    0 <= a < after.len() && 0 <= b < after.len() && after[a].0 == after[b].0 implies a == b by {
                                    if a < before.len() && b < before.len() {
                                        assert(before[a].0 == before[b].0);
                                    } else if a < before.len() {
                                        assert(before[a].0 == name@);
                                    } else if b < before.len() {
                                        assert(before[b].0 == name@);
                                    }
                                }
                            },
                            Some(j) => {
                                assert forall|a: int, b: int|
                                    0 <= a < after.len() && 0 <= b < after.len() && after[a].0 == after[b].0 implies a == b by {
                                    assert(after[a].0 == before[a].0);
                                    assert(after[b].0 == before[b].0);
                                }
                            },
                        }
                    }
                }
            },
            Err(e) => {
                errors.push(e);
                assert(errors@.map_values(|e: ParseError| e@) =~= errs.push(e@));
            },
        }
        i = i + 1;
    }
    if errors.len() == 0 {
        Ok(profiles)
    } else {
        proof {
            assert forall|k: int| 0 <= k < errors@.len() implies (#[trigger] errors@[k])@ == start.1[k] by {
                assert(errors@.map_values(|e: ParseError| e@)[k] == errors@[k]@);
            }
        }
        Err(errors)
    }
}

proof fn lemma_profile_entry_models(e: Seq<(Seq<char>, Profile)>, entry: Node)
    requires
        table_unique(e),
    ensures
        profile_entry(e, entry) == profile_entry_model(table_models(e), entry),
{
    match entry {
        Node::Level(l) => match option_value(l, "inherit"@) {
            Ok(Some(name)) => {
                lemma_table_find_models(e, name);
            },
            _ => {},
        },
        _ => {},
    }
}

} // verus!
