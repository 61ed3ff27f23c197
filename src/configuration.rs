//! The project configuration: name, version, dependencies, profiles and the
//! run specification, read from the project's configuration text, and the
//! paths of the project's directories.
use vstd::prelude::*;

use crate::dependency;
use crate::dependency::answers;
use crate::dependency::entry_of;
use crate::dependency::probe_of;
use crate::dependency::Dependency;
use crate::dependency::DependencyModel;
use crate::dependency::Found;
use crate::dependency::Probe;
use crate::dependency::ProbeModel;
use crate::lsd::find;
use crate::lsd::level_is_list;
use crate::lsd::parse_text;
use crate::lsd::Entries;
use crate::lsd::Fault;
use crate::lsd::Level;
use crate::lsd::LSDParseError;
use crate::lsd::Node;
use crate::lsd::LSD;
use crate::paths::join;
use crate::paths::join_path;
use crate::paths::replace_braces;
use crate::paths::substitute;
use crate::profile;
use crate::profile::artifact_prefix_of;
use crate::profile::artifact_suffix_of;
use crate::profile::option_value;
use crate::profile::profiles_of;
use crate::profile::src_suffix;
use crate::profile::table_entries;
use crate::profile::table_get;
use crate::profile::table_find;
use crate::profile::table_models;
use crate::profile::table_new;
use crate::profile::Profile;
use crate::profile::ProfileFault;
use crate::profile::ProfileModel;
use crate::profile::ProfileTable;
use crate::profile::TargetOs;
use crate::src_stem;
use crate::text::concat;
use crate::text::owned;
use crate::text::split_whitespace;
use crate::text::words;
use crate::BuildType;

verus! {

/// The name of the configuration file in a project directory.
pub const CONFIG_FILENAME: &'static str = "build++.lsd";

//
// Run
//

/// How to run the produced binary: a command and its arguments, where `{}`
/// stands for the binary's path.
#[derive(Debug)]
pub struct Run {
    pub command: String,
    pub arguments: Vec<String>,
}

/// The mathematical form of a run specification.
pub struct RunModel {
    pub command: Seq<char>,
    pub arguments: Seq<Seq<char>>,
}

impl View for Run {
    type V = RunModel;

    open spec fn view(&self) -> RunModel {
        RunModel { command: self.command@, arguments: self.arguments@.map_values(|a: String| a@) }
    }
}

/// One piece of a run list: a value, or `{}` for an empty level.
pub open spec fn piece_of(n: Node) -> Option<Seq<char>> {
    match n {
        Node::Value(v) => Some(v),
        Node::Level(l) => if l.len() == 0 {
            Some("{}"@)
        } else {
            None
        },
    }
}

/// The pieces of a run list, in order, or `None` if one is not a piece.
pub open spec fn pieces_of(l: Entries) -> Option<Seq<Seq<char>>>
    decreases l.len(),
{
    if l.len() == 0 {
        Some(Seq::empty())
    } else {
        match (pieces_of(l.drop_last()), piece_of(l.last().1)) {
            (Some(p), Some(x)) => Some(p.push(x)),
            _ => None,
        }
    }
}

/// A command and its arguments from a sequence of words; `{}` when there are none.
pub open spec fn command_line(w: Seq<Seq<char>>) -> RunModel {
    if w.len() == 0 {
        RunModel { command: "{}"@, arguments: Seq::empty() }
    } else {
        RunModel { command: w[0], arguments: w.drop_first() }
    }
}

/// What a `run` entry reads as.
pub open spec fn run_of(n: Node) -> Result<RunModel, LoadFault> {
    match n {
        Node::Value(v) => Ok(command_line(words(v))),
        Node::Level(l) => if level_is_list(l) {
            match pieces_of(l) {
                None => Err(LoadFault::RunPieceIsNotAValue),
                Some(p) => Ok(command_line(p)),
            }
        } else {
            match find(l, "command"@) {
                None => Err(LoadFault::MissingCommandInRun),
                Some(i) => match piece_of(l[i].1) {
                    None => Err(LoadFault::RunCommandIsNotAValue),
                    Some(c) => match find(l, "arguments"@) {
                        None => Ok(RunModel { command: c, arguments: Seq::empty() }),
                        Some(j) => match l[j].1 {
                            Node::Value(v) => Ok(RunModel { command: c, arguments: words(v) }),
                            Node::Level(al) => match pieces_of(al) {
                                None => Err(LoadFault::RunPieceIsNotAValue),
                                Some(p) => Ok(RunModel { command: c, arguments: p }),
                            },
                        },
                    },
                },
            }
        },
    }
}

fn read_piece(n: &LSD) -> (r: Option<String>)
    ensures
        match piece_of(n@) {
            Some(p) => r matches Some(x) && x@ == p,
            None => r is None,
        },
{
    match n {
        LSD::Value(v) => Some(v.clone()),
        LSD::Level(l) => {
            if l.len() == 0 {
                Some(owned("{}"))
            } else {
                None
            }
        },
    }
}

fn read_pieces(l: &Level) -> (r: Option<Vec<String>>)
    ensures
        match pieces_of(l@) {
            Some(p) => r matches Some(x) && x@.map_values(|a: String| a@) == p,
            None => r is None,
        },
{
    let n = l.len();
    let mut out: Vec<String> = Vec::new();
    let mut i: usize = 0;
    while i < n
        invariant
            n == l@.len(),
            i <= n,
            pieces_of(l@.subrange(0, i as int)) == Some(out@.map_values(|a: String| a@)),
        decreases n - i,
    {
        let (_, v) = l.entry(i);
        assert(l@.subrange(0, i + 1).drop_last() =~= l@.subrange(0, i as int));
        match read_piece(v) {
            None => {
                proof {
                    lemma_pieces_prefix(l@, i as int + 1);
                }
                return None;
            },
            Some(x) => {
                let ghost before = out@.map_values(|a: String| a@);
                out.push(x);
                assert(out@.map_values(|a: String| a@) =~= before.push(x@));
            },
        }
        i = i + 1;
    }
    assert(l@.subrange(0, n as int) =~= l@);
    Some(out)
}

proof fn lemma_pieces_prefix(l: Entries, j: int)
    requires
        0 <= j <= l.len(),
        pieces_of(l.subrange(0, j)) is None,
    ensures
        pieces_of(l) is None,
    decreases l.len() - j,
{
    if j < l.len() {
        assert(l.subrange(0, j + 1).drop_last() =~= l.subrange(0, j));
        lemma_pieces_prefix(l, j + 1);
    } else {
        assert(l.subrange(0, j) =~= l);
    }
}

fn command_line_exec(w: Vec<String>) -> (r: Run)
    ensures
        r@ == command_line(w@.map_values(|a: String| a@)),
{
    let mut w = w;
    if w.len() == 0 {
        assert(w@.map_values(|a: String| a@) =~= Seq::<Seq<char>>::empty());
        return Run { command: owned("{}"), arguments: w };
    }
    let ghost all = w@;
    let c = w.remove(0);
    assert(w@.map_values(|a: String| a@) =~= all.map_values(|a: String| a@).drop_first());
    Run { command: c, arguments: w }
}

impl Run {
    /// Reads a `run` entry: a command line, a list of pieces, or a level with
    /// `command` and optional `arguments`.
    pub fn parse(lsd: &LSD) -> (r: Result<Run, LoadError>)
        ensures
            match run_of(lsd@) {
                Ok(m) => r matches Ok(x) && x@ == m,
                Err(f) => r matches Err(e) && e@ == f,
            },
    {
        match lsd {
            LSD::Value(v) => {
                let w = split_whitespace(v.as_str());
                assert(w@.map_values(|a: String| a@) =~= words(v@));
                Ok(command_line_exec(w))
            },
            LSD::Level(level) => {
                if level.is_list() {
                    match read_pieces(level) {
                        None => Err(LoadError::RunPieceIsNotAValue),
                        Some(p) => Ok(command_line_exec(p)),
                    }
                } else {
                    match level.get("command") {
                        None => Err(LoadError::MissingCommandInRun),
                        Some(cmd) => match read_piece(cmd) {
                            None => Err(LoadError::RunCommandIsNotAValue),
                            Some(c) => match level.get("arguments") {
                                None => {
                                    let a: Vec<String> = Vec::new();
                                    assert(a@.map_values(|a: String| a@) =~= Seq::<Seq<char>>::empty());
                                    Ok(Run { command: c, arguments: a })
                                },
                                Some(LSD::Value(v)) => {
                                    let w = split_whitespace(v.as_str());
                                    assert(w@.map_values(|a: String| a@) =~= words(v@));
                                    Ok(Run { command: c, arguments: w })
                                },
                                Some(LSD::Level(al)) => match read_pieces(al) {
                                    None => Err(LoadError::RunPieceIsNotAValue),
                                    Some(p) => Ok(Run { command: c, arguments: p }),
                                },
                            },
                        },
                    }
                }
            },
        }
    }
}

//
// Load errors
//

/// Why a configuration does not load.
#[derive(Debug)]
pub enum LoadError {
    /// The configuration file could not be read; holds the reader's message.
    CouldNotOpenConfiguration(String),
    CouldNotParseLSD(LSDParseError),
    MissingProjectName,
    ProjectNameIsNotAValue,
    MissingVersion,
    VersionIsNotAValue,
    DependenciesIsNotALevel,
    DependenciesErrors(Vec<dependency::ParseError>),
    ProfilesIsNotALevel,
    ProfilesErrors(Vec<profile::ParseError>),
    MissingCommandInRun,
    RunCommandIsNotAValue,
    RunPieceIsNotAValue,
}

/// The mathematical form of a load error.
pub enum LoadFault {
    CouldNotOpenConfiguration(Seq<char>),
    CouldNotParseLSD(Fault),
    MissingProjectName,
    ProjectNameIsNotAValue,
    MissingVersion,
    VersionIsNotAValue,
    DependenciesIsNotALevel,
    DependenciesErrors(Seq<dependency::ParseError>),
    ProfilesIsNotALevel,
    ProfilesErrors(Seq<ProfileFault>),
    MissingCommandInRun,
    RunCommandIsNotAValue,
    RunPieceIsNotAValue,
}

impl View for LoadError {
    type V = LoadFault;

    open spec fn view(&self) -> LoadFault {
        match self {
            LoadError::CouldNotOpenConfiguration(m) => LoadFault::CouldNotOpenConfiguration(m@),
            LoadError::CouldNotParseLSD(e) => LoadFault::CouldNotParseLSD(e@),
            LoadError::MissingProjectName => LoadFault::MissingProjectName,
            LoadError::ProjectNameIsNotAValue => LoadFault::ProjectNameIsNotAValue,
            LoadError::MissingVersion => LoadFault::MissingVersion,
            LoadError::VersionIsNotAValue => LoadFault::VersionIsNotAValue,
            LoadError::DependenciesIsNotALevel => LoadFault::DependenciesIsNotALevel,
            LoadError::DependenciesErrors(v) => LoadFault::DependenciesErrors(v@),
            LoadError::ProfilesIsNotALevel => LoadFault::ProfilesIsNotALevel,
            LoadError::ProfilesErrors(v) => LoadFault::ProfilesErrors(
                v@.map_values(|e: profile::ParseError| e@),
            ),
            LoadError::MissingCommandInRun => LoadFault::MissingCommandInRun,
            LoadError::RunCommandIsNotAValue => LoadFault::RunCommandIsNotAValue,
            LoadError::RunPieceIsNotAValue => LoadFault::RunPieceIsNotAValue,
        }
    }
}

//
// Configuration
//

/// A loaded project configuration.
#[derive(Debug)]
pub struct Configuration {
    pub config_file: String,
    pub project_dir: String,
    pub name: String,
    pub version: String,
    pub dependencies: Vec<(String, Dependency)>,
    pub profiles: ProfileTable,
    pub run: Option<Run>,
    pub os: TargetOs,
}

/// The mathematical form of a configuration.
pub struct ConfigModel {
    pub config_file: Seq<char>,
    pub project_dir: Seq<char>,
    pub name: Seq<char>,
    pub version: Seq<char>,
    pub dependencies: Seq<(Seq<char>, DependencyModel)>,
    pub profiles: Seq<(Seq<char>, ProfileModel)>,
    pub run: Option<RunModel>,
    pub os: TargetOs,
}

/// The models of a dependency list.
pub open spec fn dependency_models(d: Seq<(String, Dependency)>) -> Seq<(Seq<char>, DependencyModel)> {
    d.map_values(|x: (String, Dependency)| (x.0@, x.1@))
}

impl Configuration {
    /// The mathematical form of the configuration.
    pub open spec fn model(&self) -> ConfigModel {
        ConfigModel {
            config_file: self.config_file@,
            project_dir: self.project_dir@,
            name: self.name@,
            version: self.version@,
            dependencies: dependency_models(self.dependencies@),
            profiles: table_models(table_entries(self.profiles)),
            run: match self.run {
                Some(r) => Some(r@),
                None => None,
            },
            os: self.os,
        }
    }
}

/// The dependency entries of a parsed configuration, if it has a level of them.
pub open spec fn dependency_entries(root: Entries) -> Entries {
    match find(root, "dependency"@) {
        Some(i) => match root[i].1 {
            Node::Level(l) => l,
            Node::Value(_) => Seq::empty(),
        },
        None => Seq::empty(),
    }
}

/// The filesystem work that loading a configuration text needs: one probe
/// for each dependency entry, in order.
pub open spec fn probes_of(text: Seq<char>) -> Seq<ProbeModel> {
    match parse_text(text) {
        Ok(Node::Level(root)) => dependency_entries(root).map_values(|e: (Seq<char>, Node)| probe_of(e.1)),
        _ => Seq::empty(),
    }
}

/// What the dependency entries read as, given the outcome of each probe:
/// the dependencies in order, or every error among them.
pub open spec fn dependencies_from(
    e: Entries,
    found: Seq<Found>,
    i: int,
    deps: Seq<(Seq<char>, DependencyModel)>,
    errors: Seq<dependency::ParseError>,
) -> (Seq<(Seq<char>, DependencyModel)>, Seq<dependency::ParseError>)
    decreases e.len() - i,
{
    if i < 0 || i >= e.len() {
        (deps, errors)
    } else {
        match entry_of(e[i].1, found[i]) {
            Ok(d) => dependencies_from(e, found, i + 1, deps.push((e[i].0, d)), errors),
            Err(x) => dependencies_from(e, found, i + 1, deps, errors.push(x)),
        }
    }
}

/// What a loaded configuration holds, given the project directory, the
/// configuration text, the target and the outcome of each probe.
pub open spec fn load_model(
    project_dir: Seq<char>,
    text: Seq<char>,
    os: TargetOs,
    found: Seq<Found>,
) -> Result<ConfigModel, LoadFault> {
    match parse_text(text) {
        Err(f) => Err(LoadFault::CouldNotParseLSD(f)),
        Ok(Node::Value(_)) => Err(LoadFault::MissingProjectName),
        Ok(Node::Level(root)) => match option_value(root, "name"@) {
            Err(()) => Err(LoadFault::ProjectNameIsNotAValue),
            Ok(None) => Err(LoadFault::MissingProjectName),
            Ok(Some(name)) => match option_value(root, "version"@) {
                Err(()) => Err(LoadFault::VersionIsNotAValue),
                Ok(None) => Err(LoadFault::MissingVersion),
                Ok(Some(version)) => {
                    let dep_node = match find(root, "dependency"@) {
                        Some(i) => Some(root[i].1),
                        None => None,
                    };
                    let deps = dependencies_from(dependency_entries(root), found, 0, Seq::empty(), Seq::empty());
                    let prof_node = match find(root, "profile"@) {
                        Some(i) => Some(root[i].1),
                        None => None,
                    };
                    let run_node = match find(root, "run"@) {
                        Some(i) => Some(root[i].1),
                        None => None,
                    };
                    if dep_node matches Some(Node::Value(_)) {
                        Err(LoadFault::DependenciesIsNotALevel)
                    } else if deps.1.len() > 0 {
                        Err(LoadFault::DependenciesErrors(deps.1))
                    } else if prof_node matches Some(Node::Value(_)) {
                        Err(LoadFault::ProfilesIsNotALevel)
                    } else if prof_node matches Some(Node::Level(pl)) && profiles_of(pl) is Err {
                        Err(LoadFault::ProfilesErrors(profiles_of(prof_node->0->Level_0)->Err_0))
                    } else if run_node matches Some(rn) && run_of(rn) is Err {
                        Err(run_of(run_node->0)->Err_0)
                    } else {
                        Ok(
                            ConfigModel {
                                config_file: join(project_dir, "build++.lsd"@),
                                project_dir,
                                name,
                                version,
                                dependencies: deps.0,
                                profiles: match prof_node {
                                    Some(Node::Level(pl)) => profiles_of(pl)->Ok_0,
                                    _ => Seq::empty(),
                                },
                                run: match run_node {
                                    Some(rn) => Some(run_of(rn)->Ok_0),
                                    None => None,
                                },
                                os,
                            },
                        )
                    }
                },
            },
        },
    }
}

/// Whether no alias occurs twice among the dependencies.
pub open spec fn aliases_unique(d: Seq<(Seq<char>, DependencyModel)>) -> bool {
    forall|i: int, j: int| 0 <= i < j < d.len() ==> d[i].0 != d[j].0
}

proof fn lemma_dependencies_unique(
    e: Entries,
    found: Seq<Found>,
    i: int,
    deps: Seq<(Seq<char>, DependencyModel)>,
    errors: Seq<dependency::ParseError>,
)
    requires
        0 <= i,
        crate::lsd::keys_unique(e),
        aliases_unique(deps),
        forall|j: int| 0 <= j < deps.len() ==> exists|k: int| 0 <= k < i && k < e.len() && #[trigger] deps[j].0 == e[k].0,
    ensures
        aliases_unique(dependencies_from(e, found, i, deps, errors).0),
    decreases e.len() - i,
{
    if i < e.len() {
        match entry_of(e[i].1, found[i]) {
            Ok(d) => {
                let next = deps.push((e[i].0, d));
                assert forall|a: int, b: int| 0 <= a < b < next.len() implies next[a].0 != next[b].0 by {
                    if b == deps.len() {
                        let k = choose|k: int| 0 <= k < i && k < e.len() && #[trigger] deps[a].0 == e[k].0;
                        assert(next[a] == deps[a]);
                    } else {
                        assert(next[a] == deps[a] && next[b] == deps[b]);
                    }
                }
                assert forall|j: int| 0 <= j < next.len() implies exists|k: int|
                    0 <= k < i + 1 && k < e.len() && #[trigger] next[j].0 == e[k].0 by {
                    if j < deps.len() {
                        assert(next[j] == deps[j]);
                        let k = choose|k: int| 0 <= k < i && k < e.len() && #[trigger] deps[j].0 == e[k].0;
                        assert(next[j].0 == e[k].0);
                    } else {
                        assert(next[j].0 == e[i].0);
                    }
                }
                lemma_dependencies_unique(e, found, i + 1, next, errors);
            },
            Err(x) => {
                lemma_dependencies_unique(e, found, i + 1, deps, errors.push(x));
            },
        }
    }
}

impl Configuration {
    /// Whether no dependency alias and no profile name occurs twice.
    pub open spec fn wf(&self) -> bool {
        &&& aliases_unique(self.model().dependencies)
        &&& crate::profile::table_unique(table_entries(self.profiles))
    }
}

fn root_option(root: &Level, key: &str) -> (r: Result<Option<String>, ()>)
    ensures
        match option_value(root@, key@) {
            Err(()) => r is Err,
            Ok(None) => r matches Ok(None),
            Ok(Some(v)) => r matches Ok(Some(x)) && x@ == v,
        },
{
    match root.get(key) {
        None => Ok(None),
        Some(LSD::Value(v)) => Ok(Some(v.clone())),
        Some(LSD::Level(_)) => Err(()),
    }
}

impl Configuration {
    /// The filesystem work that loading a configuration text needs.
    pub fn probes(text: &str) -> (r: Vec<Probe>)
        ensures
            r@.map_values(|p: Probe| p@) == probes_of(text@),
    {
        let mut out: Vec<Probe> = Vec::new();
        match LSD::parse(text) {
            Ok(LSD::Level(root)) => {
                match root.get("dependency") {
                    Some(LSD::Level(deps)) => {
                        let n = deps.len();
                        let mut i: usize = 0;
                        while i < n
                            invariant
                                n == deps@.len(),
                                i <= n,
                                out@.map_values(|p: Probe| p@) == deps@.subrange(0, i as int).map_values(
                                    |e: (Seq<char>, Node)| probe_of(e.1),
                                ),
                            decreases n - i,
                        {
                            let (_, entry) = deps.entry(i);
                            let ghost before = out@.map_values(|p: Probe| p@);
                            out.push(dependency::probe(entry));
                            assert(deps@.subrange(0, i + 1).map_values(|e: (Seq<char>, Node)| probe_of(e.1))
                                =~= before.push(probe_of(deps@[i as int].1)));
                            assert(out@.map_values(|p: Probe| p@) =~= before.push(probe_of(deps@[i as int].1)));
                            i = i + 1;
                        }
                        assert(deps@.subrange(0, n as int) =~= deps@);
                    },
                    _ => {
                        assert(out@.map_values(|p: Probe| p@) =~= Seq::<ProbeModel>::empty());
                    },
                }
            },
            _ => {
                assert(out@.map_values(|p: Probe| p@) =~= Seq::<ProbeModel>::empty());
            },
        }
        out
    }

    /// Loads a configuration from its text, given the outcome of each probe
    /// that `probes` asked for, in order.
    pub fn load(project_dir: &str, text: &str, os: TargetOs, found: Vec<Found>) -> (r: Result<
        Configuration,
        LoadError,
    >)
        requires
            found@.len() == probes_of(text@).len(),
            forall|i: int| 0 <= i < found@.len() ==> answers(probes_of(text@)[i], #[trigger] found@[i]),
        ensures
            match load_model(project_dir@, text@, os, found@) {
                Ok(m) => r matches Ok(c) && c.model() == m && c.wf(),
                Err(f) => r matches Err(e) && e@ == f,
            },
    {
        let ghost fs = found@;
        let root = match LSD::parse(text) {
            Err(f) => return Err(LoadError::CouldNotParseLSD(f)),
            Ok(LSD::Value(_)) => return Err(LoadError::MissingProjectName),
            Ok(LSD::Level(root)) => root,
        };
        proof {
            let e = dependency_entries(root@);
            crate::lsd::lemma_children_unique(root@);
            if let Some(i) = find(root@, "dependency"@) {
                crate::lsd::lemma_find_from(root@, "dependency"@, 0);
                assert(crate::lsd::tree_unique(root@[i].1));
                if let Node::Level(l) = root@[i].1 {
                    assert(crate::lsd::keys_unique(l));
                }
            }
            assert(crate::lsd::keys_unique(e));
            lemma_dependencies_unique(e, fs, 0, Seq::empty(), Seq::empty());
        }
        let name = match root_option(&root, "name") {
            Err(()) => return Err(LoadError::ProjectNameIsNotAValue),
            Ok(None) => return Err(LoadError::MissingProjectName),
            Ok(Some(n)) => n,
        };
        let version = match root_option(&root, "version") {
            Err(()) => return Err(LoadError::VersionIsNotAValue),
            Ok(None) => return Err(LoadError::MissingVersion),
            Ok(Some(v)) => v,
        };
        let dependencies = match root.get("dependency") {
            None => {
                let d: Vec<(String, Dependency)> = Vec::new();
                assert(dependency_models(d@) =~= Seq::<(Seq<char>, DependencyModel)>::empty());
                d
            },
            Some(LSD::Value(_)) => return Err(LoadError::DependenciesIsNotALevel),
            Some(LSD::Level(deps)) => match dependency::parse_all(deps, found) {
                Ok(d) => d,
                Err(errors) => return Err(LoadError::DependenciesErrors(errors)),
            },
        };
        let profiles = match root.get("profile") {
            None => {
                let t = table_new();
                assert(table_models(table_entries(t)) =~= Seq::<(Seq<char>, ProfileModel)>::empty());
                assert(crate::profile::table_unique(table_entries(t)));
                t
            },
            Some(LSD::Value(_)) => return Err(LoadError::ProfilesIsNotALevel),
            Some(LSD::Level(pl)) => match profile::parse_all(pl) {
                Ok(t) => t,
                Err(errors) => {
                    assert(errors@.map_values(|e: profile::ParseError| e@) =~= profiles_of(pl@)->Err_0);
                    return Err(LoadError::ProfilesErrors(errors));
                },
            },
        };
        let run = match root.get("run") {
            None => None,
            Some(rn) => match Run::parse(rn) {
                Ok(r) => Some(r),
                Err(e) => return Err(e),
            },
        };
        Ok(
            Configuration {
                config_file: join_path(project_dir, CONFIG_FILENAME),
                project_dir: owned(project_dir),
                name,
                version,
                dependencies,
                profiles,
                run,
                os,
            },
        )
    }
}

//
// Paths
//

/// The project's source directory.
pub open spec fn src_dir_of(c: ConfigModel) -> Seq<char> {
    join(c.project_dir, "src"@)
}

/// The source file that a build type compiles with a profile.
pub open spec fn src_file_of(c: ConfigModel, b: BuildType, p: ProfileModel) -> Seq<char> {
    join(src_dir_of(c), src_stem(b) + src_suffix(p))
}

/// The staging directory of a profile.
pub open spec fn target_dir_of(c: ConfigModel, profile: Seq<char>) -> Seq<char> {
    join(join(join(c.project_dir, "target"@), c.version), profile)
}

/// The staged public headers of a profile.
pub open spec fn target_include_dir_of(c: ConfigModel, profile: Seq<char>) -> Seq<char> {
    join(target_dir_of(c, profile), "include"@)
}

/// The directory that the compiler writes into.
pub open spec fn target_artifact_dir_of(c: ConfigModel, profile: Seq<char>) -> Seq<char> {
    join(target_dir_of(c, profile), "artifact"@)
}

/// The artifact that a build produces.
pub open spec fn target_artifact_file_of(
    c: ConfigModel,
    b: BuildType,
    profile_name: Seq<char>,
    p: ProfileModel,
) -> Seq<char> {
    join(
        target_artifact_dir_of(c, profile_name),
        artifact_prefix_of(p, b, c.os) + c.name + artifact_suffix_of(p, b, c.os),
    )
}

/// The cache root of the project.
pub open spec fn cache_dir_of(c: ConfigModel) -> Seq<char> {
    join(c.project_dir, "cache"@)
}

/// The cache directory of a dependency: `<alias>[/<version>][/<profile>]`
/// under the cache root, empty components left out.
pub open spec fn cache_dep_dir_of(c: ConfigModel, alias: Seq<char>, version: Seq<char>, profile: Seq<char>) -> Seq<char> {
    let a = join(cache_dir_of(c), alias);
    let b = if version.len() > 0 {
        join(a, version)
    } else {
        a
    };
    if profile.len() > 0 {
        join(b, profile)
    } else {
        b
    }
}

impl Configuration {
    pub fn project_name(&self) -> (r: String)
        ensures
            r@ == self.name@,
    {
        self.name.clone()
    }

    pub fn version(&self) -> (r: String)
        ensures
            r@ == self.version@,
    {
        self.version.clone()
    }

    pub fn config_file(&self) -> (r: String)
        ensures
            r@ == self.config_file@,
    {
        self.config_file.clone()
    }

    pub fn project_dir(&self) -> (r: String)
        ensures
            r@ == self.project_dir@,
    {
        self.project_dir.clone()
    }

    /// The dependencies, in declaration order.
    pub fn dependencies(&self) -> (r: &Vec<(String, Dependency)>)
        ensures
            r == &self.dependencies,
    {
        &self.dependencies
    }

    /// The profiles, in declaration order.
    pub fn profiles(&self) -> (r: &ProfileTable)
        ensures
            r == &self.profiles,
    {
        &self.profiles
    }

    /// The profile named `value`.
    pub fn profile(&self, value: &str) -> (r: Option<&Profile>)
        ensures
            match table_find(table_entries(self.profiles), value@) {
                None => r is None,
                Some(i) => r matches Some(p) && *p == table_entries(self.profiles)[i].1,
            },
    {
        table_get(&self.profiles, value)
    }

    pub fn src_dir(&self) -> (r: String)
        ensures
            r@ == src_dir_of(self.model()),
    {
        join_path(self.project_dir.as_str(), "src")
    }

    pub fn src_file(&self, build_type: BuildType, profile: &Profile) -> (r: String)
        ensures
            r@ == src_file_of(self.model(), build_type, profile@),
    {
        let file = concat(build_type.src_filename(), profile.src_file_suffix());
        join_path(self.src_dir().as_str(), file.as_str())
    }

    pub fn target_dir(&self, profile: &str) -> (r: String)
        ensures
            r@ == target_dir_of(self.model(), profile@),
    {
        let t = join_path(self.project_dir.as_str(), "target");
        let v = join_path(t.as_str(), self.version.as_str());
        join_path(v.as_str(), profile)
    }

    pub fn target_include_dir(&self, profile: &str) -> (r: String)
        ensures
            r@ == target_include_dir_of(self.model(), profile@),
    {
        join_path(self.target_dir(profile).as_str(), "include")
    }

    pub fn target_artifact_dir(&self, profile: &str) -> (r: String)
        ensures
            r@ == target_artifact_dir_of(self.model(), profile@),
    {
        join_path(self.target_dir(profile).as_str(), "artifact")
    }

    pub fn target_artifact_file(&self, build_type: BuildType, profile_name: &str, profile: &Profile) -> (r: String)
        ensures
            r@ == target_artifact_file_of(self.model(), build_type, profile_name@, profile@),
    {
        let a = concat(profile.artifact_prefix(build_type, self.os), self.name.as_str());
        let file = concat(a.as_str(), profile.artifact_suffix(build_type, self.os));
        join_path(self.target_artifact_dir(profile_name).as_str(), file.as_str())
    }

    pub fn cache_dir(&self) -> (r: String)
        ensures
            r@ == cache_dir_of(self.model()),
    {
        join_path(self.project_dir.as_str(), "cache")
    }

    pub fn cache_dep_dir(&self, dependency: &str, version: &str, profile: &str) -> (r: String)
        ensures
            r@ == cache_dep_dir_of(self.model(), dependency@, version@, profile@),
    {
        let mut res = join_path(self.cache_dir().as_str(), dependency);
        if crate::text::chars_of(version).len() > 0 {
            res = join_path(res.as_str(), version);
        }
        if crate::text::chars_of(profile).len() > 0 {
            res = join_path(res.as_str(), profile);
        }
        res
    }

    pub fn cache_dep_include_dir(&self, dependency: &str, version: &str, profile: &str) -> (r: String)
        ensures
            r@ == join(cache_dep_dir_of(self.model(), dependency@, version@, profile@), "include"@),
    {
        join_path(self.cache_dep_dir(dependency, version, profile).as_str(), "include")
    }

    pub fn cache_dep_lib_dir(&self, dependency: &str, version: &str, profile: &str) -> (r: String)
        ensures
            r@ == join(cache_dep_dir_of(self.model(), dependency@, version@, profile@), "lib"@),
    {
        join_path(self.cache_dep_dir(dependency, version, profile).as_str(), "lib")
    }

    /// The command that runs the binary built with a profile, `{}` replaced by
    /// the binary's path.
    pub fn run_command(&self, profile_name: &str, profile: &Profile) -> (r: String)
        ensures
            r@ == replace_braces(
                match self.run {
                    Some(run) => run.command@,
                    None => "{}"@,
                },
                target_artifact_file_of(self.model(), BuildType::Binary, profile_name@, profile@),
            ),
    {
        let file = self.target_artifact_file(BuildType::Binary, profile_name, profile);
        match &self.run {
            Some(run) => substitute(run.command.as_str(), file.as_str()),
            None => substitute("{}", file.as_str()),
        }
    }

    /// The arguments of the run command, `{}` replaced by the binary's path.
    pub fn run_arguments(&self, profile_name: &str, profile: &Profile) -> (r: Vec<String>)
        ensures
            match self.run {
                Some(run) => r@.len() == run.arguments@.len() && forall|i: int|
                    0 <= i < r@.len() ==> (#[trigger] r@[i])@ == replace_braces(
                        run.arguments@[i]@,
                        target_artifact_file_of(self.model(), BuildType::Binary, profile_name@, profile@),
                    ),
                None => r@.len() == 0,
            },
    {
        let file = self.target_artifact_file(BuildType::Binary, profile_name, profile);
        let mut out: Vec<String> = Vec::new();
        match &self.run {
            None => {},
            Some(run) => {
                let mut i: usize = 0;
                while i < run.arguments.len()
                    invariant
                        i <= run.arguments@.len(),
                        out@.len() == i,
                        forall|k: int| 0 <= k < i ==> (#[trigger] out@[k])@ == replace_braces(run.arguments@[k]@, file@),
                    decreases run.arguments@.len() - i,
                {
                    out.push(substitute(run.arguments[i].as_str(), file.as_str()));
                    i = i + 1;
                }
            },
        }
        out
    }
}

} // verus!
