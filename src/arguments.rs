//! The compiler's argument vector for each backend.
use vstd::prelude::*;

use crate::configuration::cache_dep_dir_of;
use crate::configuration::src_file_of;
use crate::configuration::target_artifact_file_of;
use crate::configuration::ConfigModel;
use crate::configuration::Configuration;
use crate::dependency::profile_for;
use crate::dependency::version_of;
use crate::text::views;
use crate::paths::join;
use crate::profile::msvc_optimize_text;
use crate::profile::msvc_standard_text;
use crate::profile::nvcc_optimize_text;
use crate::profile::nvcc_standard_text;
use crate::profile::LibraryType;
use crate::profile::MsvcModel;
use crate::profile::NvccModel;
use crate::profile::Profile;
use crate::profile::ProfileModel;
use crate::text::concat;
use crate::text::file_name_parts;
use crate::text::owned;
use crate::text::split_file_name;
use crate::text::str_eq;
use crate::BuildError;
use crate::BuildType;

verus! {

/// Whether a file in a dependency's library directory is linked: its
/// extension is `lib`, `a` or `exp`.
pub open spec fn linkable(f: Seq<char>) -> bool {
    let e = file_name_parts(f).1;
    e == "lib"@ || e == "a"@ || e == "exp"@
}

/// The linked files among `fs`, in order.
pub open spec fn linkables(fs: Seq<Seq<char>>) -> Seq<Seq<char>>
    decreases fs.len(),
{
    if fs.len() == 0 {
        Seq::empty()
    } else {
        linkables(fs.drop_last()) + if linkable(fs.last()) {
            seq![fs.last()]
        } else {
            Seq::empty()
        }
    }
}

/// The cache include and library directories of the `i`-th dependency.
pub open spec fn dep_dirs(c: ConfigModel, i: int, sel: Seq<char>) -> (Seq<char>, Seq<char>) {
    let (alias, d) = c.dependencies[i];
    let base = cache_dep_dir_of(c, alias, version_of(d), profile_for(d, sel));
    (join(base, "include"@), join(base, "lib"@))
}

/// `/I <include>` for each of the first `n` dependencies.
pub open spec fn msvc_includes(c: ConfigModel, sel: Seq<char>, n: int) -> Seq<Seq<char>>
    decreases n,
{
    if n <= 0 {
        Seq::empty()
    } else {
        msvc_includes(c, sel, n - 1) + seq!["/I"@, dep_dirs(c, n - 1, sel).0]
    }
}

/// The linked files of the first `n` dependencies.
pub open spec fn msvc_libs(files: Seq<Seq<Seq<char>>>, n: int) -> Seq<Seq<char>>
    decreases n,
{
    if n <= 0 {
        Seq::empty()
    } else {
        msvc_libs(files, n - 1) + linkables(files[n - 1])
    }
}

/// `/LIBPATH:<lib>` for each of the first `n` dependencies.
pub open spec fn msvc_libpaths(c: ConfigModel, sel: Seq<char>, n: int) -> Seq<Seq<char>>
    decreases n,
{
    if n <= 0 {
        Seq::empty()
    } else {
        msvc_libpaths(c, sel, n - 1).push("/LIBPATH:"@ + dep_dirs(c, n - 1, sel).1)
    }
}

/// The compiler flags of an MSVC profile: OpenMP, optimisation, standard.
pub open spec fn msvc_flags(p: MsvcModel) -> Seq<Seq<char>> {
    (if p.openmp {
        seq!["/openmp"@]
    } else {
        Seq::empty()
    }) + (match p.optimize {
        Some(o) => seq!["/O"@ + msvc_optimize_text(o)],
        None => Seq::empty(),
    }) + (match p.standard {
        Some(s) => seq!["/std:"@ + msvc_standard_text(s)],
        None => Seq::empty(),
    })
}

/// The MSVC argument vector.
pub open spec fn msvc_arguments(
    p: MsvcModel,
    c: ConfigModel,
    b: BuildType,
    sel: Seq<char>,
    files: Seq<Seq<Seq<char>>>,
) -> Seq<Seq<char>> {
    let n = c.dependencies.len() as int;
    let pm = ProfileModel::Msvc(p);
    msvc_flags(p) + msvc_includes(c, sel, n) + seq![src_file_of(c, b, pm)] + msvc_libs(files, n)
        + seq!["/link"@, "/OUT:"@ + target_artifact_file_of(c, b, sel, pm)] + (if b == BuildType::Library {
        seq!["/DLL"@]
    } else {
        Seq::empty()
    }) + msvc_libpaths(c, sel, n)
}

/// `v` after `flag_and_quote`, closed by a double quote.
pub open spec fn quoted(flag_and_quote: Seq<char>, v: Seq<char>) -> Seq<char> {
    flag_and_quote + v + "\""@
}

/// `--library="<stem>"` for each linked file.
pub open spec fn nvcc_libraries(fs: Seq<Seq<char>>) -> Seq<Seq<char>>
    decreases fs.len(),
{
    if fs.len() == 0 {
        Seq::empty()
    } else {
        nvcc_libraries(fs.drop_last()) + if linkable(fs.last()) {
            seq![quoted("--library=\""@, file_name_parts(fs.last()).0)]
        } else {
            Seq::empty()
        }
    }
}

/// The include path, library path and libraries of the first `n` dependencies.
pub open spec fn nvcc_deps(c: ConfigModel, sel: Seq<char>, files: Seq<Seq<Seq<char>>>, n: int) -> Seq<Seq<char>>
    decreases n,
{
    if n <= 0 {
        Seq::empty()
    } else {
        nvcc_deps(c, sel, files, n - 1) + seq![
            quoted("--include-path=\""@, dep_dirs(c, n - 1, sel).0),
            quoted("--library-path=\""@, dep_dirs(c, n - 1, sel).1),
        ] + nvcc_libraries(files[n - 1])
    }
}

/// The compiler flags of an NVCC profile for a build type.
pub open spec fn nvcc_flags(p: NvccModel, b: BuildType) -> Seq<Seq<char>> {
    (match p.optimize {
        Some(o) => seq!["--optimize"@, nvcc_optimize_text(o)],
        None => Seq::empty(),
    }) + (if p.optimize_device {
        seq!["--dopt"@]
    } else {
        Seq::empty()
    }) + (match p.standard {
        Some(s) => seq!["--std"@, nvcc_standard_text(s)],
        None => Seq::empty(),
    }) + (if b == BuildType::Library {
        seq!["--shared"@]
    } else {
        Seq::empty()
    })
}

/// The NVCC argument vector.
pub open spec fn nvcc_arguments(
    p: NvccModel,
    c: ConfigModel,
    b: BuildType,
    sel: Seq<char>,
    files: Seq<Seq<Seq<char>>>,
) -> Seq<Seq<char>> {
    let n = c.dependencies.len() as int;
    let pm = ProfileModel::Nvcc(p);
    nvcc_flags(p, b) + nvcc_deps(c, sel, files, n) + seq![
        "--output-file"@,
        target_artifact_file_of(c, b, sel, pm),
        src_file_of(c, b, pm),
    ]
}

/// The argument vector of a profile; `None` for a static library, which no
/// backend builds yet.
pub open spec fn arguments_of(
    p: ProfileModel,
    c: ConfigModel,
    b: BuildType,
    sel: Seq<char>,
    files: Seq<Seq<Seq<char>>>,
) -> Option<Seq<Seq<char>>> {
    match p {
        ProfileModel::Msvc(m) => if b == BuildType::Library && m.library_type == LibraryType::Static {
            None
        } else {
            Some(msvc_arguments(m, c, b, sel, files))
        },
        ProfileModel::Nvcc(m) => if b == BuildType::Library && m.library_type == LibraryType::Static {
            None
        } else {
            Some(nvcc_arguments(m, c, b, sel, files))
        },
    }
}

/// The views of the file lists of each dependency.
pub open spec fn file_lists(files: Seq<Vec<String>>) -> Seq<Seq<Seq<char>>> {
    files.map_values(|v: Vec<String>| views(v@))
}

fn dep_dirs_exec(config: &Configuration, i: usize, sel: &str) -> (r: (String, String))
    requires
        i < config.dependencies@.len(),
    ensures
        (r.0@, r.1@) == dep_dirs(config.model(), i as int, sel@),
{
    let (alias, dep) = &config.dependencies[i];
    let version = dep.current_version();
    let profile = dep.current_profile(sel);
    let inc = config.cache_dep_include_dir(alias.as_str(), version.as_str(), profile.as_str());
    let lib = config.cache_dep_lib_dir(alias.as_str(), version.as_str(), profile.as_str());
    (inc, lib)
}

fn is_linkable(f: &str) -> (r: bool)
    ensures
        r == linkable(f@),
{
    let (_, ext) = split_file_name(f);
    str_eq(ext.as_str(), "lib") || str_eq(ext.as_str(), "a") || str_eq(ext.as_str(), "exp")
}

fn push_linked(out: &mut Vec<String>, fs: &Vec<String>, stems: bool)
    ensures
        views(final(out)@) == views(old(out)@) + if stems {
            nvcc_libraries(views(fs@))
        } else {
            linkables(views(fs@))
        },
{
    let ghost start = views(out@);
    let mut j: usize = 0;
    assert(views(fs@).subrange(0, 0) =~= Seq::<Seq<char>>::empty());
    assert(views(out@) =~= start + Seq::<Seq<char>>::empty());
    while j < fs.len()
        invariant
            j <= fs@.len(),
            views(out@) == start + if stems {
                nvcc_libraries(views(fs@).subrange(0, j as int))
            } else {
                linkables(views(fs@).subrange(0, j as int))
            },
        decreases fs@.len() - j,
    {
        let ghost pre = views(fs@).subrange(0, j as int);
        let ghost before = views(out@);
        assert(views(fs@).subrange(0, j + 1).drop_last() =~= pre);
        assert(views(fs@).subrange(0, j + 1).last() == fs@[j as int]@);
        let f = fs[j].as_str();
        if is_linkable(f) {
            if stems {
                let (stem, _) = split_file_name(f);
                let a = concat("--library=\"", stem.as_str());
                let q = concat(a.as_str(), "\"");
                out.push(q);
            } else {
                out.push(owned(f));
            }
            assert(views(out@) =~= before.push(views(out@).last()));
        } else {
            assert(views(out@) =~= before + Seq::<Seq<char>>::empty());
        }
        proof {
            if stems {
                assert(views(out@) =~= start + nvcc_libraries(views(fs@).subrange(0, j + 1)));
            } else {
                assert(views(out@) =~= start + linkables(views(fs@).subrange(0, j + 1)));
            }
        }
        j = j + 1;
    }
    assert(views(fs@).subrange(0, fs@.len() as int) =~= views(fs@));
}

fn push_text(out: &mut Vec<String>, s: String)
    ensures
        views(final(out)@) == views(old(out)@).push(s@),
{
    out.push(s);
    assert(views(out@) =~= views(old(out)@).push(s@));
}

fn msvc_flag_args(p: &crate::profile::MsvcProfile) -> (r: Vec<String>)
    ensures
        views(r@) == msvc_flags(p@),
{
    let mut args: Vec<String> = Vec::new();
    assert(views(args@) =~= Seq::<Seq<char>>::empty());
    if p.openmp {
        push_text(&mut args, owned("/openmp"));
    }
    if let Some(o) = p.optimize {
        push_text(&mut args, concat("/O", o.text()));
    }
    if let Some(s) = p.standard {
        push_text(&mut args, concat("/std:", s.text()));
    }
    assert(views(args@) =~= msvc_flags(p@));
    args
}

/// Adds `/I <include>` for each dependency to `args`, and returns the
/// `/LIBPATH:` flags and the linked files.
fn msvc_dep_args(args: &mut Vec<String>, config: &Configuration, sel: &str, lib_files: &Vec<Vec<String>>) -> (r: (
    Vec<String>,
    Vec<String>,
))
    requires
        lib_files@.len() == config.dependencies@.len(),
    ensures
        views(final(args)@) == views(old(args)@) + msvc_includes(config.model(), sel@, config.dependencies@.len() as int),
        views(r.0@) == msvc_libpaths(config.model(), sel@, config.dependencies@.len() as int),
        views(r.1@) == msvc_libs(file_lists(lib_files@), config.dependencies@.len() as int),
{
    let ghost c = config.model();
    let ghost files = file_lists(lib_files@);
    let ghost start = views(args@);
    let n = config.dependencies.len();
    let mut lib_dirs: Vec<String> = Vec::new();
    let mut libs: Vec<String> = Vec::new();
    let mut i: usize = 0;
    assert(views(lib_dirs@) =~= msvc_libpaths(c, sel@, 0));
    assert(views(libs@) =~= msvc_libs(files, 0));
    assert(views(args@) =~= start + msvc_includes(c, sel@, 0));
    while i < n
        invariant
            n == c.dependencies.len(),
            c == config.model(),
            files == file_lists(lib_files@),
            lib_files@.len() == n,
            i <= n,
            views(args@) == start + msvc_includes(c, sel@, i as int),
            views(lib_dirs@) == msvc_libpaths(c, sel@, i as int),
            views(libs@) == msvc_libs(files, i as int),
        decreases n - i,
    {
        let (inc, lib) = dep_dirs_exec(config, i, sel);
        push_text(args, owned("/I"));
        push_text(args, inc);
        assert(views(args@) =~= start + msvc_includes(c, sel@, i + 1));
        push_text(&mut lib_dirs, concat("/LIBPATH:", lib.as_str()));
        assert(files[i as int] == views(lib_files@[i as int]@));
        push_linked(&mut libs, &lib_files[i], false);
        i = i + 1;
    }
    (lib_dirs, libs)
}

fn push_all(args: &mut Vec<String>, more: &Vec<String>)
    ensures
        views(final(args)@) == views(old(args)@) + views(more@),
{
    let ghost start = views(args@);
    let mut k: usize = 0;
    assert(views(more@).subrange(0, 0) =~= Seq::<Seq<char>>::empty());
    assert(views(args@) =~= start + views(more@).subrange(0, 0));
    while k < more.len()
        invariant
            k <= more@.len(),
            views(args@) == start + views(more@).subrange(0, k as int),
        decreases more@.len() - k,
    {
        push_text(args, more[k].clone());
        assert(views(more@).subrange(0, k + 1) =~= views(more@).subrange(0, k as int).push(more@[k as int]@));
        assert(views(args@) =~= start + views(more@).subrange(0, k + 1));
        k = k + 1;
    }
    assert(views(more@).subrange(0, more@.len() as int) =~= views(more@));
}

fn msvc_args(
    p: &crate::profile::MsvcProfile,
    whole: &Profile,
    config: &Configuration,
    build_type: BuildType,
    sel: &str,
    lib_files: &Vec<Vec<String>>,
) -> (r: Vec<String>)
    requires
        *whole == Profile::Msvc(*p),
        lib_files@.len() == config.dependencies@.len(),
    ensures
        views(r@) == msvc_arguments(p@, config.model(), build_type, sel@, file_lists(lib_files@)),
{
    let mut args = msvc_flag_args(p);
    let (lib_dirs, libs) = msvc_dep_args(&mut args, config, sel, lib_files);
    push_text(&mut args, config.src_file(build_type, whole));
    push_all(&mut args, &libs);
    push_text(&mut args, owned("/link"));
    let artifact = config.target_artifact_file(build_type, sel, whole);
    push_text(&mut args, concat("/OUT:", artifact.as_str()));
    let ghost before_dll = views(args@);
    if build_type == BuildType::Library {
        push_text(&mut args, owned("/DLL"));
    }
    push_all(&mut args, &lib_dirs);
    assert(views(args@) =~= msvc_arguments(p@, config.model(), build_type, sel@, file_lists(lib_files@)));
    args
}

fn nvcc_flag_args(p: &crate::profile::NvccProfile, build_type: BuildType) -> (r: Vec<String>)
    ensures
        views(r@) == nvcc_flags(p@, build_type),
{
    let mut args: Vec<String> = Vec::new();
    assert(views(args@) =~= Seq::<Seq<char>>::empty());
    if let Some(o) = p.optimize {
        push_text(&mut args, owned("--optimize"));
        push_text(&mut args, owned(o.text()));
    }
    if p.optimize_device {
        push_text(&mut args, owned("--dopt"));
    }
    if let Some(s) = p.standard {
        push_text(&mut args, owned("--std"));
        push_text(&mut args, owned(s.text()));
    }
    if build_type == BuildType::Library {
        push_text(&mut args, owned("--shared"));
    }
    assert(views(args@) =~= nvcc_flags(p@, build_type));
    args
}

fn push_nvcc_deps(args: &mut Vec<String>, config: &Configuration, sel: &str, lib_files: &Vec<Vec<String>>)
    requires
        lib_files@.len() == config.dependencies@.len(),
    ensures
        views(final(args)@) == views(old(args)@) + nvcc_deps(
            config.model(),
            sel@,
            file_lists(lib_files@),
            config.dependencies@.len() as int,
        ),
{
    let ghost c = config.model();
    let ghost files = file_lists(lib_files@);
    let ghost start = views(args@);
    let n = config.dependencies.len();
    let mut i: usize = 0;
    assert(views(args@) =~= start + nvcc_deps(c, sel@, files, 0));
    while i < n
        invariant
            n == c.dependencies.len(),
            c == config.model(),
            files == file_lists(lib_files@),
            lib_files@.len() == n,
            i <= n,
            views(args@) == start + nvcc_deps(c, sel@, files, i as int),
        decreases n - i,
    {
        let (inc, lib) = dep_dirs_exec(config, i, sel);
        let a = concat("--include-path=\"", inc.as_str());
        push_text(args, concat(a.as_str(), "\""));
        let b = concat("--library-path=\"", lib.as_str());
        push_text(args, concat(b.as_str(), "\""));
        let ghost mid = views(args@);
        assert(files[i as int] == views(lib_files@[i as int]@));
        push_linked(args, &lib_files[i], true);
        assert(mid =~= start + nvcc_deps(c, sel@, files, i as int) + seq![
            quoted("--include-path=\""@, dep_dirs(c, i as int, sel@).0),
            quoted("--library-path=\""@, dep_dirs(c, i as int, sel@).1),
        ]);
        assert(views(args@) =~= start + nvcc_deps(c, sel@, files, i + 1));
        i = i + 1;
    }
}

fn nvcc_args(
    p: &crate::profile::NvccProfile,
    whole: &Profile,
    config: &Configuration,
    build_type: BuildType,
    sel: &str,
    lib_files: &Vec<Vec<String>>,
) -> (r: Vec<String>)
    requires
        *whole == Profile::Nvcc(*p),
        lib_files@.len() == config.dependencies@.len(),
    ensures
        views(r@) == nvcc_arguments(p@, config.model(), build_type, sel@, file_lists(lib_files@)),
{
    let mut args = nvcc_flag_args(p, build_type);
    push_nvcc_deps(&mut args, config, sel, lib_files);
    push_text(&mut args, owned("--output-file"));
    push_text(&mut args, config.target_artifact_file(build_type, sel, whole));
    push_text(&mut args, config.src_file(build_type, whole));
    assert(views(args@) =~= nvcc_arguments(p@, config.model(), build_type, sel@, file_lists(lib_files@)));
    args
}

impl Profile {
    /// The compiler's arguments for a build of `config` with this profile
    /// (selected as `selected_profile`); `lib_files` lists, for each
    /// dependency in order, the file names in its cached library directory.
    pub fn compiler_arguments(
        &self,
        config: &Configuration,
        build_type: BuildType,
        selected_profile: &str,
        lib_files: &Vec<Vec<String>>,
    ) -> (r: Result<Vec<String>, BuildError>)
        requires
            lib_files@.len() == config.dependencies@.len(),
        ensures
            match arguments_of(self@, config.model(), build_type, selected_profile@, file_lists(lib_files@)) {
                Some(a) => r matches Ok(v) && views(v@) == a,
                None => r matches Err(BuildError::StaticLibraryNotImplemented),
            },
    {
        match self {
            Profile::Msvc(p) => {
                if build_type == BuildType::Library && p.library_type == LibraryType::Static {
                    return Err(BuildError::StaticLibraryNotImplemented);
                }
                Ok(msvc_args(p, self, config, build_type, selected_profile, lib_files))
            },
            Profile::Nvcc(p) => {
                if build_type == BuildType::Library && p.library_type == LibraryType::Static {
                    return Err(BuildError::StaticLibraryNotImplemented);
                }
                Ok(nvcc_args(p, self, config, build_type, selected_profile, lib_files))
            },
        }
    }
}

} // verus!
