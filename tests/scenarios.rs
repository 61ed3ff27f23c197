use buildpp::configuration::Configuration;
use buildpp::configuration::LoadError;
use buildpp::engine::detect_build_type;
use buildpp::lsd::LSDParseError;
use buildpp::lsd::LSD;
use buildpp::profile::Profile;
use buildpp::profile::TargetOs;
use buildpp::BuildError;
use buildpp::BuildType;
use buildpp::BuildType::Binary;
use buildpp::BuildType::Library;
use buildpp::profile::LibraryType;
use buildpp::profile::MsvcOptimize;
use buildpp::profile::MsvcStandard;
use buildpp::profile::NvccOptimize;
use buildpp::profile::NvccStandard;

fn value_of(l: &LSD, path: &[&str]) -> Option<String> {
    let parts: Vec<String> = path.iter().map(|p| p.to_string()).collect();
    l.get_inner(&parts).and_then(|n| n.to_value())
}

fn keys_of(l: &LSD) -> Vec<String> {
    match l {
        LSD::Level(level) => level.entries.iter().map(|(k, _)| k.clone()).collect(),
        LSD::Value(_) => Vec::new(),
    }
}

fn load(text: &str) -> Result<Configuration, LoadError> {
    Configuration::load("", text, TargetOs::Linux, Vec::new())
}

#[test]
fn parse_minimal_config() {
    let c = load("name hello\nversion 0.1.0\n").unwrap();
    assert_eq!(c.project_name(), "hello");
    assert_eq!(c.version(), "0.1.0");
    assert!(c.dependencies().is_empty());
    assert_eq!(c.profiles().len(), 0);
    assert!(c.run.is_none());
}

#[test]
fn dotted_key_merge() {
    let l = LSD::parse("a.b 1\na.c 2\n").unwrap();
    assert_eq!(keys_of(&l), vec!["a"]);
    let a = l.get_inner(&vec!["a".to_string()]).unwrap();
    assert_eq!(keys_of(&a), vec!["b", "c"]);
    assert_eq!(value_of(&l, &["a", "b"]).as_deref(), Some("1"));
    assert_eq!(value_of(&l, &["a", "c"]).as_deref(), Some("2"));
}

#[test]
fn list_keys() {
    let l = LSD::parse("xs [ one two three ]\n").unwrap();
    let xs = l.get_inner(&vec!["xs".to_string()]).unwrap();
    assert_eq!(keys_of(&xs), vec!["0", "1", "2"]);
    assert_eq!(value_of(&l, &["xs", "0"]).as_deref(), Some("one"));
    assert_eq!(value_of(&l, &["xs", "1"]).as_deref(), Some("two"));
    assert_eq!(value_of(&l, &["xs", "2"]).as_deref(), Some("three"));
    assert!(xs.is_list());
}

#[test]
fn msvc_argv() {
    let text = "name hi\nversion 0.1.0\nprofile {\n  dbg {\n    is msvc\n    optimize speed\n    standard cpp20\n    openmp true\n  }\n}\n";
    let c = Configuration::load("", text, TargetOs::Windows, Vec::new()).unwrap();
    let p = c.profile("dbg").unwrap();
    let args = p.compiler_arguments(&c, BuildType::Binary, "dbg", &Vec::new()).unwrap();
    assert_eq!(
        args,
        vec!["/openmp", "/O2", "/std:c++20", "src/main.cpp", "/link", "/OUT:target/0.1.0/dbg/artifact/hi.exe"]
    );
}

#[test]
fn run_substitution() {
    let text = "name hi\nversion 0.1.0\nprofile {\n  default nvcc\n}\nrun \"./{} --flag\"\n";
    let c = load(text).unwrap();
    let p = c.profile("default").unwrap();
    assert_eq!(c.target_artifact_file(BuildType::Binary, "default", p), "target/0.1.0/default/artifact/hi");
    assert_eq!(c.run_command("default", p), "./target/0.1.0/default/artifact/hi");
    assert_eq!(c.run_arguments("default", p), vec!["--flag"]);
}

#[test]
fn ambiguity_error() {
    assert!(matches!(detect_build_type(None, true, true), Err(BuildError::BuildTypeNeedsToBeSpecified)));
}

#[test]
fn disambiguation_table() {
    assert!(matches!(detect_build_type(Some(Binary), true, true), Ok(Binary)));
    assert!(matches!(detect_build_type(Some(Binary), true, false), Ok(Binary)));
    assert!(matches!(detect_build_type(Some(Library), true, true), Ok(Library)));
    assert!(matches!(detect_build_type(Some(Library), false, true), Ok(Library)));
    assert!(matches!(detect_build_type(None, true, false), Ok(Binary)));
    assert!(matches!(detect_build_type(None, false, true), Ok(Library)));
    assert!(matches!(detect_build_type(None, false, false), Err(BuildError::CouldNotDetectSourceFile)));
    assert!(matches!(detect_build_type(Some(Binary), false, false), Err(BuildError::CouldNotDetectSourceFile)));
    assert!(matches!(detect_build_type(Some(Library), true, false), Err(BuildError::CouldNotDetectSourceFile)));
}

#[test]
fn dotted_key_equals_nested_level() {
    let a = LSD::parse("a.b c\n").unwrap();
    let b = LSD::parse("a {\n  b c\n}\n").unwrap();
    assert_eq!(format!("{:?}", a), format!("{:?}", b));
}

#[test]
fn key_collisions() {
    assert!(matches!(LSD::parse("a x\na y\n"), Err(LSDParseError::KeyCollisionValueAlreadyExists(k)) if k == "a"));
    assert!(matches!(LSD::parse("a x\na.b y\n"), Err(LSDParseError::KeyCollisionValueWhenShouldBeLevel)));
}

#[test]
fn insertion_order_kept() {
    let l = LSD::parse("zeta 1\nalpha 2\nmid {\n  y 1\n  x 2\n}\nbeta 3\n").unwrap();
    assert_eq!(keys_of(&l), vec!["zeta", "alpha", "mid", "beta"]);
    let mid = l.get_inner(&vec!["mid".to_string()]).unwrap();
    assert_eq!(keys_of(&mid), vec!["y", "x"]);
}

#[test]
fn string_escapes() {
    let l = LSD::parse("k \"a\\\"b\\\\c\\'d\\ne\\rf\\tg\\0h\\bi\\fj\\u0041\\x00e9\"\n").unwrap();
    assert_eq!(value_of(&l, &["k"]).as_deref(), Some("a\"b\\c'd\ne\rf\tg\0h\u{8}i\u{c}jA\u{e9}"));
    let q = LSD::parse("'key with space' 'v'\n").unwrap();
    assert_eq!(value_of(&q, &["key with space"]).as_deref(), Some("v"));
}

#[test]
fn string_errors() {
    assert!(matches!(LSD::parse("k \"a\\q\"\n"), Err(LSDParseError::UnexpectedCharEscapeEnd)));
    assert!(matches!(LSD::parse("k \"abc\n"), Err(LSDParseError::UnexpectedStringEnd)));
    assert!(matches!(LSD::parse("k \"\\u00"), Err(LSDParseError::UnexpectedStringEnd)));
    assert!(matches!(LSD::parse("k \"\\uzzzz\"\n"), Err(LSDParseError::UnexpectedCharEscapeUnicode)));
    assert!(matches!(LSD::parse("k \"\\ud800\"\n"), Err(LSDParseError::UnexpectedCharEscapeUnicode)));
}

#[test]
fn eof_inside_level_or_list() {
    assert!(matches!(LSD::parse("k {\n a b\n"), Err(LSDParseError::UnexpectedLevelEnd)));
    assert!(matches!(LSD::parse("k [ a b\n"), Err(LSDParseError::UnexpectedListEnd)));
    assert!(matches!(LSD::parse("k {"), Err(LSDParseError::UnexpectedLevelEnd)));
}

#[test]
fn empty_inline_level() {
    let l = LSD::parse("k { }\n").unwrap();
    let k = l.get_inner(&vec!["k".to_string()]).unwrap();
    assert!(keys_of(&k).is_empty());
    assert!(matches!(k, LSD::Level(_)));
    assert!(matches!(LSD::parse("k { foo }\n"), Err(LSDParseError::UnexpectedNonEmptyInlineLevel)));
}

#[test]
fn trailing_text_after_close() {
    assert!(matches!(LSD::parse("k { } x\n"), Err(LSDParseError::UnexpectedAfterLevelEnd)));
    assert!(matches!(LSD::parse("k [ a ] x\n"), Err(LSDParseError::UnexpectedAfterListEnd)));
    assert!(matches!(LSD::parse("}\n"), Err(LSDParseError::UnexpectedLevelEnd)));
    assert!(matches!(LSD::parse("]\n"), Err(LSDParseError::UnexpectedListEnd)));
    assert!(matches!(LSD::parse("k"), Err(LSDParseError::EmptyWhenExpectedValue)));
}

#[test]
fn is_list_needs_decimal_keys() {
    let l = LSD::parse("a { }\nb {\n 0 x\n 1 y\n}\nc {\n 0 x\n z y\n}\n").unwrap();
    assert!(l.get_inner(&vec!["a".to_string()]).unwrap().is_list());
    assert!(l.get_inner(&vec!["b".to_string()]).unwrap().is_list());
    assert!(!l.get_inner(&vec!["c".to_string()]).unwrap().is_list());
    assert!(!l.is_list());
    assert!(buildpp::lsd::parses_as_index("+7"));
    assert!(!buildpp::lsd::parses_as_index("-1"));
    assert!(!buildpp::lsd::parses_as_index(""));
    assert!(!buildpp::lsd::parses_as_index("99999999999999999999999"));
}

#[test]
fn inherit_without_options_gives_same_arguments() {
    let text = "name hi\nversion 1\nprofile {\n  base {\n    is msvc\n    optimize size\n  }\n  child {\n    inherit base\n  }\n}\n";
    let c = Configuration::load("", text, TargetOs::Windows, Vec::new()).unwrap();
    let base = c.profile("base").unwrap();
    let child = c.profile("child").unwrap();
    for bt in [BuildType::Binary, BuildType::Library] {
        let a = base.compiler_arguments(&c, bt, "base", &Vec::new()).unwrap();
        let b = child.compiler_arguments(&c, bt, "base", &Vec::new()).unwrap();
        assert_eq!(a, b);
    }
}

#[test]
fn msvc_library_order() {
    let text = "name hi\nversion 1\nprofile {\n  p msvc\n}\n";
    let c = Configuration::load("", text, TargetOs::Windows, Vec::new()).unwrap();
    let p = c.profile("p").unwrap();
    let args = p.compiler_arguments(&c, BuildType::Library, "p", &Vec::new()).unwrap();
    assert_eq!(args, vec!["src/lib.cpp", "/link", "/OUT:target/1/p/artifact/hi.dll", "/DLL"]);
}

#[test]
fn nvcc_argv() {
    let text = "name hi\nversion 1\nprofile {\n  p {\n    is cuda\n    optimize 3\n    dopt true\n    standard c++17\n  }\n}\n";
    let c = load(text).unwrap();
    let p = c.profile("p").unwrap();
    let bin = p.compiler_arguments(&c, BuildType::Binary, "p", &Vec::new()).unwrap();
    assert_eq!(
        bin,
        vec!["--optimize", "3", "--dopt", "--std", "c++17", "--output-file", "target/1/p/artifact/hi", "src/main.cu"]
    );
    let lib = p.compiler_arguments(&c, BuildType::Library, "p", &Vec::new()).unwrap();
    assert_eq!(
        lib,
        vec!["--optimize", "3", "--dopt", "--std", "c++17", "--shared", "--output-file", "target/1/p/artifact/libhi.so", "src/lib.cu"]
    );
}

#[test]
fn static_library_not_implemented() {
    let text = "name hi\nversion 1\nprofile {\n  p {\n    is nvcc\n    library static\n  }\n}\n";
    let c = load(text).unwrap();
    let p = c.profile("p").unwrap();
    assert!(matches!(
        p.compiler_arguments(&c, BuildType::Library, "p", &Vec::new()),
        Err(BuildError::StaticLibraryNotImplemented)
    ));
    assert!(p.compiler_arguments(&c, BuildType::Binary, "p", &Vec::new()).is_ok());
}

#[test]
fn profile_errors() {
    let bad = |t: &str| match load(t) {
        Err(LoadError::ProfilesErrors(v)) => v.len(),
        _ => 0,
    };
    assert_eq!(bad("name a\nversion 1\nprofile {\n  p gcc\n}\n"), 1);
    assert_eq!(bad("name a\nversion 1\nprofile {\n  p {\n    inherit q\n  }\n}\n"), 1);
    assert_eq!(bad("name a\nversion 1\nprofile {\n  p {\n    optimize 2\n  }\n  q {\n    is msvc\n    standard c99\n  }\n}\n"), 2);
    assert!(matches!(load("name a\nversion 1\nprofile x\n"), Err(LoadError::ProfilesIsNotALevel)));
}

#[test]
fn load_errors() {
    assert!(matches!(load("version 1\n"), Err(LoadError::MissingProjectName)));
    assert!(matches!(load("name a\n"), Err(LoadError::MissingVersion)));
    assert!(matches!(load("name { }\nversion 1\n"), Err(LoadError::ProjectNameIsNotAValue)));
    assert!(matches!(load("name a\nversion { }\n"), Err(LoadError::VersionIsNotAValue)));
    assert!(matches!(load("name a\nversion 1\ndependency x\n"), Err(LoadError::DependenciesIsNotALevel)));
    assert!(matches!(load("name a\nversion 1\nrun {\n  arguments x\n}\n"), Err(LoadError::MissingCommandInRun)));
    assert!(matches!(load("name a\nversion 1\nrun {\n  command {\n    x y\n  }\n}\n"), Err(LoadError::RunCommandIsNotAValue)));
    assert!(matches!(load("name a\nversion 1\nrun [ a {\n x y\n } ]\n"), Err(LoadError::RunPieceIsNotAValue)));
    assert!(matches!(load("name a b"), Err(LoadError::MissingVersion)));
    assert!(matches!(load("name \"a"), Err(LoadError::CouldNotParseLSD(LSDParseError::UnexpectedStringEnd))));
}

#[test]
fn run_shapes() {
    let c = load("name hi\nversion 1\nprofile {\n  default nvcc\n}\nrun [ {} --x \"a b\" ]\n").unwrap();
    let p = c.profile("default").unwrap();
    assert_eq!(c.run_command("default", p), "target/1/default/artifact/hi");
    assert_eq!(c.run_arguments("default", p), vec!["--x", "a b"]);
    let c = load("name hi\nversion 1\nprofile {\n  default nvcc\n}\nrun {\n  command { }\n  arguments [ {} x{}.txt ]\n}\n").unwrap();
    let p = c.profile("default").unwrap();
    assert_eq!(c.run_command("default", p), "target/1/default/artifact/hi");
    assert_eq!(c.run_arguments("default", p), vec!["target/1/default/artifact/hi", "xtarget/1/default/artifact/hi.txt"]);
    let c = load("name hi\nversion 1\nprofile {\n  default nvcc\n}\n").unwrap();
    let p = c.profile("default").unwrap();
    assert_eq!(c.run_command("default", p), "target/1/default/artifact/hi");
    assert!(c.run_arguments("default", p).is_empty());
}

#[test]
fn cache_dir_layout() {
    let c = Configuration::load("proj", "name a\nversion 1\n", TargetOs::Linux, Vec::new()).unwrap();
    assert_eq!(c.cache_dep_dir("dep", "2", "dbg"), "proj/cache/dep/2/dbg");
    assert_eq!(c.cache_dep_dir("dep", "", ""), "proj/cache/dep");
    assert_eq!(c.cache_dep_include_dir("dep", "", "x"), "proj/cache/dep/x/include");
    assert_eq!(c.cache_dep_lib_dir("dep", "2", ""), "proj/cache/dep/2/lib");
    assert_eq!(c.config_file(), "proj/build++.lsd");
    assert_eq!(c.target_include_dir("p"), "proj/target/1/p/include");
}

#[test]
fn profile_options_case_insensitive() {
    assert_eq!(MsvcStandard::parse("C++ 17"), Some(MsvcStandard::CPP17));
    assert_eq!(MsvcStandard::parse("CPPLatest"), Some(MsvcStandard::CPPLatest));
    assert_eq!(MsvcStandard::parse("c 11"), Some(MsvcStandard::C11));
    assert_eq!(MsvcStandard::parse("c++98"), None);
    assert_eq!(MsvcOptimize::parse("Maximize Speed"), Some(MsvcOptimize::MaximizeSpeed));
    assert_eq!(MsvcOptimize::parse("min size"), Some(MsvcOptimize::MinimizeSize));
    assert_eq!(NvccOptimize::parse("O fast"), Some(NvccOptimize::UncompliantFast));
    assert_eq!(NvccOptimize::parse("OFF"), Some(NvccOptimize::No));
    assert_eq!(NvccStandard::parse("cpp 03"), Some(NvccStandard::CPP03));
    assert_eq!(LibraryType::parse("DLL"), Some(LibraryType::Shared));
    assert_eq!(LibraryType::parse("a"), Some(LibraryType::Static));
    assert_eq!(buildpp::profile::parse_bool("True"), None);
    assert_eq!(buildpp::profile::parse_bool("true"), Some(true));
}

#[test]
fn build_type_prefixes() {
    assert_eq!(BuildType::parse("BIN"), Some(BuildType::Binary));
    assert_eq!(BuildType::parse("l"), Some(BuildType::Library));
    assert_eq!(BuildType::parse(""), Some(BuildType::Binary));
    assert_eq!(BuildType::parse("exe"), None);
    assert_eq!(BuildType::Library.src_filename(), "lib");
}

#[test]
fn artifact_names() {
    let text = "name n\nversion 1\nprofile {\n  m msvc\n  c cuda\n}\n";
    let w = Configuration::load("", text, TargetOs::Windows, Vec::new()).unwrap();
    let l = load(text).unwrap();
    let m: &Profile = w.profile("m").unwrap();
    assert_eq!(m.artifact_suffix(BuildType::Library, TargetOs::Windows), ".dll");
    assert_eq!(l.profile("c").unwrap().artifact_prefix(BuildType::Library, TargetOs::Linux), "lib");
    assert_eq!(w.profile("c").unwrap().artifact_suffix(BuildType::Binary, TargetOs::Windows), ".exe");
    assert_eq!(m.compiler_command(), "cl");
    assert_eq!(l.profile("c").unwrap().compiler_command(), "nvcc");
}
