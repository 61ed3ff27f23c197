use buildpp::configuration::Configuration;
use buildpp::configuration::LoadError;
use buildpp::dependency::Dependency;
use buildpp::dependency::DependencyProfile;
use buildpp::dependency::Found;
use buildpp::dependency::InnerParseError;
use buildpp::dependency::ParseError;
use buildpp::dependency::Probe;
use buildpp::engine::is_fresh;
use buildpp::engine::is_header_extension;
use buildpp::engine::needs_caching;
use buildpp::profile::TargetOs;
use buildpp::text::count_indent;
use buildpp::text::format_multiline_code;
use buildpp::text::split_file_name;
use buildpp::text::u16_from_4_hex_chars;

fn nested() -> Configuration {
    Configuration::load("../lib", "name lib\nversion 2.0\n", TargetOs::Linux, Vec::new()).unwrap()
}

const DEPS: &str = "name app\nversion 1\ndependency {\n  core {\n    is Local Build\n    path ../lib\n    profile INHERIT\n  }\n  pair {\n    is local pair\n    include inc\n    library lib\n  }\n  fixed {\n    is local\n    path ../lib\n  }\n}\n";

#[test]
fn dependency_probes() {
    let probes = Configuration::probes(DEPS);
    assert_eq!(probes.len(), 3);
    assert!(matches!(&probes[0], Probe::Project(p) if p == "../lib"));
    assert!(matches!(&probes[1], Probe::Dirs(a, b) if a == "inc" && b == "lib"));
    assert!(matches!(&probes[2], Probe::Project(p) if p == "../lib"));
}

#[test]
fn dependencies_load_in_order() {
    let found = vec![Found::Project(Ok(nested())), Found::Dirs(true, true), Found::Project(Ok(nested()))];
    let c = Configuration::load("app", DEPS, TargetOs::Linux, found).unwrap();
    let deps = c.dependencies();
    assert_eq!(deps.len(), 3);
    assert_eq!(deps[0].0, "core");
    assert!(matches!(&deps[0].1, Dependency::LocalBuild { profile: DependencyProfile::Inherit, .. }));
    assert_eq!(deps[0].1.current_version(), "2.0");
    assert_eq!(deps[0].1.current_profile("dbg"), "dbg");
    assert_eq!(deps[1].1.current_version(), "");
    assert_eq!(deps[1].1.current_profile("dbg"), "");
    assert!(matches!(&deps[2].1, Dependency::LocalBuild { profile: DependencyProfile::OfName(n), .. } if n == "default"));
    assert_eq!(c.cache_dep_include_dir("core", "2.0", "dbg"), "app/cache/core/2.0/dbg/include");
    assert_eq!(c.cache_dep_lib_dir("pair", "", ""), "app/cache/pair/lib");
}

#[test]
fn dependency_errors_are_gathered() {
    let text = "name app\nversion 1\ndependency {\n  a x\n  b {\n    path y\n  }\n  c {\n    is remote\n  }\n  d {\n    is local\n  }\n  e {\n    is local pair\n    include i\n    library l\n  }\n  f {\n    is local\n    path p\n  }\n}\n";
    let probes = Configuration::probes(text);
    assert_eq!(probes.len(), 6);
    let found = vec![
        Found::Nothing,
        Found::Nothing,
        Found::Nothing,
        Found::Nothing,
        Found::Dirs(true, false),
        Found::Project(Err(LoadError::MissingVersion)),
    ];
    match Configuration::load("", text, TargetOs::Linux, found) {
        Err(LoadError::DependenciesErrors(v)) => {
            assert_eq!(v.len(), 6);
            assert!(matches!(v[0], ParseError::DependenciesAsVersionsAreNotSupportedYet));
            assert!(matches!(v[1], ParseError::DependenciesWithoutTypeAreNotSupportedYet));
            assert!(matches!(v[2], ParseError::CouldNotFindMatchingDependencyType));
            assert!(matches!(v[3], ParseError::Inner(InnerParseError::MissingProjectPath)));
            assert!(matches!(v[4], ParseError::Inner(InnerParseError::LibDirIsNotADir)));
            assert!(matches!(
                v[5],
                ParseError::Inner(InnerParseError::ConfigurationLoadError(LoadError::MissingVersion))
            ));
        },
        other => panic!("{:?}", other.map(|_| ())),
    }
}

#[test]
fn file_name_split() {
    assert_eq!(split_file_name("lib.a"), ("lib".to_string(), "a".to_string()));
    assert_eq!(split_file_name("a.b.exp"), ("a.b".to_string(), "exp".to_string()));
    assert_eq!(split_file_name("Makefile"), (String::new(), String::new()));
    assert_eq!(split_file_name(".hidden"), (String::new(), "hidden".to_string()));
}

#[test]
fn hex_digits() {
    assert_eq!(u16_from_4_hex_chars('0', '0', '4', '1'), Ok(0x41));
    assert_eq!(u16_from_4_hex_chars('F', 'f', 'F', 'f'), Ok(0xffff));
    assert_eq!(u16_from_4_hex_chars('a', 'B', '9', '0'), Ok(0xab90));
    assert_eq!(u16_from_4_hex_chars('0', '0', 'g', '1'), Err(()));
}

#[test]
fn indentation() {
    assert_eq!(count_indent("  \tx "), 3);
    assert_eq!(count_indent(""), 0);
    let code = "\n    int main() {\n        return 0;\n    }\n";
    assert_eq!(format_multiline_code(code), "int main() {\n    return 0;\n}");
    assert_eq!(format_multiline_code("one\r\n  two\r\n"), "e\ntwo");
}

#[test]
fn engine_decisions() {
    assert!(is_fresh(false, true, 10, 5, 10));
    assert!(!is_fresh(false, true, 10, 5, 11));
    assert!(!is_fresh(true, true, 10, 5, 5));
    assert!(!is_fresh(false, false, 10, 5, 5));
    assert!(needs_caching(false, false));
    assert!(!needs_caching(true, false));
    assert!(needs_caching(true, true));
    assert!(buildpp::dependency::local_build_needs_recaching(true, 5, 1, 6, 1));
    assert!(!buildpp::dependency::local_build_needs_recaching(true, 6, 1, 6, 1));
    assert!(buildpp::dependency::local_build_needs_recaching(false, 9, 1, 1, 1));
    assert!(buildpp::dependency::local_pair_needs_recaching(1, 0, 2));
    assert!(!buildpp::dependency::local_pair_needs_recaching(2, 2, 2));
    for e in ["h", "cuh", "hh", "H", "hp", "hxx", "hpp", "HPP", "h++", "tcc"] {
        assert!(is_header_extension(e));
    }
    assert!(!is_header_extension("cpp"));
    assert!(!is_header_extension("Hpp"));
}

#[test]
fn scaffolding_text_keeps_inner_indent() {
    let text = "\n    #include <x>\n\n    int main() {}\n  ";
    assert!(buildpp::text::can_format_multiline_code(text));
    assert_eq!(format_multiline_code(text), "#include <x>\n\n    int main() {}");
    assert_eq!(buildpp::text::lines("a\r\nb\rc\n\nd"), vec!["a", "b\rc", "", "d"]);
    assert!(!buildpp::text::can_format_multiline_code("é"));
}
