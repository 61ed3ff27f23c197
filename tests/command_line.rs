use buildpp::cli::parse_build_type;
use buildpp::cli::parse_name;
use buildpp::cli::parse_profile;
use buildpp::cli::split_arguments;
use buildpp::cli::Error;
use buildpp::cli::InnerParseError;
use buildpp::cli::Subcommand;
use buildpp::BuildType;

fn strings(v: &[&str]) -> Vec<String> {
    v.iter().map(|s| s.to_string()).collect()
}

fn parse(v: &[&str]) -> Result<Subcommand, Error> {
    let (pre, post) = split_arguments(strings(v));
    Subcommand::parse(pre, post)
}

#[test]
fn split_at_first_separator() {
    let (pre, post) = split_arguments(strings(&["run", "", "--profile", "p", "--", "-x", "--", ""]));
    assert_eq!(pre, strings(&["run", "--profile", "p"]));
    assert_eq!(post, strings(&["-x", "--", ""]));
    let (pre, post) = split_arguments(strings(&["build", "/", "a"]));
    assert_eq!(pre, strings(&["build"]));
    assert_eq!(post, strings(&["a"]));
}

#[test]
fn build_flags() {
    match parse(&["--Build", "--is", "LIB", "/profile", "dbg"]).unwrap() {
        Subcommand::Build { build_type, profile } => {
            assert_eq!(build_type, Some(BuildType::Library));
            assert_eq!(profile, "dbg");
        },
        other => panic!("{:?}", other),
    }
    match parse(&["b"]).unwrap() {
        Subcommand::Build { build_type, profile } => {
            assert_eq!(build_type, None);
            assert_eq!(profile, "default");
        },
        other => panic!("{:?}", other),
    }
}

#[test]
fn run_passes_arguments_through() {
    match parse(&["r", "--", "a", "b"]).unwrap() {
        Subcommand::Run { additional_args, profile_name } => {
            assert_eq!(additional_args, strings(&["a", "b"]));
            assert_eq!(profile_name, "default");
        },
        other => panic!("{:?}", other),
    }
}

#[test]
fn new_needs_type_and_name() {
    match parse(&["create", "--is", "binary", "--name", "demo"]).unwrap() {
        Subcommand::New { build_type, name } => {
            assert_eq!(build_type, BuildType::Binary);
            assert_eq!(name, "demo");
        },
        other => panic!("{:?}", other),
    }
    assert!(matches!(parse(&["new", "--name", "x"]), Err(Error::ParseInner(InnerParseError::MissingBuildType))));
    assert!(matches!(parse(&["new", "--is", "b"]), Err(Error::ParseInner(InnerParseError::MissingProjectName))));
    assert!(matches!(
        parse(&["new", "--is", "b", "--name"]),
        Err(Error::ParseInner(InnerParseError::NameHasToHaveExactlyOneValue))
    ));
}

#[test]
fn help_and_version() {
    assert!(matches!(parse(&[]), Ok(Subcommand::Help)));
    assert!(matches!(parse(&["-H"]), Ok(Subcommand::Help)));
    assert!(matches!(parse(&["ver"]), Ok(Subcommand::Version)));
    assert!(matches!(parse(&["v", "--x"]), Err(Error::ParseInner(InnerParseError::ExpectedNoFlags))));
}

#[test]
fn flag_errors() {
    assert!(matches!(parse(&["build", "--is", "b", "-IS", "l"]), Err(Error::ParseRepeatedFlag)));
    assert!(matches!(parse(&["build", "x"]), Err(Error::ParseUnexpectedFlagValueBeforeAnyFlags(v)) if v == "x"));
    assert!(matches!(parse(&["frobnicate"]), Err(Error::ParseInvalidSubcommand(v)) if v == "frobnicate"));
    assert!(matches!(
        parse(&["build", "--is", "exe"]),
        Err(Error::ParseInner(InnerParseError::UnknownBuildType))
    ));
    assert!(matches!(
        parse(&["build", "--is", "b", "l"]),
        Err(Error::ParseInner(InnerParseError::BuildTypeHasToHaveExactlyOneValue))
    ));
    assert!(matches!(
        parse(&["run", "--profile"]),
        Err(Error::ParseInner(InnerParseError::ProfileHasToHaveExactlyOneValue))
    ));
}

#[test]
fn extra_flags_in_table_order_after_removal() {
    match parse(&["build", "--is", "b", "--x", "--y", "--z"]) {
        Err(Error::ParseInner(InnerParseError::FoundExtraFlags(v))) => assert_eq!(v, strings(&["z", "x", "y"])),
        other => panic!("{:?}", other),
    }
}

#[test]
fn single_value_readers() {
    assert!(matches!(parse_build_type(&strings(&["Library"])), Ok(BuildType::Library)));
    assert!(matches!(parse_build_type(&strings(&[])), Err(InnerParseError::BuildTypeHasToHaveExactlyOneValue)));
    assert_eq!(parse_name(&strings(&["n"])).unwrap(), "n");
    assert!(matches!(parse_profile(&strings(&["a", "b"])), Err(InnerParseError::ProfileHasToHaveExactlyOneValue)));
}
