//! The command line: subcommand, flags with their values, and the arguments
//! passed through to the program that `run` starts.
use vstd::prelude::*;

use indexmap::IndexMap;

use crate::build_type_of;
use crate::is_prefix;
use crate::text::views;
use crate::profile::DEFAULT_PROFILE;
use crate::text::chars_of;
use crate::text::lowercase_of;
use crate::text::owned;
use crate::text::str_eq;
use crate::text::string_of;
use crate::text::to_lowercase;
use crate::BuildType;

verus! {

/// Flags and their values, in the order given.
pub type FlagTable = IndexMap<String, Vec<String>>;

/// What a flag table holds, in its order: each flag with its values.
pub uninterp spec fn flag_entries(m: FlagTable) -> Seq<(Seq<char>, Seq<Seq<char>>)>;

/// The mathematical form of a flag table.
pub type Flags = Seq<(Seq<char>, Seq<Seq<char>>)>;

/// Index of the flag `k`.
pub open spec fn flag_find(e: Flags, k: Seq<char>) -> Option<int> {
    if exists|i: int| 0 <= i < e.len() && #[trigger] e[i].0 == k {
        Some(choose|i: int| 0 <= i < e.len() && #[trigger] e[i].0 == k)
    } else {
        None
    }
}

/// Whether no flag occurs twice.
pub open spec fn flags_unique(e: Flags) -> bool {
    forall|i: int, j: int| 0 <= i < e.len() && 0 <= j < e.len() && e[i].0 == e[j].0 ==> i == j
}

/// Relies on `IndexMap::new`: an empty map.
#[verifier::external_body]
fn flags_new() -> (r: FlagTable)
    ensures
        flag_entries(r) == Seq::<(Seq<char>, Seq<Seq<char>>)>::empty(),
{
    IndexMap::new()
}

/// Relies on `IndexMap::insert`: a new key goes last; a key already present
/// keeps its place, takes the new value, and its old value is returned.
#[verifier::external_body]
fn flags_insert(m: &mut FlagTable, k: String, v: Vec<String>) -> (r: Option<Vec<String>>)
    ensures
        match flag_find(flag_entries(*old(m)), k@) {
            None => r is None && flag_entries(*final(m)) == flag_entries(*old(m)).push((k@, views(v@))),
            Some(i) => r is Some && flag_entries(*final(m)) == flag_entries(*old(m)).update(
                i,
                (k@, views(v@)),
            ),
        },
{
    m.insert(k, v)
}

/// What `IndexMap::swap_remove` leaves: the entry at `i` replaced by the last
/// entry, which is then popped.
pub open spec fn swap_removed(e: Flags, i: int) -> Flags {
    e.update(i, e.last()).drop_last()
}

/// Relies on `IndexMap::swap_remove`: removes the flag `k`, moving the last
/// entry into its place, and returns its values.
#[verifier::external_body]
fn flags_swap_remove(m: &mut FlagTable, k: &str) -> (r: Option<Vec<String>>)
    ensures
        match flag_find(flag_entries(*old(m)), k@) {
            None => r is None && flag_entries(*final(m)) == flag_entries(*old(m)),
            Some(i) => r matches Some(v) && views(v@) == flag_entries(*old(m))[i].1 && flag_entries(
                *final(m),
            ) == swap_removed(flag_entries(*old(m)), i),
        },
{
    m.swap_remove(k)
}

/// Relies on `IndexMap::len`: the number of entries.
#[verifier::external_body]
fn flags_len(m: &FlagTable) -> (r: usize)
    ensures
        r == flag_entries(*m).len(),
{
    m.len()
}

/// Relies on `IndexMap::get_index`: the entry at a position of the order.
#[verifier::external_body]
fn flags_key(m: &FlagTable, i: usize) -> (r: Option<&String>)
    ensures
        r is Some == (i < flag_entries(*m).len()),
        r matches Some(k) ==> k@ == flag_entries(*m)[i as int].0,
{
    m.get_index(i).map(|(k, _)| k)
}

//
// Errors and commands
//

/// Why the arguments of a subcommand do not read.
#[derive(Debug)]
pub enum InnerParseError {
    FoundExtraFlags(Vec<String>),
    BuildTypeHasToHaveExactlyOneValue,
    UnknownBuildType,
    ProfileHasToHaveExactlyOneValue,
    MissingBuildType,
    MissingProjectName,
    NameHasToHaveExactlyOneValue,
    ExpectedNoFlags,
}

/// Why a command line does not read.
#[derive(Debug)]
pub enum Error {
    ParseRepeatedFlag,
    ParseUnexpectedFlagValueBeforeAnyFlags(String),
    ParseInvalidSubcommand(String),
    ParseInner(InnerParseError),
}

/// The mathematical form of a subcommand argument error.
pub enum InnerFault {
    FoundExtraFlags(Seq<Seq<char>>),
    BuildTypeHasToHaveExactlyOneValue,
    UnknownBuildType,
    ProfileHasToHaveExactlyOneValue,
    MissingBuildType,
    MissingProjectName,
    NameHasToHaveExactlyOneValue,
    ExpectedNoFlags,
}

/// The mathematical form of a command line error.
pub enum CliFault {
    ParseRepeatedFlag,
    ParseUnexpectedFlagValueBeforeAnyFlags(Seq<char>),
    ParseInvalidSubcommand(Seq<char>),
    ParseInner(InnerFault),
}

impl View for InnerParseError {
    type V = InnerFault;

    open spec fn view(&self) -> InnerFault {
        match self {
            InnerParseError::FoundExtraFlags(v) => InnerFault::FoundExtraFlags(views(v@)),
            InnerParseError::BuildTypeHasToHaveExactlyOneValue => InnerFault::BuildTypeHasToHaveExactlyOneValue,
            InnerParseError::UnknownBuildType => InnerFault::UnknownBuildType,
            InnerParseError::ProfileHasToHaveExactlyOneValue => InnerFault::ProfileHasToHaveExactlyOneValue,
            InnerParseError::MissingBuildType => InnerFault::MissingBuildType,
            InnerParseError::MissingProjectName => InnerFault::MissingProjectName,
            InnerParseError::NameHasToHaveExactlyOneValue => InnerFault::NameHasToHaveExactlyOneValue,
            InnerParseError::ExpectedNoFlags => InnerFault::ExpectedNoFlags,
        }
    }
}

impl View for Error {
    type V = CliFault;

    open spec fn view(&self) -> CliFault {
        match self {
            Error::ParseRepeatedFlag => CliFault::ParseRepeatedFlag,
            Error::ParseUnexpectedFlagValueBeforeAnyFlags(a) => CliFault::ParseUnexpectedFlagValueBeforeAnyFlags(a@),
            Error::ParseInvalidSubcommand(a) => CliFault::ParseInvalidSubcommand(a@),
            Error::ParseInner(e) => CliFault::ParseInner(e@),
        }
    }
}

/// A subcommand with its arguments.
#[derive(Debug)]
pub enum Subcommand {
    Help,
    Version,
    Build { build_type: Option<BuildType>, profile: String },
    Run { additional_args: Vec<String>, profile_name: String },
    New { build_type: BuildType, name: String },
}

/// The mathematical form of a subcommand.
pub enum SubcommandModel {
    Help,
    Version,
    Build { build_type: Option<BuildType>, profile: Seq<char> },
    Run { additional_args: Seq<Seq<char>>, profile_name: Seq<char> },
    New { build_type: BuildType, name: Seq<char> },
}

impl View for Subcommand {
    type V = SubcommandModel;

    open spec fn view(&self) -> SubcommandModel {
        match self {
            Subcommand::Help => SubcommandModel::Help,
            Subcommand::Version => SubcommandModel::Version,
            Subcommand::Build { build_type, profile } => SubcommandModel::Build {
                build_type: *build_type,
                profile: profile@,
            },
            Subcommand::Run { additional_args, profile_name } => SubcommandModel::Run {
                additional_args: views(additional_args@),
                profile_name: profile_name@,
            },
            Subcommand::New { build_type, name } => SubcommandModel::New { build_type: *build_type, name: name@ },
        }
    }
}

//
// Splitting and flags
//

/// The arguments before the first `--`, `-` or `/` (empty ones dropped) and
/// those after it (kept as they are).
pub open spec fn split_at_separator(args: Seq<Seq<char>>) -> (Seq<Seq<char>>, Seq<Seq<char>>)
    decreases args.len(),
{
    if args.len() == 0 {
        (Seq::empty(), Seq::empty())
    } else {
        let a = args[0];
        if a == "--"@ || a == "-"@ || a == "/"@ {
            (Seq::empty(), args.drop_first())
        } else {
            let (pre, post) = split_at_separator(args.drop_first());
            (
                if a.len() == 0 {
                    pre
                } else {
                    seq![a] + pre
                },
                post,
            )
        }
    }
}

/// Splits the program's arguments at the first `--`, `-` or `/`.
pub fn split_arguments(args: Vec<String>) -> (r: (Vec<String>, Vec<String>))
    ensures
        (views(r.0@), views(r.1@)) == split_at_separator(views(args@)),
{
    let mut pre: Vec<String> = Vec::new();
    let mut post: Vec<String> = Vec::new();
    let mut rest = args;
    let ghost all = views(rest@);
    assert(views(pre@) =~= Seq::<Seq<char>>::empty());
    loop
        invariant
            ({
                let (p, q) = split_at_separator(views(rest@));
                split_at_separator(all) == (views(pre@) + p, q)
            }),
            views(post@) == Seq::<Seq<char>>::empty(),
            all == views(args@),
        decreases rest@.len(),
    {
        if rest.len() == 0 {
            assert(views(rest@) =~= Seq::<Seq<char>>::empty());
            assert(views(pre@) + Seq::<Seq<char>>::empty() =~= views(pre@));
            return (pre, post);
        }
        let ghost before = views(rest@);
        let a = rest.remove(0);
        assert(views(rest@) =~= before.drop_first());
        assert(before[0] == a@);
        if str_eq(a.as_str(), "--") || str_eq(a.as_str(), "-") || str_eq(a.as_str(), "/") {
            assert(split_at_separator(before) == (Seq::<Seq<char>>::empty(), views(rest@)));
            assert(views(pre@) + Seq::<Seq<char>>::empty() =~= views(pre@));
            return (pre, rest);
        }
        assert(split_at_separator(before) == ({
            let (p, q) = split_at_separator(views(rest@));
            (if a@.len() == 0 { p } else { seq![a@] + p }, q)
        }));
        if chars_of(a.as_str()).len() > 0 {
            let ghost p0 = views(pre@);
            pre.push(a);
            assert(views(pre@) =~= p0.push(a@));
            assert(p0 + (seq![a@] + split_at_separator(views(rest@)).0) =~= views(pre@)
                + split_at_separator(views(rest@)).0);
        }
    }
}

/// `s` with every leading copy of `p` removed.
pub open spec fn strip_all(s: Seq<char>, p: Seq<char>) -> Seq<char>
    decreases s.len(),
{
    if p.len() > 0 && is_prefix(p, s) {
        strip_all(s.subrange(p.len() as int, s.len() as int), p)
    } else {
        s
    }
}

/// A name with its leading `--`, then `-`, then `/` marks removed, lowercased.
pub open spec fn bare_name(s: Seq<char>) -> Seq<char> {
    lowercase_of(strip_all(strip_all(strip_all(s, "--"@), "-"@), "/"@))
}

/// Whether an argument is a flag: it starts with `-` or `/`.
pub open spec fn is_flag(s: Seq<char>) -> bool {
    s.len() > 0 && (s[0] == '-' || s[0] == '/')
}

fn strip_all_exec(s: &str, p: char, twice: bool) -> (r: String)
    ensures
        r@ == strip_all(
            s@,
            if twice {
                seq![p, p]
            } else {
                seq![p]
            },
        ),
{
    let c = chars_of(s);
    let ghost pat = if twice {
        seq![p, p]
    } else {
        seq![p]
    };
    let step: usize = if twice {
        2
    } else {
        1
    };
    let mut i: usize = 0;
    assert(c@.subrange(0, c@.len() as int) =~= c@);
    while step <= c.len() - i && c[i] == p && (!twice || c[i + 1] == p)
        invariant
            c@ == s@,
            step == pat.len(),
            pat.len() > 0,
            i <= c@.len(),
            pat == (if twice {
                seq![p, p]
            } else {
                seq![p]
            }),
            strip_all(c@.subrange(i as int, c@.len() as int), pat) == strip_all(s@, pat),
        decreases c@.len() - i,
    {
        let ghost rest = c@.subrange(i as int, c@.len() as int);
        assert(rest.subrange(0, pat.len() as int) =~= pat);
        assert(rest.subrange(pat.len() as int, rest.len() as int) =~= c@.subrange(i + step, c@.len() as int));
        i = i + step;
    }
    let ghost rest = c@.subrange(i as int, c@.len() as int);
    if step <= c.len() - i {
        assert(rest.subrange(0, pat.len() as int)[0] == c@[i as int]);
        if twice && c[i] == p {
            assert(rest.subrange(0, pat.len() as int)[1] == c@[i + 1]);
        }
    }
    assert(!(pat.len() > 0 && is_prefix(pat, rest)));
    string_of(&c, i, c.len())
}

fn bare_name_exec(s: &str) -> (r: String)
    ensures
        r@ == bare_name(s@),
{
    let a = strip_all_exec(s, '-', true);
    let b = strip_all_exec(a.as_str(), '-', false);
    let c = strip_all_exec(b.as_str(), '/', false);
    proof {
        reveal_strlit("--");
        reveal_strlit("-");
        reveal_strlit("/");
        assert("--"@ =~= seq!['-', '-']);
        assert("-"@ =~= seq!['-']);
        assert("/"@ =~= seq!['/']);
    }
    to_lowercase(c.as_str())
}

/// The flags of the arguments `args[i..]`, added to `acc`: each flag starts
/// an entry, each other argument is a value of the latest flag.
pub open spec fn flags_from(args: Seq<Seq<char>>, i: int, acc: Flags) -> Result<Flags, CliFault>
    decreases args.len() - i,
{
    if i < 0 || i >= args.len() {
        Ok(acc)
    } else if is_flag(args[i]) {
        let f = bare_name(args[i]);
        if flag_find(acc, f) is Some {
            Err(CliFault::ParseRepeatedFlag)
        } else {
            flags_from(args, i + 1, acc.push((f, Seq::empty())))
        }
    } else if acc.len() == 0 {
        Err(CliFault::ParseUnexpectedFlagValueBeforeAnyFlags(args[i]))
    } else {
        flags_from(args, i + 1, acc.update(acc.len() - 1, (acc.last().0, acc.last().1.push(args[i]))))
    }
}

/// The value of the latest flag, with `v` added.
spec fn with_pending(e: Flags, pending: Seq<Seq<char>>) -> Flags {
    if e.len() == 0 {
        e
    } else {
        e.update(e.len() - 1, (e.last().0, pending))
    }
}

proof fn lemma_unique_push(e: Flags, k: Seq<char>, v: Seq<Seq<char>>)
    requires
        flags_unique(e),
        flag_find(e, k) is None,
    ensures
        flags_unique(e.push((k, v))),
{
    let f = e.push((k, v));
    assert forall|a: int, b: int| 0 <= a < f.len() && 0 <= b < f.len() && f[a].0 == f[b].0 implies a == b by {
        if a < e.len() && b < e.len() {
            assert(e[a].0 == e[b].0);
        } else if a < e.len() {
            assert(e[a].0 == k);
        } else if b < e.len() {
            assert(e[b].0 == k);
        }
    }
}

proof fn lemma_find_last(e: Flags)
    requires
        flags_unique(e),
        e.len() > 0,
    ensures
        flag_find(e, e.last().0) == Some(e.len() - 1),
{
    let i = choose|i: int| 0 <= i < e.len() && #[trigger] e[i].0 == e.last().0;
    assert(e[e.len() - 1].0 == e.last().0);
}

/// Reads the flags of the arguments after the subcommand.
fn collect_flags(args: &Vec<String>) -> (r: Result<FlagTable, Error>)
    ensures
        match flags_from(views(args@), 0, Seq::empty()) {
            Ok(f) => r matches Ok(m) && flag_entries(m) == f && flags_unique(f),
            Err(x) => r matches Err(e) && e@ == x,
        },
{
    let ghost a = views(args@);
    let mut flags = flags_new();
    let mut pending: Vec<String> = Vec::new();
    let mut i: usize = 0;
    assert(with_pending(flag_entries(flags), views(pending@)) =~= Seq::<(Seq<char>, Seq<Seq<char>>)>::empty());
    while i < args.len()
        invariant
            a == views(args@),
            i <= args@.len(),
            flags_unique(flag_entries(flags)),
            flag_entries(flags).len() == 0 ==> pending@.len() == 0,
            flags_from(a, i as int, with_pending(flag_entries(flags), views(pending@))) == flags_from(
                a,
                0,
                Seq::empty(),
            ),
        decreases args@.len() - i,
    {
        let arg = args[i].as_str();
        assert(a[i as int] == arg@);
        let ghost acc = with_pending(flag_entries(flags), views(pending@));
        let c = chars_of(arg);
        if c.len() > 0 && (c[0] == '-' || c[0] == '/') {
            let f = bare_name_exec(arg);
            let n = flags_len(&flags);
            if n > 0 {
                let last = match flags_key(&flags, n - 1) {
                    Some(k) => k.clone(),
                    None => String::new(),
                };
                let ghost e0 = flag_entries(flags);
                proof {
                    lemma_find_last(e0);
                }
                let vals = pending;
                pending = Vec::new();
                flags_insert(&mut flags, last, vals);
                assert(flag_entries(flags) =~= acc);
                assert(flags_unique(flag_entries(flags))) by {
                    let e1 = flag_entries(flags);
                    assert forall|x: int, y: int|
                        0 <= x < e1.len() && 0 <= y < e1.len() && e1[x].0 == e1[y].0 implies x == y by {
                        assert(e1[x].0 == e0[x].0);
                        assert(e1[y].0 == e0[y].0);
                    }
                }
            } else {
                assert(flag_entries(flags) =~= acc);
            }
            let ghost e2 = flag_entries(flags);
            proof {
                if flag_find(e2, f@) is None {
                    lemma_unique_push(e2, f@, Seq::empty());
                }
            }
            let old_value = flags_insert(&mut flags, f, Vec::new());
            if old_value.is_some() {
                return Err(Error::ParseRepeatedFlag);
            }
            assert(views(pending@) =~= Seq::<Seq<char>>::empty());
            assert(with_pending(flag_entries(flags), views(pending@)) =~= e2.push((bare_name(a[i as int]), Seq::empty())));
        } else {
            let n = flags_len(&flags);
            if n == 0 {
                return Err(Error::ParseUnexpectedFlagValueBeforeAnyFlags(args[i].clone()));
            }
            let ghost p0 = views(pending@);
            pending.push(args[i].clone());
            assert(views(pending@) =~= p0.push(a[i as int]));
            assert(with_pending(flag_entries(flags), views(pending@)) =~= acc.update(
                acc.len() - 1,
                (acc.last().0, acc.last().1.push(a[i as int])),
            ));
        }
        i = i + 1;
    }
    let n = flags_len(&flags);
    if n > 0 {
        let last = match flags_key(&flags, n - 1) {
            Some(k) => k.clone(),
            None => String::new(),
        };
        let ghost e0 = flag_entries(flags);
        let ghost acc = with_pending(e0, views(pending@));
        proof {
            lemma_find_last(e0);
        }
        flags_insert(&mut flags, last, pending);
        assert(flag_entries(flags) =~= acc);
        assert(flags_unique(flag_entries(flags))) by {
            let e1 = flag_entries(flags);
            assert forall|x: int, y: int|
                0 <= x < e1.len() && 0 <= y < e1.len() && e1[x].0 == e1[y].0 implies x == y by {
                assert(e1[x].0 == e0[x].0);
                assert(e1[y].0 == e0[y].0);
            }
        }
    } else {
        assert(with_pending(flag_entries(flags), views(pending@)) == flag_entries(flags));
    }
    Ok(flags)
}

//
// Subcommand arguments
//

/// The one value of a flag that takes exactly one.
pub open spec fn single(v: Seq<Seq<char>>) -> Option<Seq<char>> {
    if v.len() == 1 {
        Some(v[0])
    } else {
        None
    }
}

/// Reads the one value of `--is` as a build type.
pub fn parse_build_type(build_type: &Vec<String>) -> (r: Result<BuildType, InnerParseError>)
    ensures
        match single(views(build_type@)) {
            None => r matches Err(InnerParseError::BuildTypeHasToHaveExactlyOneValue),
            Some(v) => match build_type_of(lowercase_of(v)) {
                Some(b) => r matches Ok(x) && x == b,
                None => r matches Err(InnerParseError::UnknownBuildType),
            },
        },
{
    if build_type.len() != 1 {
        return Err(InnerParseError::BuildTypeHasToHaveExactlyOneValue);
    }
    match BuildType::parse(build_type[0].as_str()) {
        Some(b) => Ok(b),
        None => Err(InnerParseError::UnknownBuildType),
    }
}

/// Reads the one value of `--profile`.
pub fn parse_profile(profile: &Vec<String>) -> (r: Result<String, InnerParseError>)
    ensures
        match single(views(profile@)) {
            None => r matches Err(InnerParseError::ProfileHasToHaveExactlyOneValue),
            Some(v) => r matches Ok(x) && x@ == v,
        },
{
    if profile.len() != 1 {
        return Err(InnerParseError::ProfileHasToHaveExactlyOneValue);
    }
    Ok(profile[0].clone())
}

/// Reads the one value of `--name`.
pub fn parse_name(name: &Vec<String>) -> (r: Result<String, InnerParseError>)
    ensures
        match single(views(name@)) {
            None => r matches Err(InnerParseError::NameHasToHaveExactlyOneValue),
            Some(v) => r matches Ok(x) && x@ == v,
        },
{
    if name.len() != 1 {
        return Err(InnerParseError::NameHasToHaveExactlyOneValue);
    }
    Ok(name[0].clone())
}

/// Removes a flag the way the table does, if present.
pub open spec fn take(e: Flags, k: Seq<char>) -> (Option<Seq<Seq<char>>>, Flags) {
    match flag_find(e, k) {
        None => (None, e),
        Some(i) => (Some(e[i].1), swap_removed(e, i)),
    }
}

/// The names of the flags, in order.
pub open spec fn flag_names(e: Flags) -> Seq<Seq<char>> {
    e.map_values(|x: (Seq<char>, Seq<Seq<char>>)| x.0)
}

/// What the flags of `build` read as.
pub open spec fn build_of(e: Flags) -> Result<SubcommandModel, InnerFault> {
    let (is, e1) = take(e, "is"@);
    let (profile, e2) = take(e1, "profile"@);
    let bt = match is {
        None => Ok(None),
        Some(v) => match single(v) {
            None => Err(InnerFault::BuildTypeHasToHaveExactlyOneValue),
            Some(x) => match build_type_of(lowercase_of(x)) {
                Some(b) => Ok(Some(b)),
                None => Err(InnerFault::UnknownBuildType),
            },
        },
    };
    let pr = match profile {
        None => Ok("default"@),
        Some(v) => match single(v) {
            None => Err(InnerFault::ProfileHasToHaveExactlyOneValue),
            Some(x) => Ok(x),
        },
    };
    if bt is Err {
        Err(bt->Err_0)
    } else if pr is Err {
        Err(pr->Err_0)
    } else if e2.len() > 0 {
        Err(InnerFault::FoundExtraFlags(flag_names(e2)))
    } else {
        Ok(SubcommandModel::Build { build_type: bt->Ok_0, profile: pr->Ok_0 })
    }
}

/// What the flags of `run` read as, with the arguments passed through.
pub open spec fn run_of(e: Flags, post: Seq<Seq<char>>) -> Result<SubcommandModel, InnerFault> {
    let (profile, e1) = take(e, "profile"@);
    let pr = match profile {
        None => Ok("default"@),
        Some(v) => match single(v) {
            None => Err(InnerFault::ProfileHasToHaveExactlyOneValue),
            Some(x) => Ok(x),
        },
    };
    if pr is Err {
        Err(pr->Err_0)
    } else if e1.len() > 0 {
        Err(InnerFault::FoundExtraFlags(flag_names(e1)))
    } else {
        Ok(SubcommandModel::Run { additional_args: post, profile_name: pr->Ok_0 })
    }
}

/// What the flags of `new` read as.
pub open spec fn new_of(e: Flags) -> Result<SubcommandModel, InnerFault> {
    let (is, e1) = take(e, "is"@);
    let (name, e2) = take(e1, "name"@);
    let bt = match is {
        None => Err(InnerFault::MissingBuildType),
        Some(v) => match single(v) {
            None => Err(InnerFault::BuildTypeHasToHaveExactlyOneValue),
            Some(x) => match build_type_of(lowercase_of(x)) {
                Some(b) => Ok(b),
                None => Err(InnerFault::UnknownBuildType),
            },
        },
    };
    let nm = match name {
        None => Err(InnerFault::MissingProjectName),
        Some(v) => match single(v) {
            None => Err(InnerFault::NameHasToHaveExactlyOneValue),
            Some(x) => Ok(x),
        },
    };
    if bt is Err {
        Err(bt->Err_0)
    } else if nm is Err {
        Err(nm->Err_0)
    } else if e2.len() > 0 {
        Err(InnerFault::FoundExtraFlags(flag_names(e2)))
    } else {
        Ok(SubcommandModel::New { build_type: bt->Ok_0, name: nm->Ok_0 })
    }
}

/// A subcommand's argument error as a command line error.
pub open spec fn inner(r: Result<SubcommandModel, InnerFault>) -> Result<SubcommandModel, CliFault> {
    match r {
        Ok(m) => Ok(m),
        Err(f) => Err(CliFault::ParseInner(f)),
    }
}

/// What a command line reads as: `pre` holds the subcommand and its flags,
/// `post` the arguments after the separator. The flags are read first, then
/// the subcommand is matched by name.
pub open spec fn command_of(pre: Seq<Seq<char>>, post: Seq<Seq<char>>) -> Result<SubcommandModel, CliFault> {
    let rest = if pre.len() > 0 {
        pre.drop_first()
    } else {
        pre
    };
    match flags_from(rest, 0, Seq::empty()) {
        Err(f) => Err(f),
        Ok(flags) => if pre.len() == 0 {
            Ok(SubcommandModel::Help)
        } else {
            let s = bare_name(pre[0]);
            if s == "help"@ || s == "h"@ {
                Ok(SubcommandModel::Help)
            } else if s == "version"@ || s == "ver"@ || s == "v"@ {
                if flags.len() == 0 {
                    Ok(SubcommandModel::Version)
                } else {
                    Err(CliFault::ParseInner(InnerFault::ExpectedNoFlags))
                }
            } else if s == "build"@ || s == "b"@ {
                inner(build_of(flags))
            } else if s == "run"@ || s == "r"@ {
                inner(run_of(flags, post))
            } else if s == "new"@ || s == "n"@ || s == "create"@ || s == "c"@ {
                inner(new_of(flags))
            } else {
                Err(CliFault::ParseInvalidSubcommand(pre[0]))
            }
        },
    }
}

fn take_exec(flags: &mut FlagTable, k: &str) -> (r: Option<Vec<String>>)
    ensures
        match take(flag_entries(*old(flags)), k@) {
            (None, e) => r is None && flag_entries(*final(flags)) == e,
            (Some(v), e) => r matches Some(x) && views(x@) == v && flag_entries(*final(flags)) == e,
        },
{
    flags_swap_remove(flags, k)
}

fn flag_name_list(flags: &FlagTable) -> (r: Vec<String>)
    ensures
        views(r@) == flag_names(flag_entries(*flags)),
{
    let n = flags_len(flags);
    let mut out: Vec<String> = Vec::new();
    let mut i: usize = 0;
    while i < n
        invariant
            n == flag_entries(*flags).len(),
            i <= n,
            views(out@) == flag_names(flag_entries(*flags)).subrange(0, i as int),
        decreases n - i,
    {
        let k = match flags_key(flags, i) {
            Some(k) => k.clone(),
            None => String::new(),
        };
        let ghost before = views(out@);
        out.push(k);
        assert(flag_names(flag_entries(*flags))[i as int] == flag_entries(*flags)[i as int].0);
        assert(views(out@) =~= before.push(flag_entries(*flags)[i as int].0));
        assert(views(out@) =~= flag_names(flag_entries(*flags)).subrange(0, i + 1));
        i = i + 1;
    }
    assert(flag_names(flag_entries(*flags)).subrange(0, n as int) =~= flag_names(flag_entries(*flags)));
    out
}

fn parse_build(flags: FlagTable) -> (r: Result<Subcommand, InnerParseError>)
    ensures
        match build_of(flag_entries(flags)) {
            Ok(m) => r matches Ok(s) && s@ == m,
            Err(f) => r matches Err(e) && e@ == f,
        },
{
    let mut flags = flags;
    let is = take_exec(&mut flags, "is");
    let profile = take_exec(&mut flags, "profile");
    let bt = match is {
        None => None,
        Some(v) => match parse_build_type(&v) {
            Ok(b) => Some(b),
            Err(e) => return Err(e),
        },
    };
    let pr = match profile {
        None => owned(DEFAULT_PROFILE),
        Some(v) => match parse_profile(&v) {
            Ok(p) => p,
            Err(e) => return Err(e),
        },
    };
    proof {
        reveal_strlit("default");
    }
    if flags_len(&flags) > 0 {
        return Err(InnerParseError::FoundExtraFlags(flag_name_list(&flags)));
    }
    Ok(Subcommand::Build { build_type: bt, profile: pr })
}

fn parse_run(flags: FlagTable, post: Vec<String>) -> (r: Result<Subcommand, InnerParseError>)
    ensures
        match run_of(flag_entries(flags), views(post@)) {
            Ok(m) => r matches Ok(s) && s@ == m,
            Err(f) => r matches Err(e) && e@ == f,
        },
{
    let mut flags = flags;
    let profile = take_exec(&mut flags, "profile");
    let pr = match profile {
        None => owned(DEFAULT_PROFILE),
        Some(v) => match parse_profile(&v) {
            Ok(p) => p,
            Err(e) => return Err(e),
        },
    };
    proof {
        reveal_strlit("default");
    }
    if flags_len(&flags) > 0 {
        return Err(InnerParseError::FoundExtraFlags(flag_name_list(&flags)));
    }
    Ok(Subcommand::Run { additional_args: post, profile_name: pr })
}

fn parse_new(flags: FlagTable) -> (r: Result<Subcommand, InnerParseError>)
    ensures
        match new_of(flag_entries(flags)) {
            Ok(m) => r matches Ok(s) && s@ == m,
            Err(f) => r matches Err(e) && e@ == f,
        },
{
    let mut flags = flags;
    let is = take_exec(&mut flags, "is");
    let name = take_exec(&mut flags, "name");
    let bt = match is {
        None => return Err(InnerParseError::MissingBuildType),
        Some(v) => match parse_build_type(&v) {
            Ok(b) => b,
            Err(e) => return Err(e),
        },
    };
    let nm = match name {
        None => return Err(InnerParseError::MissingProjectName),
        Some(v) => match parse_name(&v) {
            Ok(p) => p,
            Err(e) => return Err(e),
        },
    };
    if flags_len(&flags) > 0 {
        return Err(InnerParseError::FoundExtraFlags(flag_name_list(&flags)));
    }
    Ok(Subcommand::New { build_type: bt, name: nm })
}

impl Subcommand {
    /// Reads a command line: `pre_dash_dash` holds the subcommand and its
    /// flags, `post_dash_dash` the arguments after the separator.
    pub fn parse(pre_dash_dash: Vec<String>, post_dash_dash: Vec<String>) -> (r: Result<Subcommand, Error>)
        ensures
            match command_of(views(pre_dash_dash@), views(post_dash_dash@)) {
                Ok(m) => r matches Ok(s) && s@ == m,
                Err(f) => r matches Err(e) && e@ == f,
            },
    {
        let mut pre = pre_dash_dash;
        let ghost all = views(pre@);
        let first = if pre.len() > 0 {
            Some(pre.remove(0))
        } else {
            None
        };
        assert(views(pre@) =~= (if all.len() > 0 {
            all.drop_first()
        } else {
            all
        }));
        let flags = match collect_flags(&pre) {
            Ok(f) => f,
            Err(e) => return Err(e),
        };
        match first {
            None => Ok(Subcommand::Help),
            Some(given) => {
                let s = bare_name_exec(given.as_str());
                let s = s.as_str();
                if str_eq(s, "help") || str_eq(s, "h") {
                    Ok(Subcommand::Help)
                } else if str_eq(s, "version") || str_eq(s, "ver") || str_eq(s, "v") {
                    if flags_len(&flags) == 0 {
                        Ok(Subcommand::Version)
                    } else {
                        Err(Error::ParseInner(InnerParseError::ExpectedNoFlags))
                    }
                } else if str_eq(s, "build") || str_eq(s, "b") {
                    match parse_build(flags) {
                        Ok(c) => Ok(c),
                        Err(e) => Err(Error::ParseInner(e)),
                    }
                } else if str_eq(s, "run") || str_eq(s, "r") {
                    match parse_run(flags, post_dash_dash) {
                        Ok(c) => Ok(c),
                        Err(e) => Err(Error::ParseInner(e)),
                    }
                } else if str_eq(s, "new") || str_eq(s, "n") || str_eq(s, "create") || str_eq(s, "c") {
                    match parse_new(flags) {
                        Ok(c) => Ok(c),
                        Err(e) => Err(Error::ParseInner(e)),
                    }
                } else {
                    Err(Error::ParseInvalidSubcommand(given))
                }
            },
        }
    }
}

} // verus!
