//! Properties that relate several functions of the library, proved over their
//! specifications.
use vstd::prelude::*;

use crate::arguments::msvc_arguments;
use crate::arguments::msvc_flags;
use crate::arguments::msvc_includes;
use crate::arguments::msvc_libs;
use crate::arguments::nvcc_arguments;
use crate::arguments::nvcc_flags;
use crate::configuration::src_file_of;
use crate::configuration::target_artifact_file_of;
use crate::configuration::ConfigModel;
use crate::dependency::local_build_stale;
use crate::engine::fresh;
use crate::lsd::find;
use crate::lsd::lemma_find_from;
use crate::lsd::merge_entries;
use crate::lsd::merge_one;
use crate::lsd::merge_pair;
use crate::lsd::nest;
use crate::lsd::split_dots;
use crate::lsd::string_at;
use crate::lsd::Entries;
use crate::lsd::Fault;
use crate::lsd::Node;
use crate::profile::msvc_apply;
use crate::profile::nvcc_apply;
use crate::profile::option_value;
use crate::profile::profile_apply;
use crate::profile::ProfileModel;
use crate::BuildType;

verus! {

/// Whether a key holds no `'.'`.
pub open spec fn dot_free(k: Seq<char>) -> bool {
    forall|i: int| 0 <= i < k.len() ==> k[i] != '.'
}

proof fn lemma_split_plain(k: Seq<char>)
    requires
        dot_free(k),
    ensures
        split_dots(k) == seq![k],
    decreases k.len(),
{
    if k.len() > 0 {
        lemma_split_plain(k.drop_last());
        assert(k.drop_last().push(k.last()) =~= k);
    } else {
        assert(k =~= Seq::<char>::empty());
    }
}

proof fn lemma_split_after_dot(x: Seq<char>, b: Seq<char>)
    requires
        dot_free(b),
    ensures
        split_dots(x + seq!['.'] + b) == split_dots(x).push(b),
    decreases b.len(),
{
    let k = x + seq!['.'] + b;
    if b.len() == 0 {
        assert(k.drop_last() =~= x);
        assert(b =~= Seq::<char>::empty());
    } else {
        lemma_split_after_dot(x, b.drop_last());
        assert(k.drop_last() =~= x + seq!['.'] + b.drop_last());
        assert(b.drop_last().push(b.last()) =~= b);
    }
}

/// A dotted key `a.b` splits into its two parts.
pub proof fn lemma_split_two(a: Seq<char>, b: Seq<char>)
    requires
        dot_free(a),
        dot_free(b),
    ensures
        split_dots(a + seq!['.'] + b) == seq![a, b],
{
    lemma_split_after_dot(a, b);
    lemma_split_plain(a);
    assert(seq![a].push(b) =~= seq![a, b]);
}

/// A dotted key expands into nested levels: merging `a.b value` into a level
/// does exactly what merging `a { b value }` does.
pub proof fn lemma_dotted_key_is_nested_level(acc: Entries, a: Seq<char>, b: Seq<char>, v: Node)
    requires
        dot_free(a),
        dot_free(b),
    ensures
        merge_pair(acc, a + seq!['.'] + b, v) == merge_pair(acc, a, Node::Level(seq![(b, v)])),
{
    lemma_split_two(a, b);
    lemma_split_plain(a);
    let parts = seq![a, b];
    assert(parts.drop_first() =~= seq![b]);
    assert(seq![b].drop_first() =~= Seq::<Seq<char>>::empty());
    assert(seq![a].drop_first() =~= Seq::<Seq<char>>::empty());
    assert(nest(seq![b], v) == Node::Level(seq![(b, nest(Seq::empty(), v))]));
}

proof fn lemma_find_single(k: Seq<char>, v: Node, q: Seq<char>)
    ensures
        find(seq![(k, v)], q) == if k == q {
            Some(0int)
        } else {
            None
        },
{
    let e = seq![(k, v)];
    assert(e[0].0 == k);
    lemma_find_from(e, q, 0);
}

/// Two dotted keys under one first part merge into one level that holds both
/// children, in order: `a.b x` then `a.c y` reads as `a { b x  c y }`.
pub proof fn lemma_dotted_keys_merge(a: Seq<char>, b: Seq<char>, c: Seq<char>, x: Seq<char>, y: Seq<char>)
    requires
        dot_free(a),
        dot_free(b),
        dot_free(c),
        b != c,
    ensures
        ({
            let first = merge_pair(Seq::empty(), a + seq!['.'] + b, Node::Value(x));
            &&& first == Ok::<Entries, Fault>(seq![(a, Node::Level(seq![(b, Node::Value(x))]))])
            &&& merge_pair(first->Ok_0, a + seq!['.'] + c, Node::Value(y)) == Ok::<Entries, Fault>(
                seq![(a, Node::Level(seq![(b, Node::Value(x)), (c, Node::Value(y))]))],
            )
        }),
{
    lemma_dotted_key_is_nested_level(Seq::empty(), a, b, Node::Value(x));
    lemma_split_plain(a);
    assert(seq![a].drop_first() =~= Seq::<Seq<char>>::empty());
    let empty = Seq::<(Seq<char>, Node)>::empty();
    assert(find(empty, a) is None);
    assert(find(empty, b) is None);
    let lb = seq![(b, Node::Value(x))];
    assert(merge_one(empty, b, Node::Value(x)) == Ok::<Entries, Fault>(empty.push((b, Node::Value(x)))));
    assert(empty.push((b, Node::Value(x))) =~= lb);
    assert(lb.drop_first() =~= empty);
    assert(merge_entries(lb, empty) == Ok::<Entries, Fault>(lb));
    assert(merge_entries(empty, lb) == Ok::<Entries, Fault>(lb));
    assert(empty.push((a, Node::Level(lb))) =~= seq![(a, Node::Level(lb))]);
    let first = seq![(a, Node::Level(lb))];
    lemma_dotted_key_is_nested_level(first, a, c, Node::Value(y));
    lemma_find_single(a, Node::Level(lb), a);
    lemma_find_single(b, Node::Value(x), c);
    let lc = seq![(c, Node::Value(y))];
    assert(lc.drop_first() =~= empty);
    let both = lb.push((c, Node::Value(y)));
    assert(merge_one(lb, c, Node::Value(y)) == Ok::<Entries, Fault>(both));
    assert(merge_entries(both, empty) == Ok::<Entries, Fault>(both));
    assert(merge_entries(lb, lc) == Ok::<Entries, Fault>(both));
    assert(both =~= seq![(b, Node::Value(x)), (c, Node::Value(y))]);
    assert(first.update(0, (a, Node::Level(both))) =~= seq![(a, Node::Level(both))]);
}

/// A key that holds a value takes no second value: `a x` then `a y` is a
/// value collision.
pub proof fn lemma_value_collision(a: Seq<char>, x: Seq<char>, y: Seq<char>)
    requires
        dot_free(a),
    ensures
        ({
            let first = merge_pair(Seq::empty(), a, Node::Value(x));
            &&& first == Ok::<Entries, Fault>(seq![(a, Node::Value(x))])
            &&& merge_pair(first->Ok_0, a, Node::Value(y)) == Err::<Entries, Fault>(
                Fault::KeyCollisionValueAlreadyExists(a),
            )
        }),
{
    lemma_split_plain(a);
    assert(seq![a].drop_first() =~= Seq::<Seq<char>>::empty());
    let empty = Seq::<(Seq<char>, Node)>::empty();
    assert(find(empty, a) is None);
    assert(empty.push((a, Node::Value(x))) =~= seq![(a, Node::Value(x))]);
    lemma_find_single(a, Node::Value(x), a);
}

/// A key that holds a value takes no children: `a x` then `a.b y` is a
/// value-versus-level collision.
pub proof fn lemma_value_then_level(a: Seq<char>, b: Seq<char>, x: Seq<char>, y: Seq<char>)
    requires
        dot_free(a),
        dot_free(b),
    ensures
        ({
            let first = merge_pair(Seq::empty(), a, Node::Value(x));
            &&& first == Ok::<Entries, Fault>(seq![(a, Node::Value(x))])
            &&& merge_pair(first->Ok_0, a + seq!['.'] + b, Node::Value(y)) == Err::<Entries, Fault>(
                Fault::KeyCollisionValueWhenShouldBeLevel,
            )
        }),
{
    lemma_value_collision(a, x, y);
    lemma_dotted_key_is_nested_level(seq![(a, Node::Value(x))], a, b, Node::Value(y));
    lemma_split_plain(a);
    assert(seq![a].drop_first() =~= Seq::<Seq<char>>::empty());
    lemma_find_single(a, Node::Value(x), a);
}

/// Merging keeps the order of declaration: the entries already in a level
/// keep their keys and places, and a new key goes last.
pub proof fn lemma_merge_keeps_order(into: Entries, k: Seq<char>, v: Node)
    requires
        merge_one(into, k, v) is Ok,
    ensures
        ({
            let r = merge_one(into, k, v)->Ok_0;
            &&& r.len() >= into.len()
            &&& forall|i: int| 0 <= i < into.len() ==> #[trigger] r[i].0 == into[i].0
            &&& find(into, k) is None ==> r.len() == into.len() + 1 && r.last().0 == k
            &&& find(into, k) is Some ==> r.len() == into.len()
        }),
{
    lemma_find_from(into, k, 0);
}

/// A string with no closing quote after `p` does not read.
pub proof fn lemma_unterminated_string(s: Seq<char>, p: int, close: char)
    requires
        0 <= p,
        forall|k: int| p <= k < s.len() ==> s[k] != close,
    ensures
        string_at(s, p, close) is Err,
    decreases s.len() - p,
{
    if p < s.len() {
        if s[p] == '\\' {
            match crate::lsd::escape_at(s, p + 1) {
                Ok((c, q)) => {
                    if p < q {
                        lemma_unterminated_string(s, q, close);
                    }
                },
                Err(_) => {},
            }
        } else {
            lemma_unterminated_string(s, p + 1, close);
        }
    }
}

/// Whether a level sets none of the options of either backend.
pub open spec fn sets_no_option(l: Entries) -> bool {
    &&& find(l, "compiler_path"@) is None
    &&& find(l, "standard"@) is None
    &&& find(l, "optimize"@) is None
    &&& find(l, "openmp"@) is None
    &&& find(l, "dopt"@) is None
    &&& find(l, "library"@) is None
}

/// Inheriting with an overlay that sets no option gives the inherited
/// profile unchanged, so the same arguments for every configuration, build
/// type and selected profile.
pub proof fn lemma_inherit_without_options(p: ProfileModel, l: Entries)
    requires
        sets_no_option(l),
    ensures
        profile_apply(p, l) == Ok::<ProfileModel, crate::profile::ProfileFault>(p),
{
    assert(option_value(l, "compiler_path"@) == Ok::<Option<Seq<char>>, ()>(None));
    assert(option_value(l, "standard"@) == Ok::<Option<Seq<char>>, ()>(None));
    assert(option_value(l, "optimize"@) == Ok::<Option<Seq<char>>, ()>(None));
    assert(option_value(l, "openmp"@) == Ok::<Option<Seq<char>>, ()>(None));
    assert(option_value(l, "dopt"@) == Ok::<Option<Seq<char>>, ()>(None));
    assert(option_value(l, "library"@) == Ok::<Option<Seq<char>>, ()>(None));
    match p {
        ProfileModel::Msvc(m) => {
            assert(msvc_apply(m, l) == Ok::<crate::profile::MsvcModel, crate::profile::ProfileFault>(m));
        },
        ProfileModel::Nvcc(m) => {
            assert(nvcc_apply(m, l) == Ok::<crate::profile::NvccModel, crate::profile::ProfileFault>(m));
        },
    }
}

/// In the MSVC arguments `/link` comes after every compiler argument and is
/// followed at once by the one `/OUT:` argument; only `/DLL` and the
/// `/LIBPATH:` flags come after.
pub proof fn lemma_msvc_link_order(
    p: crate::profile::MsvcModel,
    c: ConfigModel,
    b: BuildType,
    sel: Seq<char>,
    files: Seq<Seq<Seq<char>>>,
)
    ensures
        ({
            let n = c.dependencies.len() as int;
            let args = msvc_arguments(p, c, b, sel, files);
            let k: int = msvc_flags(p).len() + msvc_includes(c, sel, n).len() + 1 + msvc_libs(files, n).len() as int;
            &&& args[k] == "/link"@
            &&& args[k + 1] == "/OUT:"@ + target_artifact_file_of(c, b, sel, ProfileModel::Msvc(p))
            &&& args[k - 1 - msvc_libs(files, n).len() as int] == src_file_of(c, b, ProfileModel::Msvc(p))
            &&& (b == BuildType::Library <==> args.len() > k + 2 && args[k + 2] == "/DLL"@
                && args.len() == k + 3 + crate::arguments::msvc_libpaths(c, sel, n).len())
        }),
{
    let n = c.dependencies.len() as int;
    let pm = ProfileModel::Msvc(p);
    let head = msvc_flags(p) + msvc_includes(c, sel, n) + seq![src_file_of(c, b, pm)] + msvc_libs(files, n);
    let link = seq!["/link"@, "/OUT:"@ + target_artifact_file_of(c, b, sel, pm)];
    let dll = if b == BuildType::Library {
        seq!["/DLL"@]
    } else {
        Seq::<Seq<char>>::empty()
    };
    let tail = crate::arguments::msvc_libpaths(c, sel, n);
    let args = msvc_arguments(p, c, b, sel, files);
    assert(args =~= head + link + dll + tail);
    let k: int = head.len() as int;
    assert(args[k] == link[0]);
    assert(args[k + 1] == link[1]);
    let lead = msvc_flags(p) + msvc_includes(c, sel, n);
    assert(head[lead.len() as int] == src_file_of(c, b, pm));
    if b == BuildType::Library {
        assert(args[k + 2] == dll[0]);
    } else {
        if args.len() > k + 2 {
            assert(args.len() == k + 2 + tail.len());
        }
    }
}

/// In the NVCC arguments `--output-file` comes right before the artifact,
/// which comes right before the source file, last.
pub proof fn lemma_nvcc_order(p: crate::profile::NvccModel, c: ConfigModel, b: BuildType, sel: Seq<char>, files: Seq<Seq<Seq<char>>>)
    ensures
        ({
            let args = nvcc_arguments(p, c, b, sel, files);
            let n = args.len();
            &&& n >= 3
            &&& args[n - 3] == "--output-file"@
            &&& args[n - 2] == target_artifact_file_of(c, b, sel, ProfileModel::Nvcc(p))
            &&& args[n - 1] == src_file_of(c, b, ProfileModel::Nvcc(p))
        }),
{
}

/// A build that recached nothing, over a target newer than its configuration
/// and sources, is fresh: the next build does not run the compiler.
pub proof fn lemma_second_build_is_fresh(target_time: int, config_time: int, src_time: int)
    requires
        target_time >= config_time,
        target_time >= src_time,
    ensures
        fresh(false, true, target_time, config_time, src_time),
{
}

/// A source change newer than the target makes the target stale: the next
/// build runs the compiler.
pub proof fn lemma_source_change_is_stale(any_recached: bool, target_exists: bool, target_time: int, config_time: int, src_time: int)
    requires
        src_time > target_time,
    ensures
        !fresh(any_recached, target_exists, target_time, config_time, src_time),
{
}

/// A change to a local-build dependency's sources, newer than its cache,
/// makes it recache, and a recache makes the dependent project rebuild.
pub proof fn lemma_dependency_change_rebuilds(
    target_exists: bool,
    cache_time: int,
    config_time: int,
    src_time: int,
    dep_target_time: int,
    target_time: int,
    parent_config_time: int,
    parent_src_time: int,
)
    requires
        src_time > cache_time,
    ensures
        local_build_stale(target_exists, cache_time, config_time, src_time, dep_target_time),
        !fresh(true, true, target_time, parent_config_time, parent_src_time),
{
}

/// Whether `s` holds a `'/'`.
pub open spec fn has_slash(s: Seq<char>) -> bool {
    exists|i: int| 0 <= i < s.len() && s[i] == '/'
}

/// Whether `s` ends with `t`.
pub open spec fn ends_with(s: Seq<char>, t: Seq<char>) -> bool {
    t.len() <= s.len() && s.subrange(s.len() - t.len(), s.len() as int) == t
}

proof fn lemma_join_shape(a: Seq<char>, b: Seq<char>)
    requires
        b.len() > 0,
    ensures
        ends_with(crate::paths::join(a, b), b),
        (a.len() > 0 || b[0] == '/') ==> has_slash(crate::paths::join(a, b)),
        crate::paths::join(a, b).len() >= b.len(),
{
    let j = crate::paths::join(a, b);
    assert(j.subrange(j.len() - b.len(), j.len() as int) =~= b);
    if b[0] == '/' {
        assert(j[0] == '/');
    } else if a.len() > 0 {
        if a.last() == '/' {
            assert(j[a.len() - 1] == '/');
        } else {
            assert(j[a.len() as int] == '/');
        }
    }
}

proof fn lemma_join_nonempty(a: Seq<char>, b: Seq<char>)
    requires
        a.len() > 0 || b.len() > 0,
    ensures
        crate::paths::join(a, b).len() > 0,
{
}

proof fn lemma_linkables_from(fs: Seq<Seq<char>>)
    ensures
        forall|i: int| 0 <= i < crate::arguments::linkables(fs).len() ==> fs.contains(#[trigger] crate::arguments::linkables(fs)[i]),
        (forall|i: int, j: int| 0 <= i < j < fs.len() ==> fs[i] != fs[j]) ==> forall|i: int, j: int|
            0 <= i < j < crate::arguments::linkables(fs).len() ==> crate::arguments::linkables(fs)[i]
                != crate::arguments::linkables(fs)[j],
    decreases fs.len(),
{
    if fs.len() > 0 {
        let init = fs.drop_last();
        lemma_linkables_from(init);
        let l = crate::arguments::linkables(fs);
        let li = crate::arguments::linkables(init);
        assert forall|i: int| 0 <= i < l.len() implies fs.contains(#[trigger] l[i]) by {
            if i < li.len() {
                assert(l[i] == li[i]);
                let k = choose|k: int| 0 <= k < init.len() && init[k] == li[i];
                assert(fs[k] == l[i]);
            } else {
                assert(l[i] == fs.last());
                assert(fs[fs.len() - 1] == l[i]);
            }
        }
        if forall|i: int, j: int| 0 <= i < j < fs.len() ==> fs[i] != fs[j] {
            assert(forall|i: int, j: int| 0 <= i < j < init.len() ==> init[i] != init[j]) by {
                assert forall|i: int, j: int| 0 <= i < j < init.len() implies init[i] != init[j] by {
                    assert(init[i] == fs[i] && init[j] == fs[j]);
                }
            }
            assert forall|i: int, j: int| 0 <= i < j < l.len() implies l[i] != l[j] by {
                if j >= li.len() {
                    assert(l[j] == fs.last());
                    assert(l[i] == li[i]);
                    let k = choose|k: int| 0 <= k < init.len() && init[k] == li[i];
                    assert(fs[k] == init[k]);
                    assert(fs[k] != fs[fs.len() - 1]);
                } else {
                    assert(l[i] == li[i] && l[j] == li[j]);
                }
            }
        }
    }
}

/// A class of an MSVC argument read off its characters: file names hold no
/// `'/'`, paths end in `include`, `.cpp`, or a flag's second character.
pub open spec fn arg_class(x: Seq<char>) -> int {
    if !has_slash(x) {
        0
    } else if x.len() >= 2 && x.last() == 'e' && x[x.len() - 2] == 'd' {
        1
    } else if x.len() >= 2 && x.last() == 'p' && x[x.len() - 2] == 'p' {
        2
    } else if x.len() < 2 || x[0] != '/' {
        11
    } else if x[1] == 'o' {
        3
    } else if x[1] == 'O' && x.len() == 3 {
        4
    } else if x[1] == 's' {
        5
    } else if x[1] == 'I' {
        6
    } else if x[1] == 'l' {
        7
    } else if x[1] == 'O' {
        8
    } else if x[1] == 'D' {
        9
    } else if x[1] == 'L' {
        10
    } else {
        11
    }
}

proof fn lemma_last_two(s: Seq<char>, t: Seq<char>)
    requires
        ends_with(s, t),
        t.len() >= 2,
    ensures
        s.last() == t.last(),
        s[s.len() - 2] == t[t.len() - 2],
{
    let o = s.len() - t.len();
    assert(s.subrange(o, s.len() as int)[t.len() - 1] == s[s.len() - 1]);
    assert(s.subrange(o, s.len() as int)[t.len() - 2] == s[s.len() - 2]);
}

proof fn lemma_slash_prefixed(a: Seq<char>, b: Seq<char>)
    requires
        a.len() >= 2,
        a[0] == '/',
        b.len() >= 2,
    ensures
        has_slash(a + b),
        (a + b)[0] == '/',
        (a + b)[1] == a[1],
        (a + b).last() == b.last(),
        (a + b)[(a + b).len() - 2] == b[b.len() - 2],
        (a + b).len() == a.len() + b.len(),
{
    assert((a + b)[0] == '/');
}

/// No argument occurs twice in the MSVC arguments of a project with at most
/// one dependency, whose library directory lists distinct names without `'/'`.
/// (With two dependencies `/I` itself occurs twice.)
#[verifier::spinoff_prover]
#[verifier::rlimit(100)]
pub proof fn lemma_msvc_no_repeats(
    p: crate::profile::MsvcModel,
    c: ConfigModel,
    b: BuildType,
    sel: Seq<char>,
    files: Seq<Seq<Seq<char>>>,
)
    requires
        c.dependencies.len() <= 1,
        files.len() == c.dependencies.len(),
        forall|k: int, i: int, j: int|
            0 <= k < files.len() && 0 <= i < j < files[k].len() ==> files[k][i] != files[k][j],
        forall|k: int, i: int| 0 <= k < files.len() && 0 <= i < files[k].len() ==> !has_slash(#[trigger] files[k][i]),
    ensures
        ({
            let args = msvc_arguments(p, c, b, sel, files);
            forall|i: int, j: int| 0 <= i < j < args.len() ==> args[i] != args[j]
        }),
{
    reveal_strlit("/openmp");
    reveal_strlit("/O");
    reveal_strlit("1");
    reveal_strlit("2");
    reveal_strlit("/std:");
    reveal_strlit("c++14");
    reveal_strlit("c++17");
    reveal_strlit("c++20");
    reveal_strlit("c++latest");
    reveal_strlit("c11");
    reveal_strlit("c17");
    reveal_strlit("/I");
    reveal_strlit("/link");
    reveal_strlit("/OUT:");
    reveal_strlit("/DLL");
    reveal_strlit("/LIBPATH:");
    reveal_strlit("include");
    reveal_strlit("lib");
    reveal_strlit("src");
    reveal_strlit("main");
    reveal_strlit(".cpp");
    reveal_strlit(".exe");
    reveal_strlit(".dll");
    reveal_strlit(".lib");
    reveal_strlit("cache");
    reveal_strlit("target");
    reveal_strlit("artifact");
    reveal_strlit("");
    let n = c.dependencies.len() as int;
    let pm = ProfileModel::Msvc(p);
    let f = msvc_flags(p);
    let inc_part = msvc_includes(c, sel, n);
    let src = src_file_of(c, b, pm);
    let libs = msvc_libs(files, n);
    let art = target_artifact_file_of(c, b, sel, pm);
    let out = "/OUT:"@ + art;
    let dll = if b == BuildType::Library {
        seq!["/DLL"@]
    } else {
        Seq::<Seq<char>>::empty()
    };
    let paths = crate::arguments::msvc_libpaths(c, sel, n);
    let args = msvc_arguments(p, c, b, sel, files);
    assert(args =~= f + inc_part + seq![src] + libs + seq!["/link"@, out] + dll + paths);

    // the flags
    assert forall|k: int| 0 <= k < f.len() implies 3 <= #[trigger] arg_class(f[k]) <= 5 && forall|k2: int|
        k < k2 < f.len() ==> arg_class(f[k]) < arg_class(f[k2]) by {
        let o = if p.openmp {
            seq!["/openmp"@]
        } else {
            Seq::<Seq<char>>::empty()
        };
        let q = match p.optimize {
            Some(x) => seq!["/O"@ + crate::profile::msvc_optimize_text(x)],
            None => Seq::<Seq<char>>::empty(),
        };
        let r = match p.standard {
            Some(x) => seq!["/std:"@ + crate::profile::msvc_standard_text(x)],
            None => Seq::<Seq<char>>::empty(),
        };
        assert(f == o + q + r);
        if p.openmp {
            assert("/openmp"@[1] == 'o');
            assert("/openmp"@[0] == '/');
            assert(arg_class("/openmp"@) == 3);
        }
        if let Some(x) = p.optimize {
            let t = "/O"@ + crate::profile::msvc_optimize_text(x);
            assert(t.len() == 3 && t[0] == '/' && t[1] == 'O');
            assert(has_slash(t));
            assert(arg_class(t) == 4);
        }
        if let Some(x) = p.standard {
            let t = "/std:"@ + crate::profile::msvc_standard_text(x);
            assert(t[0] == '/' && t[1] == 's');
            assert(has_slash(t));
            assert(t.last() != 'e' && t.last() != 'p');
            assert(arg_class(t) == 5);
        }
    }

    // the paths of the project
    lemma_join_nonempty(c.project_dir, "src"@);
    lemma_join_shape(crate::configuration::src_dir_of(c), crate::src_stem(b) + crate::profile::src_suffix(pm));
    lemma_last_two(src, crate::src_stem(b) + crate::profile::src_suffix(pm));
    assert(arg_class(src) == 2);

    let name = crate::profile::artifact_prefix_of(pm, b, c.os) + c.name + crate::profile::artifact_suffix_of(pm, b, c.os);
    let suffix = crate::profile::artifact_suffix_of(pm, b, c.os);
    assert(suffix.len() == 4);
    assert(ends_with(name, suffix)) by {
        assert(name.subrange(name.len() - 4, name.len() as int) =~= suffix);
    }
    lemma_join_shape(crate::configuration::target_artifact_dir_of(c, sel), name);
    lemma_last_two(art, name);
    lemma_last_two(name, suffix);
    lemma_slash_prefixed("/OUT:"@, art);
    assert(arg_class(out) == 8);
    assert(arg_class("/link"@) == 7) by {
        assert("/link"@[0] == '/');
    }
    assert(arg_class("/DLL"@) == 9) by {
        assert("/DLL"@[0] == '/');
    }

    // the dependency
    if n == 1 {
        let (alias, d) = c.dependencies[0];
        let cd = crate::configuration::cache_dir_of(c);
        lemma_join_nonempty(c.project_dir, "cache"@);
        let a = crate::paths::join(cd, alias);
        lemma_join_nonempty(cd, alias);
        let v = crate::dependency::version_of(d);
        let pr = crate::dependency::profile_for(d, sel);
        let bv = if v.len() > 0 {
            crate::paths::join(a, v)
        } else {
            a
        };
        lemma_join_nonempty(a, v);
        let base = if pr.len() > 0 {
            crate::paths::join(bv, pr)
        } else {
            bv
        };
        lemma_join_nonempty(bv, pr);
        assert(base == crate::configuration::cache_dep_dir_of(c, alias, v, pr));
        let (inc, lib) = crate::arguments::dep_dirs(c, 0, sel);
        lemma_join_shape(base, "include"@);
        lemma_join_shape(base, "lib"@);
        lemma_last_two(inc, "include"@);
        lemma_last_two(lib, "lib"@);
        assert(arg_class(inc) == 1);
        assert(arg_class("/I"@) == 6) by {
            assert("/I"@[0] == '/');
        }
        lemma_slash_prefixed("/LIBPATH:"@, lib);
        assert(arg_class("/LIBPATH:"@ + lib) == 10);
        assert(msvc_includes(c, sel, 0) == Seq::<Seq<char>>::empty());
        assert(crate::arguments::msvc_libpaths(c, sel, 0) == Seq::<Seq<char>>::empty());
        assert(msvc_libs(files, 0) == Seq::<Seq<char>>::empty());
        assert(inc == crate::arguments::dep_dirs(c, n - 1, sel).0);
        assert(lib == crate::arguments::dep_dirs(c, n - 1, sel).1);
        assert(inc_part =~= seq!["/I"@, inc]);
        assert(paths =~= seq!["/LIBPATH:"@ + lib]);
        assert(libs =~= crate::arguments::linkables(files[0]));
        lemma_linkables_from(files[0]);
        assert forall|k: int| 0 <= k < libs.len() implies arg_class(#[trigger] libs[k]) == 0 by {
            let m = choose|m: int| 0 <= m < files[0].len() && files[0][m] == libs[k];
            assert(!has_slash(files[0][m]));
        }
    } else {
        assert(inc_part =~= Seq::<Seq<char>>::empty());
        assert(paths =~= Seq::<Seq<char>>::empty());
        assert(libs =~= Seq::<Seq<char>>::empty());
    }

    let fl = f.len() as int;
    let il = inc_part.len() as int;
    let ll = libs.len() as int;
    let s0 = fl + il;
    let m0 = s0 + 1 + ll;
    assert forall|i: int, j: int| 0 <= i < j < args.len() implies args[i] != args[j] by {
        if i < fl {
            assert(args[i] == f[i]);
        } else if i < s0 {
            assert(args[i] == inc_part[i - fl]);
        } else if i == s0 {
            assert(args[i] == src);
        } else if i < m0 {
            assert(args[i] == libs[i - s0 - 1]);
        } else if i == m0 {
            assert(args[i] == "/link"@);
        } else if i == m0 + 1 {
            assert(args[i] == out);
        } else if i < m0 + 2 + dll.len() {
            assert(args[i] == "/DLL"@);
        } else {
            assert(args[i] == paths[i - m0 - 2 - dll.len()]);
        }
        if j < fl {
            assert(args[j] == f[j]);
        } else if j < s0 {
            assert(args[j] == inc_part[j - fl]);
        } else if j == s0 {
            assert(args[j] == src);
        } else if j < m0 {
            assert(args[j] == libs[j - s0 - 1]);
        } else if j == m0 {
            assert(args[j] == "/link"@);
        } else if j == m0 + 1 {
            assert(args[j] == out);
        } else if j < m0 + 2 + dll.len() {
            assert(args[j] == "/DLL"@);
        } else {
            assert(args[j] == paths[j - m0 - 2 - dll.len()]);
        }
        if s0 < i < m0 && s0 < j < m0 {
            assert(libs[i - s0 - 1] != libs[j - s0 - 1]);
        } else {
            assert(arg_class(args[i]) != arg_class(args[j]));
        }
    }
}

proof fn lemma_nvcc_library_args(fs: Seq<Seq<char>>)
    ensures
        forall|k: int| 0 <= k < crate::arguments::nvcc_libraries(fs).len() ==> {
            let x = #[trigger] crate::arguments::nvcc_libraries(fs)[k];
            x.len() >= 3 && x[2] == 'l'
        },
    decreases fs.len(),
{
    reveal_strlit("--library=\"");
    if fs.len() > 0 {
        lemma_nvcc_library_args(fs.drop_last());
        let l = crate::arguments::nvcc_libraries(fs);
        let li = crate::arguments::nvcc_libraries(fs.drop_last());
        assert forall|k: int| 0 <= k < l.len() implies {
            let x = #[trigger] l[k];
            x.len() >= 3 && x[2] == 'l'
        } by {
            if k < li.len() {
                assert(l[k] == li[k]);
            } else {
                let x = crate::arguments::quoted("--library=\""@, crate::text::file_name_parts(fs.last()).0);
                assert(l[k] == x);
                assert(x[2] == "--library=\""@[2]);
            }
        }
    }
}

proof fn lemma_nvcc_dep_args(c: ConfigModel, sel: Seq<char>, files: Seq<Seq<Seq<char>>>, n: int)
    requires
        0 <= n <= files.len(),
    ensures
        forall|k: int| 0 <= k < crate::arguments::nvcc_deps(c, sel, files, n).len() ==> {
            let x = #[trigger] crate::arguments::nvcc_deps(c, sel, files, n)[k];
            x.len() >= 3 && (x[2] == 'l' || x[2] == 'i')
        },
    decreases n,
{
    reveal_strlit("--include-path=\"");
    reveal_strlit("--library-path=\"");
    if n > 0 {
        lemma_nvcc_dep_args(c, sel, files, n - 1);
        lemma_nvcc_library_args(files[n - 1]);
        let d = crate::arguments::nvcc_deps(c, sel, files, n);
        let d0 = crate::arguments::nvcc_deps(c, sel, files, n - 1);
        let inc = crate::arguments::quoted("--include-path=\""@, crate::arguments::dep_dirs(c, n - 1, sel).0);
        let lib = crate::arguments::quoted("--library-path=\""@, crate::arguments::dep_dirs(c, n - 1, sel).1);
        let ls = crate::arguments::nvcc_libraries(files[n - 1]);
        assert(d =~= d0 + seq![inc, lib] + ls);
        assert(inc[2] == 'i');
        assert(lib[2] == 'l');
        assert forall|k: int| 0 <= k < d.len() implies {
            let x = #[trigger] d[k];
            x.len() >= 3 && (x[2] == 'l' || x[2] == 'i')
        } by {
            if k < d0.len() {
                assert(d[k] == d0[k]);
            } else if k < d0.len() + 2 {
            } else {
                assert(d[k] == ls[k - d0.len() - 2]);
            }
        }
    }
}

/// `--shared` is among the NVCC arguments exactly when a library is built
/// (a static library has no arguments: it is refused before).
#[verifier::spinoff_prover]
#[verifier::rlimit(100)]
pub proof fn lemma_nvcc_shared(
    p: crate::profile::NvccModel,
    c: ConfigModel,
    b: BuildType,
    sel: Seq<char>,
    files: Seq<Seq<Seq<char>>>,
)
    requires
        files.len() == c.dependencies.len(),
    ensures
        nvcc_arguments(p, c, b, sel, files).contains("--shared"@) <==> b == BuildType::Library,
{
    reveal_strlit("--shared");
    reveal_strlit("--optimize");
    reveal_strlit("--dopt");
    reveal_strlit("--std");
    reveal_strlit("--output-file");
    reveal_strlit("0");
    reveal_strlit("1");
    reveal_strlit("2");
    reveal_strlit("3");
    reveal_strlit("s");
    reveal_strlit("fast");
    reveal_strlit("g");
    reveal_strlit("z");
    reveal_strlit("c++03");
    reveal_strlit("c++11");
    reveal_strlit("c++14");
    reveal_strlit("c++17");
    reveal_strlit("c++20");
    reveal_strlit("artifact");
    reveal_strlit(".cu");
    reveal_strlit("main");
    reveal_strlit("lib");
    let n = c.dependencies.len() as int;
    let pm = ProfileModel::Nvcc(p);
    let f = nvcc_flags(p, b);
    let d = crate::arguments::nvcc_deps(c, sel, files, n);
    let art = target_artifact_file_of(c, b, sel, pm);
    let src = src_file_of(c, b, pm);
    let args = nvcc_arguments(p, c, b, sel, files);
    let sh = "--shared"@;
    assert(args =~= f + d + seq!["--output-file"@, art, src]);
    if b == BuildType::Library {
        assert(f.last() == sh);
        assert(args[f.len() - 1] == sh);
    } else {
        lemma_nvcc_dep_args(c, sel, files, n);
        // the artifact: an absolute name, or longer than the flag
        let adir = crate::configuration::target_artifact_dir_of(c, sel);
        let name = crate::profile::artifact_prefix_of(pm, b, c.os) + c.name + crate::profile::artifact_suffix_of(
            pm,
            b,
            c.os,
        );
        lemma_join_shape(crate::configuration::target_dir_of(c, sel), "artifact"@);
        assert(art != sh) by {
            if name.len() > 0 && name[0] == '/' {
                assert(art[0] == '/');
            } else {
                assert(art.len() > adir.len());
            }
        }
        // the source file ends in `.cu`
        lemma_join_shape(crate::configuration::src_dir_of(c), crate::src_stem(b) + ".cu"@);
        lemma_last_two(src, crate::src_stem(b) + ".cu"@);
        assert(src != sh) by {
            assert(src.last() == 'u');
        }
        assert forall|k: int| 0 <= k < args.len() implies args[k] != sh by {
            if k < f.len() {
                assert(args[k] == f[k]);
                let o = match p.optimize {
                    Some(x) => seq!["--optimize"@, crate::profile::nvcc_optimize_text(x)],
                    None => Seq::<Seq<char>>::empty(),
                };
                let dp = if p.optimize_device {
                    seq!["--dopt"@]
                } else {
                    Seq::<Seq<char>>::empty()
                };
                let st = match p.standard {
                    Some(x) => seq!["--std"@, crate::profile::nvcc_standard_text(x)],
                    None => Seq::<Seq<char>>::empty(),
                };
                assert(f =~= o + dp + st);
                assert(f[k].len() != 8 || f[k][2] != 's');
            } else if k < f.len() + d.len() {
                assert(args[k] == d[k - f.len()]);
            } else if k == f.len() + d.len() {
                assert(args[k][2] == 'o');
            }
        }
    }
}

/// A plain word: not empty, no whitespace or `'.'`, and not starting with a
/// quote or a bracket.
pub open spec fn plain_word(w: Seq<char>) -> bool {
    &&& w.len() > 0
    &&& forall|i: int| 0 <= i < w.len() ==> !crate::text::is_space(#[trigger] w[i]) && w[i] != '.'
    &&& w[0] != '"' && w[0] != '\'' && w[0] != '{' && w[0] != '[' && w[0] != '}' && w[0] != ']'
}

proof fn lemma_word_end_at(s: Seq<char>, i: int, e: int)
    requires
        0 <= i <= e <= s.len(),
        forall|k: int| i <= k < e ==> !crate::text::is_space(#[trigger] s[k]),
        e == s.len() || crate::text::is_space(s[e]),
    ensures
        crate::text::word_end(s, i, s.len() as int) == e,
    decreases e - i,
{
    if i < e {
        lemma_word_end_at(s, i + 1, e);
    }
}

proof fn lemma_line_end_at(s: Seq<char>, i: int, e: int)
    requires
        0 <= i <= e < s.len(),
        forall|k: int| i <= k < e ==> #[trigger] s[k] != '\n',
        s[e] == '\n',
    ensures
        crate::lsd::line_end(s, i) == e,
    decreases e - i,
{
    if i < e {
        lemma_line_end_at(s, i + 1, e);
    }
}

proof fn lemma_trimmed_plain(s: Seq<char>, lo: int, hi: int)
    requires
        0 <= lo <= hi <= s.len(),
        forall|k: int| lo <= k < hi ==> !crate::text::is_space(#[trigger] s[k]),
    ensures
        crate::text::trimmed(s, lo, hi) == s.subrange(lo, hi),
{
}

/// Reads `w + " " + rest` at `p` in `s` as a key followed by a value that
/// ends its line: the key, and what follows.
proof fn lemma_read_pair(s: Seq<char>, p: int, k: Seq<char>, v: Seq<char>)
    requires
        0 <= p,
        p + k.len() + v.len() + 2 <= s.len(),
        k.len() > 0,
        forall|i: int| 0 <= i < k.len() ==> !crate::text::is_space(#[trigger] k[i]),
        k[0] != '"' && k[0] != '\'' && k[0] != '}' && k[0] != ']',
        plain_word(v),
        s.subrange(p, p + k.len()) == k,
        s[p + k.len()] == ' ',
        s.subrange(p + k.len() + 1, p + k.len() + 1 + v.len()) == v,
        s[p + k.len() + 1 + v.len()] == '\n',
    ensures
        crate::lsd::filled_at(s, p) == (Some(k[0]), p + 1),
        crate::lsd::key_at(s, p + 1, k[0]) == Ok::<(Seq<char>, int), Fault>((k, p + k.len() + 1)),
        crate::lsd::filled_at(s, p + k.len() + 1) == (Some(v[0]), p + k.len() + 2),
        crate::lsd::value_at(s, p + k.len() + 2, true, v[0]) == Ok::<(Node, int), Fault>(
            (Node::Value(v), p + k.len() + v.len() + 2),
        ),
{
    let kl = k.len() as int;
    let vl = v.len() as int;
    assert(s[p] == k[0]);
    assert forall|i: int| p + 1 <= i < p + kl implies !crate::text::is_space(#[trigger] s[i]) by {
        assert(s[i] == k[i - p]);
    }
    reveal_strlit(" ");
    assert(crate::text::is_space(' '));
    lemma_word_end_at(s, p + 1, p + kl);
    assert(seq![k[0]] + s.subrange(p + 1, p + kl) =~= k);
    assert(s[p + kl + 1] == v[0]);
    let q = p + kl + 2;
    let le = p + kl + 1 + vl;
    assert forall|i: int| q <= i < le implies #[trigger] s[i] != '\n' && !crate::text::is_space(s[i]) by {
        assert(s[i] == v[i - p - kl - 1]);
    }
    lemma_line_end_at(s, q, le);
    lemma_trimmed_plain(s, q, le);
    if vl > 1 {
        assert(seq![v[0]] + s.subrange(q, le) =~= v);
    } else {
        assert(s.subrange(q, le) =~= Seq::<char>::empty());
        assert(seq![v[0]] + Seq::<char>::empty() =~= v);
    }
}

#[verifier::spinoff_prover]
#[verifier::rlimit(100)]
proof fn lemma_dotted_text(a: Seq<char>, b: Seq<char>, c: Seq<char>)
    requires
        plain_word(a),
        plain_word(b),
        plain_word(c),
    ensures
        crate::lsd::parse_text(a + seq!['.'] + b + seq![' '] + c + seq!['\n']) == Ok::<Node, Fault>(
            Node::Level(seq![(a, Node::Level(seq![(b, Node::Value(c))]))]),
        ),
{
    let t1 = a + seq!['.'] + b + seq![' '] + c + seq!['\n'];
    let t2 = a + seq![' ', '{', '\n'] + b + seq![' '] + c + seq!['\n', '}', '\n'];
    let al = a.len() as int;
    let bl = b.len() as int;
    let cl = c.len() as int;
    let empty = Seq::<(Seq<char>, Node)>::empty();
    let nested = seq![(a, Node::Level(seq![(b, Node::Value(c))]))];
    assert(dot_free(a) && dot_free(b) && dot_free(c));
    lemma_dotted_keys_merge(a, b, b + seq!['x'], c, c);
    // the dotted text
    let key = a + seq!['.'] + b;
    let kl = key.len() as int;
    assert forall|i: int| 0 <= i < key.len() implies !crate::text::is_space(#[trigger] key[i]) by {
        if i < al {
            assert(key[i] == a[i]);
        } else if i > al {
            assert(key[i] == b[i - al - 1]);
        }
    }
    assert(t1.subrange(0, kl) =~= key);
    assert(t1.subrange(kl + 1, kl + 1 + cl) =~= c);
    lemma_read_pair(t1, 0, key, c);
    let n1 = t1.len() as int;
    assert(n1 == kl + cl + 2);
    assert(crate::lsd::filled_at(t1, n1) == (None::<char>, n1));
    assert(crate::lsd::body_at(t1, n1, false, nested) == Ok::<(Seq<(Seq<char>, Node)>, int), Fault>((nested, n1)));
    assert(crate::lsd::body_at(t1, 0, false, empty) == Ok::<(Seq<(Seq<char>, Node)>, int), Fault>((nested, n1)));

}

#[verifier::spinoff_prover]
#[verifier::rlimit(100)]
proof fn lemma_nested_text(a: Seq<char>, b: Seq<char>, c: Seq<char>)
    requires
        plain_word(a),
        plain_word(b),
        plain_word(c),
    ensures
        crate::lsd::parse_text(a + seq![' ', '{', '\n'] + b + seq![' '] + c + seq!['\n', '}', '\n']) == Ok::<Node, Fault>(
            Node::Level(seq![(a, Node::Level(seq![(b, Node::Value(c))]))]),
        ),
{
    let t1 = a + seq!['.'] + b + seq![' '] + c + seq!['\n'];
    let t2 = a + seq![' ', '{', '\n'] + b + seq![' '] + c + seq!['\n', '}', '\n'];
    let al = a.len() as int;
    let bl = b.len() as int;
    let cl = c.len() as int;
    let empty = Seq::<(Seq<char>, Node)>::empty();
    let nested = seq![(a, Node::Level(seq![(b, Node::Value(c))]))];
    assert(dot_free(a) && dot_free(b) && dot_free(c));
    lemma_dotted_keys_merge(a, b, b + seq!['x'], c, c);
    lemma_dotted_key_is_nested_level(empty, a, b, Node::Value(c));
    // the nested text
    let n2 = t2.len() as int;
    let p = al + 3;
    assert(t2[0] == a[0]);
    assert forall|i: int| 1 <= i < al implies !crate::text::is_space(#[trigger] t2[i]) by {
        assert(t2[i] == a[i]);
    }
    assert(t2[al] == ' ');
    assert(crate::text::is_space(' '));
    lemma_word_end_at(t2, 1, al);
    assert(seq![a[0]] + t2.subrange(1, al) =~= a);
    assert(crate::lsd::key_at(t2, 1, a[0]) == Ok::<(Seq<char>, int), Fault>((a, al + 1)));
    assert(t2[al + 1] == '{');
    assert(crate::lsd::filled_at(t2, al + 1) == (Some('{'), al + 2));
    assert(t2[al + 2] == '\n');
    assert(crate::lsd::inline_end(t2, al + 2) == al + 2);
    assert(t2.subrange(p, p + bl) =~= b);
    assert(t2.subrange(p + bl + 1, p + bl + 1 + cl) =~= c);
    lemma_read_pair(t2, p, b, c);
    lemma_split_plain(b);
    assert(seq![b].drop_first() =~= Seq::<Seq<char>>::empty());
    assert(find(empty, b) is None);
    assert(empty.push((b, Node::Value(c))) =~= seq![(b, Node::Value(c))]);
    let inner = seq![(b, Node::Value(c))];
    assert(merge_pair(empty, b, Node::Value(c)) == Ok::<Entries, Fault>(inner));
    let close = p + bl + cl + 2;
    assert(t2[close] == '}');
    assert(crate::lsd::filled_at(t2, close) == (Some('}'), close + 1));
    assert(crate::lsd::body_at(t2, close, true, inner) == Ok::<(Seq<(Seq<char>, Node)>, int), Fault>((inner, close + 1)));
    assert(crate::lsd::body_at(t2, p, true, empty) == Ok::<(Seq<(Seq<char>, Node)>, int), Fault>((inner, close + 1)));
    assert(crate::lsd::level_at(t2, al + 2) == Ok::<(Seq<(Seq<char>, Node)>, int), Fault>((inner, close + 1)));
    assert(t2[close + 1] == '\n');
    lemma_line_end_at(t2, close + 1, close + 1);
    assert(crate::lsd::line_at(t2, close + 1) == (None::<Seq<char>>, n2));
    assert(crate::lsd::value_at(t2, al + 2, true, '{') == Ok::<(Node, int), Fault>((Node::Level(inner), n2)));
    assert(crate::lsd::filled_at(t2, n2) == (None::<char>, n2));
    assert(crate::lsd::body_at(t2, n2, false, nested) == Ok::<(Seq<(Seq<char>, Node)>, int), Fault>((nested, n2)));
    assert(crate::lsd::body_at(t2, 0, false, empty) == Ok::<(Seq<(Seq<char>, Node)>, int), Fault>((nested, n2)));}

/// `a.b c` on a line of its own reads exactly as `a {`, `b c`, `}` on three
/// lines: one level `a` that holds the value `c` under `b`.
pub proof fn lemma_dotted_text_is_nested_text(a: Seq<char>, b: Seq<char>, c: Seq<char>)
    requires
        plain_word(a),
        plain_word(b),
        plain_word(c),
    ensures
        crate::lsd::parse_text(a + seq!['.'] + b + seq![' '] + c + seq!['\n']) == crate::lsd::parse_text(
            a + seq![' ', '{', '\n'] + b + seq![' '] + c + seq!['\n', '}', '\n'],
        ),
        crate::lsd::parse_text(a + seq!['.'] + b + seq![' '] + c + seq!['\n']) == Ok::<Node, Fault>(
            Node::Level(seq![(a, Node::Level(seq![(b, Node::Value(c))]))]),
        ),
{
    lemma_dotted_text(a, b, c);
    lemma_nested_text(a, b, c);
}

proof fn lemma_inline_end_at(s: Seq<char>, i: int, e: int)
    requires
        0 <= i <= e < s.len(),
        forall|k: int| i <= k < e ==> #[trigger] s[k] != '}' && s[k] != '\n',
        s[e] == '}' || s[e] == '\n',
    ensures
        crate::lsd::inline_end(s, i) == e,
    decreases e - i,
{
    if i < e {
        lemma_inline_end_at(s, i + 1, e);
    }
}

/// Reads the key `k` at the start of `s`, followed by a space.
proof fn lemma_read_key(s: Seq<char>, k: Seq<char>)
    requires
        plain_word(k),
        k.len() < s.len(),
        s.subrange(0, k.len() as int) == k,
        s[k.len() as int] == ' ',
    ensures
        crate::lsd::filled_at(s, 0) == (Some(k[0]), 1int),
        crate::lsd::key_at(s, 1, k[0]) == Ok::<(Seq<char>, int), Fault>((k, k.len() as int + 1)),
{
    let kl = k.len() as int;
    assert(s[0] == k[0]);
    assert forall|i: int| 1 <= i < kl implies !crate::text::is_space(#[trigger] s[i]) by {
        assert(s[i] == k[i]);
    }
    assert(crate::text::is_space(' '));
    lemma_word_end_at(s, 1, kl);
    assert(seq![k[0]] + s.subrange(1, kl) =~= k);
}

/// `k { }` on one line reads as an empty level under `k`.
#[verifier::spinoff_prover]
#[verifier::rlimit(100)]
pub proof fn lemma_empty_inline_level(k: Seq<char>)
    requires
        plain_word(k),
    ensures
        crate::lsd::parse_text(k + seq![' ', '{', ' ', '}', '\n']) == Ok::<Node, Fault>(
            Node::Level(seq![(k, Node::Level(Seq::empty()))]),
        ),
{
    let t = k + seq![' ', '{', ' ', '}', '\n'];
    let kl = k.len() as int;
    let n = t.len() as int;
    let empty = Seq::<(Seq<char>, Node)>::empty();
    assert(t.subrange(0, kl) =~= k);
    lemma_read_key(t, k);
    assert(t[kl + 1] == '{');
    assert(crate::lsd::filled_at(t, kl + 1) == (Some('{'), kl + 2));
    assert(t[kl + 2] == ' ' && t[kl + 3] == '}' && t[kl + 4] == '\n');
    lemma_inline_end_at(t, kl + 2, kl + 3);
    assert(crate::text::is_space(' '));
    assert(crate::text::skip_space(t, kl + 3, kl + 3) == kl + 3);
    assert(crate::text::skip_space(t, kl + 2, kl + 3) == kl + 3);
    assert(crate::text::trim_end_at(t, kl + 3, kl + 3) == kl + 3);
    assert(crate::text::trimmed(t, kl + 2, kl + 3).len() == 0);
    assert(crate::lsd::level_at(t, kl + 2) == Ok::<(Entries, int), Fault>((empty, kl + 4)));
    lemma_line_end_at(t, kl + 4, kl + 4);
    assert(crate::lsd::line_at(t, kl + 4) == (None::<Seq<char>>, n));
    assert(crate::lsd::value_at(t, kl + 2, true, '{') == Ok::<(Node, int), Fault>((Node::Level(empty), n)));
    assert(dot_free(k));
    lemma_split_plain(k);
    assert(seq![k].drop_first() =~= Seq::<Seq<char>>::empty());
    assert(find(empty, k) is None);
    assert(merge_entries(empty, empty) == Ok::<Entries, Fault>(empty));
    let r = seq![(k, Node::Level(empty))];
    assert(empty.push((k, Node::Level(empty))) =~= r);
    assert(merge_pair(empty, k, Node::Level(empty)) == Ok::<Entries, Fault>(r));
    assert(crate::lsd::filled_at(t, n) == (None::<char>, n));
    assert(crate::lsd::body_at(t, n, false, r) == Ok::<(Entries, int), Fault>((r, n)));
    assert(crate::lsd::body_at(t, 0, false, empty) == Ok::<(Entries, int), Fault>((r, n)));
}

/// `k { w }` on one line does not read: a level on one line must be empty.
#[verifier::spinoff_prover]
#[verifier::rlimit(100)]
pub proof fn lemma_non_empty_inline_level(k: Seq<char>, w: Seq<char>)
    requires
        plain_word(k),
        plain_word(w),
        forall|i: int| 0 <= i < w.len() ==> #[trigger] w[i] != '}',
    ensures
        crate::lsd::parse_text(k + seq![' ', '{', ' '] + w + seq![' ', '}', '\n']) == Err::<Node, Fault>(
            Fault::UnexpectedNonEmptyInlineLevel,
        ),
{
    let t = k + seq![' ', '{', ' '] + w + seq![' ', '}', '\n'];
    let kl = k.len() as int;
    let wl = w.len() as int;
    let e = kl + 3 + wl + 1;
    assert(t.subrange(0, kl) =~= k);
    lemma_read_key(t, k);
    assert(t[kl + 1] == '{');
    assert(crate::lsd::filled_at(t, kl + 1) == (Some('{'), kl + 2));
    assert(t[e] == '}');
    assert forall|i: int| kl + 2 <= i < e implies #[trigger] t[i] != '}' && t[i] != '\n' by {
        if kl + 3 <= i < kl + 3 + wl {
            assert(t[i] == w[i - kl - 3]);
            assert(crate::text::is_space('\n'));
        }
    }
    lemma_inline_end_at(t, kl + 2, e);
    assert(crate::text::is_space(' '));
    assert(!crate::text::is_space(t[kl + 3])) by {
        assert(t[kl + 3] == w[0]);
    }
    assert(crate::text::skip_space(t, kl + 3, e) == kl + 3);
    assert(t[kl + 2] == ' ');
    assert(crate::text::skip_space(t, kl + 2, e) == kl + 3);
    assert(!crate::text::is_space(t[e - 2])) by {
        assert(t[e - 2] == w[wl - 1]);
    }
    assert(crate::text::trim_end_at(t, kl + 3, e - 1) == e - 1);
    assert(t[e - 1] == ' ');
    assert(crate::text::trim_end_at(t, kl + 3, e) == e - 1);
    assert(crate::text::trimmed(t, kl + 2, e).len() == wl);
    assert(crate::lsd::level_at(t, kl + 2) == Err::<(Entries, int), Fault>(Fault::UnexpectedNonEmptyInlineLevel));
    assert(crate::lsd::value_at(t, kl + 2, true, '{') == Err::<(Node, int), Fault>(
        Fault::UnexpectedNonEmptyInlineLevel,
    ));
    assert(crate::lsd::body_at(t, 0, false, Seq::empty()) == Err::<(Entries, int), Fault>(
        Fault::UnexpectedNonEmptyInlineLevel,
    ));
}

/// A key that reads as one word: no whitespace, not starting with a quote
/// or a closing bracket.
pub open spec fn plain_key(k: Seq<char>) -> bool {
    &&& k.len() > 0
    &&& forall|i: int| 0 <= i < k.len() ==> !crate::text::is_space(#[trigger] k[i])
    &&& k[0] != '"' && k[0] != '\'' && k[0] != '}' && k[0] != ']'
}

/// What the merges of two `key value` pairs, in order, give.
pub open spec fn two_merges(k1: Seq<char>, v1: Seq<char>, k2: Seq<char>, v2: Seq<char>) -> Result<Node, Fault> {
    match merge_pair(Seq::empty(), k1, Node::Value(v1)) {
        Err(f) => Err(f),
        Ok(e1) => match merge_pair(e1, k2, Node::Value(v2)) {
            Err(f) => Err(f),
            Ok(e2) => Ok(Node::Level(e2)),
        },
    }
}

/// Two lines `k1 v1` and `k2 v2` read as the two pairs merged in order.
#[verifier::spinoff_prover]
#[verifier::rlimit(100)]
pub proof fn lemma_two_lines(k1: Seq<char>, v1: Seq<char>, k2: Seq<char>, v2: Seq<char>)
    requires
        plain_key(k1),
        plain_key(k2),
        plain_word(v1),
        plain_word(v2),
    ensures
        crate::lsd::parse_text(k1 + seq![' '] + v1 + seq!['\n'] + k2 + seq![' '] + v2 + seq!['\n'])
            == two_merges(k1, v1, k2, v2),
{
    let t = k1 + seq![' '] + v1 + seq!['\n'] + k2 + seq![' '] + v2 + seq!['\n'];
    let k1l = k1.len() as int;
    let v1l = v1.len() as int;
    let k2l = k2.len() as int;
    let v2l = v2.len() as int;
    let l1 = k1l + v1l + 2;
    let n = t.len() as int;
    let empty = Seq::<(Seq<char>, Node)>::empty();
    assert(t.subrange(0, k1l) =~= k1);
    assert(t.subrange(k1l + 1, k1l + 1 + v1l) =~= v1);
    lemma_read_pair(t, 0, k1, v1);
    assert(t.subrange(l1, l1 + k2l) =~= k2);
    assert(t.subrange(l1 + k2l + 1, l1 + k2l + 1 + v2l) =~= v2);
    lemma_read_pair(t, l1, k2, v2);
    match merge_pair(empty, k1, Node::Value(v1)) {
        Err(f) => {
            assert(crate::lsd::body_at(t, 0, false, empty) == Err::<(Entries, int), Fault>(f));
        },
        Ok(e1) => {
            match merge_pair(e1, k2, Node::Value(v2)) {
                Err(f) => {
                    assert(crate::lsd::body_at(t, l1, false, e1) == Err::<(Entries, int), Fault>(f));
                },
                Ok(e2) => {
                    assert(crate::lsd::filled_at(t, n) == (None::<char>, n));
                    assert(crate::lsd::body_at(t, n, false, e2) == Ok::<(Entries, int), Fault>((e2, n)));
                    assert(crate::lsd::body_at(t, l1, false, e1) == Ok::<(Entries, int), Fault>((e2, n)));
                },
            }
            assert(crate::lsd::body_at(t, 0, false, empty) == crate::lsd::body_at(t, l1, false, e1));
        },
    }
}

proof fn lemma_dotted_plain_key(a: Seq<char>, b: Seq<char>)
    requires
        plain_word(a),
        plain_word(b),
    ensures
        plain_key(a + seq!['.'] + b),
{
    let k = a + seq!['.'] + b;
    assert forall|i: int| 0 <= i < k.len() implies !crate::text::is_space(#[trigger] k[i]) by {
        if i < a.len() {
            assert(k[i] == a[i]);
        } else if i > a.len() {
            assert(k[i] == b[i - a.len() - 1]);
        }
    }
    assert(k[0] == a[0]);
}

/// `a.b x` then `a.c y` reads as one level `a` holding `b x` and `c y`;
/// `a x` then `a y` is a value collision; `a x` then `a.b y` is a
/// value-versus-level collision.
pub proof fn lemma_merge_texts(a: Seq<char>, b: Seq<char>, c: Seq<char>, x: Seq<char>, y: Seq<char>)
    requires
        plain_word(a),
        plain_word(b),
        plain_word(c),
        plain_word(x),
        plain_word(y),
        b != c,
    ensures
        crate::lsd::parse_text(a + seq!['.'] + b + seq![' '] + x + seq!['\n'] + (a + seq!['.'] + c) + seq![' ']
            + y + seq!['\n']) == Ok::<Node, Fault>(
            Node::Level(seq![(a, Node::Level(seq![(b, Node::Value(x)), (c, Node::Value(y))]))]),
        ),
        crate::lsd::parse_text(a + seq![' '] + x + seq!['\n'] + a + seq![' '] + y + seq!['\n']) == Err::<
            Node,
            Fault,
        >(Fault::KeyCollisionValueAlreadyExists(a)),
        crate::lsd::parse_text(a + seq![' '] + x + seq!['\n'] + (a + seq!['.'] + b) + seq![' '] + y + seq!['\n'])
            == Err::<Node, Fault>(Fault::KeyCollisionValueWhenShouldBeLevel),
{
    assert(dot_free(a) && dot_free(b) && dot_free(c));
    lemma_dotted_plain_key(a, b);
    lemma_dotted_plain_key(a, c);
    lemma_two_lines(a + seq!['.'] + b, x, a + seq!['.'] + c, y);
    lemma_dotted_keys_merge(a, b, c, x, y);
    lemma_two_lines(a, x, a, y);
    lemma_value_collision(a, x, y);
    lemma_two_lines(a, x, a + seq!['.'] + b, y);
    lemma_value_then_level(a, b, x, y);
    assert(a + seq!['.'] + b + seq![' '] + x + seq!['\n'] + (a + seq!['.'] + c) + seq![' '] + y + seq!['\n']
        =~= (a + seq!['.'] + b) + seq![' '] + x + seq!['\n'] + (a + seq!['.'] + c) + seq![' '] + y + seq!['\n']);
}

/// Keys come out in the order in which they are declared: `k1 v1` then
/// `k2 v2` reads as a level holding `k1` first and `k2` second.
pub proof fn lemma_declaration_order(k1: Seq<char>, v1: Seq<char>, k2: Seq<char>, v2: Seq<char>)
    requires
        plain_word(k1),
        plain_word(k2),
        plain_word(v1),
        plain_word(v2),
        k1 != k2,
    ensures
        crate::lsd::parse_text(k1 + seq![' '] + v1 + seq!['\n'] + k2 + seq![' '] + v2 + seq!['\n'])
            == Ok::<Node, Fault>(Node::Level(seq![(k1, Node::Value(v1)), (k2, Node::Value(v2))])),
{
    assert(plain_key(k1) && plain_key(k2));
    lemma_two_lines(k1, v1, k2, v2);
    assert(dot_free(k1) && dot_free(k2));
    lemma_split_plain(k1);
    lemma_split_plain(k2);
    assert(seq![k1].drop_first() =~= Seq::<Seq<char>>::empty());
    assert(seq![k2].drop_first() =~= Seq::<Seq<char>>::empty());
    let empty = Seq::<(Seq<char>, Node)>::empty();
    assert(find(empty, k1) is None);
    let e1 = seq![(k1, Node::Value(v1))];
    assert(empty.push((k1, Node::Value(v1))) =~= e1);
    lemma_find_single(k1, Node::Value(v1), k2);
    assert(e1.push((k2, Node::Value(v2))) =~= seq![(k1, Node::Value(v1)), (k2, Node::Value(v2))]);
}

/// A level or a list that the text ends inside does not read: where only
/// whitespace is left, an open level or list is an error.
pub proof fn lemma_end_inside_level_or_list(s: Seq<char>, p: int, acc: Entries)
    requires
        0 <= p <= s.len(),
        forall|k: int| p <= k < s.len() ==> crate::text::is_space(#[trigger] s[k]),
    ensures
        crate::lsd::body_at(s, p, true, acc) == Err::<(Entries, int), Fault>(Fault::UnexpectedLevelEnd),
        crate::lsd::list_at(s, p, acc) == Err::<(Entries, int), Fault>(Fault::UnexpectedListEnd),
{
    crate::text::lemma_skip_space(s, p, s.len() as int);
    assert(crate::text::skip_space(s, p, s.len() as int) == s.len());
}

} // verus!
