use vstd::prelude::*;

use crate::text::{
    ascii_lowercase, chars_of, is_ascii_text, join_strings, join_with, lowercase_of, str_eq, string_of, string_views,
    to_lowercase,
};

verus! {

/// `s` with every `-` and `.` replaced by `_`.
pub open spec fn underscored(s: Seq<char>) -> Seq<char> {
    Seq::new(s.len(), |i: int| if s[i] == '-' || s[i] == '.' { '_' } else { s[i] })
}

/// A command name made into a Rust identifier: `-` and `.` become `_`, then the
/// text is lowercased.
pub open spec fn sanitized(name: Seq<char>) -> Seq<char> {
    lowercase_of(underscored(name))
}

/// Makes a command name into a Rust identifier; see [`sanitized`].
pub fn sanitize_name(name: &str) -> (r: String)
    ensures
        r@ == sanitized(name@),
        is_ascii_text(name@) ==> r@ == ascii_lowercase(underscored(name@)),
{
    let cs = chars_of(name);
    let mut out: Vec<char> = Vec::new();
    for i in 0..cs.len()
        invariant
            cs@ == name@,
            out@ == underscored(name@).take(i as int),
    {
        let c = cs[i];
        if c == '-' || c == '.' {
            out.push('_');
        } else {
            out.push(c);
        }
        assert(out@ =~= underscored(name@).take(i + 1));
    }
    assert(underscored(name@).take(cs.len() as int) =~= underscored(name@));
    let replaced = string_of(&out);
    assert(is_ascii_text(name@) ==> is_ascii_text(replaced@));
    to_lowercase(replaced.as_str())
}

/// On ASCII names, sanitizing twice gives what sanitizing once gives, and the
/// result has no `-`, no `.` and no capital letter.
pub proof fn law_sanitize_ascii(name: Seq<char>)
    requires
        is_ascii_text(name),
    ensures
        ascii_lowercase(underscored(ascii_lowercase(underscored(name)))) == ascii_lowercase(underscored(name)),
        forall|i: int|
            0 <= i < ascii_lowercase(underscored(name)).len() ==> {
                let c = #[trigger] ascii_lowercase(underscored(name))[i];
                c != '-' && c != '.' && !(65 <= (c as int) <= 90)
            },
{
    let once = ascii_lowercase(underscored(name));
    assert(ascii_lowercase(underscored(once)) =~= once);
}

/// The name of the function that a command's `main` becomes: `rustbb_cmd_`
/// and the sanitized command name.
pub open spec fn command_fn(cmd_name: Seq<char>) -> Seq<char> {
    "rustbb_cmd_"@ + sanitized(cmd_name)
}

/// The name of the function that a command's `main` becomes; see [`command_fn`].
pub fn command_fn_name(cmd_name: &str) -> (r: String)
    ensures
        r@ == command_fn(cmd_name@),
{
    let mut r = "rustbb_cmd_".to_owned();
    let s = sanitize_name(cmd_name);
    r.append(s.as_str());
    r
}

/// A called path, joined with `::`, names the standard argument iterator.
pub open spec fn is_env_args_path(path: Seq<char>) -> bool {
    path == "std::env::args"@ || path == "env::args"@ || path == "args"@
}

/// A called path, joined with `::`, names the standard `OsString` argument iterator.
pub open spec fn is_env_args_os_path(path: Seq<char>) -> bool {
    path == "std::env::args_os"@ || path == "env::args_os"@ || path == "args_os"@
}

/// Whether a call of the path with these segments reads the process
/// arguments (`std::env::args()`, `env::args()` or `args()`).
pub fn is_env_args_call(segments: &Vec<String>) -> (r: bool)
    ensures
        r == is_env_args_path(join_with(string_views(segments@), "::"@)),
{
    let p = join_strings(segments, "::");
    str_eq(p.as_str(), "std::env::args") || str_eq(p.as_str(), "env::args") || str_eq(
        p.as_str(),
        "args",
    )
}

/// Whether a call of the path with these segments reads the process
/// arguments as `OsString`s (`std::env::args_os()`, `env::args_os()` or `args_os()`).
pub fn is_env_args_os_call(segments: &Vec<String>) -> (r: bool)
    ensures
        r == is_env_args_os_path(join_with(string_views(segments@), "::"@)),
{
    let p = join_strings(segments, "::");
    str_eq(p.as_str(), "std::env::args_os") || str_eq(p.as_str(), "env::args_os") || str_eq(
        p.as_str(),
        "args_os",
    )
}

/// A called path is taken for the `String` argument iterator exactly when,
/// joined with `::`, it reads `std::env::args`, `env::args` or `args`; so the
/// paths `std::env::args`, `env::args` and `args` are all taken for it.
pub proof fn law_env_args_paths(segments: Seq<Seq<char>>)
    ensures
        is_env_args_path(join_with(segments, "::"@)) <==> (join_with(segments, "::"@) == "std::env::args"@
            || join_with(segments, "::"@) == "env::args"@ || join_with(segments, "::"@) == "args"@),
        is_env_args_path(join_with(seq!["std"@, "env"@, "args"@], "::"@)),
        is_env_args_path(join_with(seq!["env"@, "args"@], "::"@)),
        is_env_args_path(join_with(seq!["args"@], "::"@)),
{
    reveal_strlit("std::env::args");
    reveal_strlit("env::args");
    reveal_strlit("args");
    reveal_strlit("std");
    reveal_strlit("env");
    reveal_strlit("::");
    lemma_join_literals("std"@, "env"@, "args"@);
    assert("std"@ + "::"@ + "env"@ + "::"@ + "args"@ =~= "std::env::args"@);
    assert("env"@ + "::"@ + "args"@ =~= "env::args"@);
}

/// A called path is taken for the `OsString` argument iterator exactly when,
/// joined with `::`, it reads `std::env::args_os`, `env::args_os` or
/// `args_os`; so the paths `std::env::args_os`, `env::args_os` and `args_os`
/// are all taken for it.
pub proof fn law_env_args_os_paths(segments: Seq<Seq<char>>)
    ensures
        is_env_args_os_path(join_with(segments, "::"@)) <==> (join_with(segments, "::"@) == "std::env::args_os"@
            || join_with(segments, "::"@) == "env::args_os"@ || join_with(segments, "::"@) == "args_os"@),
        is_env_args_os_path(join_with(seq!["std"@, "env"@, "args_os"@], "::"@)),
        is_env_args_os_path(join_with(seq!["env"@, "args_os"@], "::"@)),
        is_env_args_os_path(join_with(seq!["args_os"@], "::"@)),
{
    reveal_strlit("std::env::args_os");
    reveal_strlit("env::args_os");
    reveal_strlit("args_os");
    reveal_strlit("std");
    reveal_strlit("env");
    reveal_strlit("::");
    lemma_join_literals("std"@, "env"@, "args_os"@);
    assert("std"@ + "::"@ + "env"@ + "::"@ + "args_os"@ =~= "std::env::args_os"@);
    assert("env"@ + "::"@ + "args_os"@ =~= "env::args_os"@);
}

proof fn lemma_join_literals(a: Seq<char>, b: Seq<char>, c: Seq<char>)
    ensures
        join_with(seq![a, b, c], "::"@) == a + "::"@ + b + "::"@ + c,
        join_with(seq![b, c], "::"@) == b + "::"@ + c,
        join_with(seq![c], "::"@) == c,
{
    let sep = "::"@;
    assert(seq![a, b, c].drop_last() =~= seq![a, b]);
    assert(seq![a, b].drop_last() =~= seq![a]);
    assert(seq![b, c].drop_last() =~= seq![b]);
    assert(join_with(seq![a], sep) == a);
    assert(join_with(seq![b], sep) == b);
    assert(join_with(seq![a, b], sep) == join_with(seq![a], sep) + sep + b);
    assert(join_with(seq![a, b, c], sep) == join_with(seq![a, b], sep) + sep + c);
    assert(join_with(seq![b, c], sep) == join_with(seq![b], sep) + sep + c);
}

/// The replacement for a call `Type::parse()` of a command-line parser: a
/// call with no arguments of a path of at least two segments ending in
/// `parse` becomes `Type::parse_from(rustbb_runtime::args_os())`.
pub open spec fn clap_parse_replacement(segments: Seq<Seq<char>>, n_args: nat) -> Option<Seq<char>> {
    if n_args == 0 && segments.len() >= 2 && segments.last() == "parse"@ {
        Some(join_with(segments.drop_last(), "::"@) + "::parse_from(rustbb_runtime::args_os())"@)
    } else {
        None
    }
}

/// The text of the call that replaces a parser's `parse()`; see [`clap_parse_replacement`].
pub fn clap_parse_call(segments: &Vec<String>, n_args: usize) -> (r: Option<String>)
    ensures
        match clap_parse_replacement(string_views(segments@), n_args as nat) {
            Some(t) => r matches Some(x) && x@ == t,
            None => r is None,
        },
{
    if n_args != 0 || segments.len() < 2 {
        return None;
    }
    let n = segments.len();
    if !str_eq(segments[n - 1].as_str(), "parse") {
        return None;
    }
    let mut type_segments: Vec<String> = Vec::new();
    for i in 0..n - 1
        invariant
            n == segments.len(),
            n >= 2,
            string_views(type_segments@) == string_views(segments@).take(i as int),
    {
        let ghost before = type_segments@;
        let seg = segments[i].clone();
        type_segments.push(seg);
        assert(string_views(type_segments@) =~= string_views(before).push(seg@));
        assert(string_views(segments@).take(i + 1) =~= string_views(segments@).take(i as int).push(
            segments@[i as int]@,
        ));
    }
    assert(string_views(segments@).take(n - 1) =~= string_views(segments@).drop_last());
    let mut call = join_strings(&type_segments, "::");
    call.append("::parse_from(rustbb_runtime::args_os())");
    Some(call)
}

/// The async runtime under which a `main` runs.
#[derive(Debug, Clone, Copy)]
pub enum AsyncRuntime {
    Tokio,
    AsyncStd,
}

/// The runtime that the attributes of `main` ask for: the first attribute
/// `tokio::main` or `async_std::main` decides; a bare `main` attribute on an
/// `async fn` counts as tokio's.
pub open spec fn async_runtime_of(attrs: Seq<Seq<char>>, is_async: bool) -> Option<AsyncRuntime>
    decreases attrs.len(),
{
    if attrs.len() == 0 {
        None
    } else if attrs[0] == "tokio::main"@ {
        Some(AsyncRuntime::Tokio)
    } else if attrs[0] == "async_std::main"@ {
        Some(AsyncRuntime::AsyncStd)
    } else if attrs[0] == "main"@ && is_async {
        Some(AsyncRuntime::Tokio)
    } else {
        async_runtime_of(attrs.drop_first(), is_async)
    }
}

/// The paths joined with `::`.
pub open spec fn joined_paths(paths: Seq<Vec<String>>) -> Seq<Seq<char>> {
    Seq::new(paths.len(), |i: int| join_with(string_views(paths[i]@), "::"@))
}

/// The runtime that the attributes of `main` ask for; see [`async_runtime_of`].
pub fn detect_async_runtime(attr_paths: &Vec<Vec<String>>, is_async: bool) -> (r: Option<AsyncRuntime>)
    ensures
        r == async_runtime_of(joined_paths(attr_paths@), is_async),
{
    let ghost all = joined_paths(attr_paths@);
    assert(all.skip(0) =~= all);
    for i in 0..attr_paths.len()
        invariant
            all == joined_paths(attr_paths@),
            async_runtime_of(all, is_async) == async_runtime_of(all.skip(i as int), is_async),
    {
        assert(all.skip(i as int).drop_first() =~= all.skip(i + 1));
        let p = join_strings(&attr_paths[i], "::");
        assert(all.skip(i as int)[0] == p@);
        if str_eq(p.as_str(), "tokio::main") {
            return Some(AsyncRuntime::Tokio);
        }
        if str_eq(p.as_str(), "async_std::main") {
            return Some(AsyncRuntime::AsyncStd);
        }
        if str_eq(p.as_str(), "main") && is_async {
            return Some(AsyncRuntime::Tokio);
        }
    }
    assert(all.skip(attr_paths.len() as int) =~= Seq::<Seq<char>>::empty());
    None
}

/// An attribute of `main` stays unless it starts a runtime (`tokio::main`,
/// `async_std::main` or `main`), which the transformation replaces.
pub open spec fn keeps_attr(path: Seq<char>) -> bool {
    !(path == "tokio::main"@ || path == "async_std::main"@ || path == "main"@)
}

/// Whether an attribute of `main` stays; see [`keeps_attr`].
pub fn keeps_attribute(segments: &Vec<String>) -> (r: bool)
    ensures
        r == keeps_attr(join_with(string_views(segments@), "::"@)),
{
    let p = join_strings(segments, "::");
    !(str_eq(p.as_str(), "tokio::main") || str_eq(p.as_str(), "async_std::main") || str_eq(
        p.as_str(),
        "main",
    ))
}

/// Whether `p` starts a runtime for `main`: `tokio::main`, `async_std::main`,
/// or a bare `main` on an `async fn`.
pub open spec fn starts_runtime(p: Seq<char>, is_async: bool) -> bool {
    p == "tokio::main"@ || p == "async_std::main"@ || (p == "main"@ && is_async)
}

/// The first attribute that starts a runtime decides it: `async_std::main`
/// gives async-std, `tokio::main` (or a bare `main` on an `async fn`) gives
/// tokio; with no such attribute `main` runs without a runtime.
pub proof fn law_async_runtime_first_decides(attrs: Seq<Seq<char>>, is_async: bool, i: int)
    ensures
        (forall|j: int| 0 <= j < attrs.len() ==> !starts_runtime(#[trigger] attrs[j], is_async)) ==> async_runtime_of(
            attrs,
            is_async,
        ) is None,
        0 <= i < attrs.len() && starts_runtime(attrs[i], is_async) && (forall|j: int|
            0 <= j < i ==> !starts_runtime(#[trigger] attrs[j], is_async)) ==> async_runtime_of(attrs, is_async)
            == (if attrs[i] == "async_std::main"@ {
            Some(AsyncRuntime::AsyncStd)
        } else {
            Some(AsyncRuntime::Tokio)
        }),
    decreases attrs.len(),
{
    if attrs.len() > 0 {
        let rest = attrs.drop_first();
        law_async_runtime_first_decides(rest, is_async, i - 1);
        assert forall|j: int| 0 <= j < rest.len() implies rest[j] == attrs[j + 1] by {}
        reveal_strlit("tokio::main");
        reveal_strlit("async_std::main");
        reveal_strlit("main");
        assert("tokio::main"@.len() == 11 && "async_std::main"@.len() == 15 && "main"@.len() == 4);
        if i == 0 && starts_runtime(attrs[0], is_async) {
            if attrs[0] == "async_std::main"@ {
                assert(attrs[0] != "tokio::main"@);
            } else if attrs[0] == "main"@ {
                assert(attrs[0] != "tokio::main"@);
            }
        }
        if (forall|j: int| 0 <= j < attrs.len() ==> !starts_runtime(#[trigger] attrs[j], is_async)) {
            assert(!starts_runtime(attrs[0], is_async));
            assert forall|j: int| 0 <= j < rest.len() implies !starts_runtime(#[trigger] rest[j], is_async) by {
                assert(!starts_runtime(attrs[j + 1], is_async));
            }
        }
        if 0 < i < attrs.len() && starts_runtime(attrs[i], is_async) && (forall|j: int|
            0 <= j < i ==> !starts_runtime(#[trigger] attrs[j], is_async)) {
            assert(!starts_runtime(attrs[0], is_async));
            assert forall|j: int| 0 <= j < i - 1 implies !starts_runtime(#[trigger] rest[j], is_async) by {
                assert(!starts_runtime(attrs[j + 1], is_async));
            }
            assert(rest[i - 1] == attrs[i]);
        }
    }
}

/// Every attribute of `main` stays except `tokio::main`, `async_std::main`
/// and `main`, which the transformation replaces by an explicit runtime.
pub proof fn law_kept_attributes(path: Seq<char>)
    ensures
        keeps_attr(path) <==> (path != "tokio::main"@ && path != "async_std::main"@ && path != "main"@),
        !keeps_attr("tokio::main"@),
        !keeps_attr("async_std::main"@),
        !keeps_attr("main"@),
{
}

/// A call `T::parse()` with no arguments, where `T` is a path of at least
/// one segment, becomes `T::parse_from(rustbb_runtime::args_os())`; a call
/// with arguments, or of a path that does not end in `parse`, or of `parse`
/// alone, is left as it is.
pub proof fn law_clap_parse(ty: Seq<Seq<char>>, segments: Seq<Seq<char>>, n_args: nat)
    ensures
        ty.len() > 0 ==> clap_parse_replacement(ty.push("parse"@), 0) == Some(
            join_with(ty, "::"@) + "::parse_from(rustbb_runtime::args_os())"@,
        ),
        n_args > 0 ==> clap_parse_replacement(segments, n_args) is None,
        segments.len() < 2 ==> clap_parse_replacement(segments, n_args) is None,
        segments.len() > 0 && segments.last() != "parse"@ ==> clap_parse_replacement(segments, n_args) is None,
{
    assert(ty.push("parse"@).drop_last() =~= ty);
}

} // verus!
