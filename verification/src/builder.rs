use vstd::prelude::*;

use crate::discovery::{CrateInfo, StrategyView, TransformStrategy};
use crate::sorted_map::{lookup, SortedMap};
use crate::text::{
    chars_end_with, chars_of, ends_with, has_substring, join_path, matches_at, occurs_at, path_join, push_char,
    starts_with, str_eq, string_views,
};
use crate::transform::{sanitize_name, sanitized};

verus! {

/// The attributes on `main` that do not change how it runs.
pub open spec fn harmless_attributes() -> Seq<Seq<char>> {
    seq![
        "allow"@,
        "warn"@,
        "deny"@,
        "forbid"@,
        "cfg"@,
        "cfg_attr"@,
        "inline"@,
        "cold"@,
        "must_use"@,
        "track_caller"@,
    ]
}

/// An attribute that starts a supported async runtime.
pub open spec fn is_async_runtime_attr(a: Seq<char>) -> bool {
    a == "tokio::main"@ || a == "async_std::main"@
}

/// An attribute that the transformation can handle.
pub open spec fn is_handled_attr(a: Seq<char>) -> bool {
    harmless_attributes().contains(a) || is_async_runtime_attr(a)
}

/// What the build does with a crate, by its strategy.
#[derive(Debug)]
pub enum TransformPlan {
    /// Transform the crate's `main`; `is_async` when an attribute starts a
    /// supported async runtime; `stop_on_failure` when a failed transformation
    /// ends the build (for a plain `main`) rather than skipping the crate.
    Transform { is_async: bool, stop_on_failure: bool },
    /// `main` has attributes that the transformation cannot handle (these).
    UnsupportedAttributes { attrs: Vec<String> },
    /// The analysis found the crate unsupported, for this reason.
    Unsupported { reason: String },
    /// A library interface, which is not supported yet.
    LibraryInterface,
}

/// A [`TransformPlan`] with its strings taken by their characters.
pub ghost enum TransformPlanView {
    Transform { is_async: bool, stop_on_failure: bool },
    UnsupportedAttributes { attrs: Seq<Seq<char>> },
    Unsupported { reason: Seq<char> },
    LibraryInterface,
}

impl View for TransformPlan {
    type V = TransformPlanView;

    open spec fn view(&self) -> TransformPlanView {
        match self {
            TransformPlan::Transform { is_async, stop_on_failure } => TransformPlanView::Transform {
                is_async: *is_async,
                stop_on_failure: *stop_on_failure,
            },
            TransformPlan::UnsupportedAttributes { attrs } => TransformPlanView::UnsupportedAttributes {
                attrs: string_views(attrs@),
            },
            TransformPlan::Unsupported { reason } => TransformPlanView::Unsupported { reason: reason@ },
            TransformPlan::LibraryInterface => TransformPlanView::LibraryInterface,
        }
    }
}

/// The attributes the transformation cannot handle, in order.
pub open spec fn unhandled_attrs(attrs: Seq<Seq<char>>) -> Seq<Seq<char>> {
    attrs.filter(|a: Seq<char>| !is_handled_attr(a))
}

/// Some attribute starts an async runtime.
pub open spec fn any_async_attr(attrs: Seq<Seq<char>>) -> bool {
    exists|i: int| 0 <= i < attrs.len() && is_async_runtime_attr(#[trigger] attrs[i])
}

/// Every attribute is handled.
pub open spec fn all_attrs_handled(attrs: Seq<Seq<char>>) -> bool {
    forall|i: int| 0 <= i < attrs.len() ==> is_handled_attr(#[trigger] attrs[i])
}

/// The plan for a crate: a simple `main` is transformed, and a failure ends the
/// build; an attributed one is transformed (a failure skips the crate) when
/// some attribute starts an async runtime or every attribute is handled, and
/// otherwise refused with its unhandled attributes.
pub open spec fn plan_of(s: StrategyView) -> TransformPlanView {
    match s {
        StrategyView::SimpleMain => TransformPlanView::Transform { is_async: false, stop_on_failure: true },
        StrategyView::AttributedMain { attrs } => {
            if any_async_attr(attrs) || all_attrs_handled(attrs) {
                TransformPlanView::Transform { is_async: any_async_attr(attrs), stop_on_failure: false }
            } else {
                TransformPlanView::UnsupportedAttributes { attrs: unhandled_attrs(attrs) }
            }
        },
        StrategyView::LibraryInterface { .. } => TransformPlanView::LibraryInterface,
        StrategyView::Unsupported { reason } => TransformPlanView::Unsupported { reason },
    }
}

/// The attributes that leave how `main` runs unchanged, written out.
pub open spec fn known_harmless(a: Seq<char>) -> bool {
    a == "allow"@ || a == "warn"@ || a == "deny"@ || a == "forbid"@ || a == "cfg"@ || a == "cfg_attr"@
        || a == "inline"@ || a == "cold"@ || a == "must_use"@ || a == "track_caller"@
}

/// The attributes that start an async runtime, written out.
pub open spec fn known_runtime(a: Seq<char>) -> bool {
    a == "tokio::main"@ || a == "async_std::main"@
}

proof fn lemma_handled_literals(a: Seq<char>)
    ensures
        is_async_runtime_attr(a) == known_runtime(a),
        is_handled_attr(a) == (known_harmless(a) || known_runtime(a)),
{
    let h = harmless_attributes();
    if known_harmless(a) {
        if a == "allow"@ { assert(h[0] == a); }
        if a == "warn"@ { assert(h[1] == a); }
        if a == "deny"@ { assert(h[2] == a); }
        if a == "forbid"@ { assert(h[3] == a); }
        if a == "cfg"@ { assert(h[4] == a); }
        if a == "cfg_attr"@ { assert(h[5] == a); }
        if a == "inline"@ { assert(h[6] == a); }
        if a == "cold"@ { assert(h[7] == a); }
        if a == "must_use"@ { assert(h[8] == a); }
        if a == "track_caller"@ { assert(h[9] == a); }
    }
    if h.contains(a) {
        let j = choose|j: int| 0 <= j < h.len() && h[j] == a;
        assert(known_harmless(a));
    }
}

proof fn lemma_filter_from(s: Seq<Seq<char>>, j: int)
    requires
        0 <= j < unhandled_attrs(s).len(),
    ensures
        s.contains(unhandled_attrs(s)[j]),
        !is_handled_attr(unhandled_attrs(s)[j]),
    decreases s.len(),
{
    reveal(Seq::filter);
    let f = unhandled_attrs(s);
    let pre = unhandled_attrs(s.drop_last());
    assert(f == if !is_handled_attr(s.last()) { pre.push(s.last()) } else { pre });
    if j < pre.len() {
        lemma_filter_from(s.drop_last(), j);
        let k = choose|k: int| 0 <= k < s.drop_last().len() && s.drop_last()[k] == pre[j];
        assert(s[k] == pre[j]);
    } else {
        assert(f[j] == s.last());
        assert(s[s.len() - 1] == f[j]);
    }
}

/// A plain `main` is transformed, and a failure ends the build. An attributed
/// `main` is transformed as async, a failure skipping the crate, when some
/// attribute is `tokio::main` or `async_std::main`; it is transformed as it
/// is when every attribute is one of `allow`, `warn`, `deny`, `forbid`,
/// `cfg`, `cfg_attr`, `inline`, `cold`, `must_use` and `track_caller`; and
/// otherwise it is refused with exactly the attributes that are neither,
/// taken from its own attributes.
pub proof fn law_plan_by_attributes(attrs: Seq<Seq<char>>, j: int)
    ensures
        plan_of(StrategyView::SimpleMain) == (TransformPlanView::Transform { is_async: false, stop_on_failure: true }),
        (exists|i: int| 0 <= i < attrs.len() && known_runtime(#[trigger] attrs[i])) ==> plan_of(
            StrategyView::AttributedMain { attrs },
        ) == (TransformPlanView::Transform { is_async: true, stop_on_failure: false }),
        (forall|i: int| 0 <= i < attrs.len() ==> known_harmless(#[trigger] attrs[i])) ==> plan_of(
            StrategyView::AttributedMain { attrs },
        ) == (TransformPlanView::Transform { is_async: false, stop_on_failure: false }),
        (forall|i: int| 0 <= i < attrs.len() ==> !known_runtime(#[trigger] attrs[i])) && (exists|i: int|
            0 <= i < attrs.len() && !known_harmless(#[trigger] attrs[i])) ==> (plan_of(
            StrategyView::AttributedMain { attrs },
        ) matches TransformPlanView::UnsupportedAttributes { attrs: listed } && (forall|k: int|
            0 <= k < listed.len() ==> attrs.contains(#[trigger] listed[k]) && !known_harmless(listed[k])
                && !known_runtime(listed[k])) && (forall|i: int|
            0 <= i < attrs.len() && !known_harmless(#[trigger] attrs[i]) ==> listed.contains(attrs[i]))),
{
    assert forall|a: Seq<char>| #[trigger] is_handled_attr(a) == (known_harmless(a) || known_runtime(a))
        && is_async_runtime_attr(a) == known_runtime(a) by {
        lemma_handled_literals(a);
    }
    let f = unhandled_attrs(attrs);
    broadcast use vstd::seq_lib::group_filter_ensures;
    assert forall|k: int| 0 <= k < f.len() implies attrs.contains(#[trigger] f[k]) && !is_handled_attr(f[k]) by {
        lemma_filter_from(attrs, k);
    }
    assert forall|i: int| 0 <= i < attrs.len() && !is_handled_attr(#[trigger] attrs[i]) implies f.contains(attrs[i]) by {
        attrs.lemma_filter_contains(|a: Seq<char>| !is_handled_attr(a), i);
    }
    if exists|i: int| 0 <= i < attrs.len() && !known_harmless(#[trigger] attrs[i]) {
        if forall|i: int| 0 <= i < attrs.len() ==> !known_runtime(#[trigger] attrs[i]) {
            let i = choose|i: int| 0 <= i < attrs.len() && !known_harmless(#[trigger] attrs[i]);
            assert(!is_handled_attr(attrs[i]));
            assert(!any_async_attr(attrs));
            assert(!all_attrs_handled(attrs));
        }
    } else {
        lemma_harmless_not_runtime();
        assert(!any_async_attr(attrs));
        assert(all_attrs_handled(attrs));
    }
}

proof fn lemma_harmless_not_runtime()
    ensures
        forall|a: Seq<char>| #[trigger] known_harmless(a) ==> !known_runtime(a),
{
    reveal_strlit("tokio::main");
    reveal_strlit("async_std::main");
    reveal_strlit("allow");
    reveal_strlit("warn");
    reveal_strlit("deny");
    reveal_strlit("forbid");
    reveal_strlit("cfg");
    reveal_strlit("cfg_attr");
    reveal_strlit("inline");
    reveal_strlit("cold");
    reveal_strlit("must_use");
    reveal_strlit("track_caller");
    assert forall|a: Seq<char>| #[trigger] known_harmless(a) implies !known_runtime(a) by {
        assert(a.len() != 11 && a.len() != 15);
    }
}

fn is_async_attr(a: &String) -> (r: bool)
    ensures
        r == is_async_runtime_attr(a@),
{
    str_eq(a.as_str(), "tokio::main") || str_eq(a.as_str(), "async_std::main")
}

fn is_handled(a: &String) -> (r: bool)
    ensures
        r == is_handled_attr(a@),
{
    let names = ["allow", "warn", "deny", "forbid", "cfg", "cfg_attr", "inline", "cold", "must_use", "track_caller"];
    let ghost h = harmless_attributes();
    assert(names@.map_values(|n: &str| n@) =~= h);
    let mut found = false;
    for i in 0..names.len()
        invariant
            names@.map_values(|n: &str| n@) == h,
            found == (exists|j: int| 0 <= j < i && h[j] == a@),
    {
        assert(h[i as int] == names@[i as int]@);
        if str_eq(a.as_str(), names[i]) {
            found = true;
        }
    }
    assert(found == h.contains(a@));
    found || is_async_attr(a)
}

/// The plan for a crate; see [`plan_of`].
pub fn plan_transform(strategy: &TransformStrategy) -> (r: TransformPlan)
    ensures
        r@ == plan_of(strategy@),
{
    match strategy {
        TransformStrategy::SimpleMain => TransformPlan::Transform { is_async: false, stop_on_failure: true },
        TransformStrategy::AttributedMain { attrs } => {
            let ghost v = string_views(attrs@);
            let mut is_async = false;
            let mut all_handled = true;
            let mut unhandled: Vec<String> = Vec::new();
            for i in 0..attrs.len()
                invariant
                    v == string_views(attrs@),
                    is_async == (exists|j: int| 0 <= j < i && is_async_runtime_attr(#[trigger] v[j])),
                    all_handled == (forall|j: int| 0 <= j < i ==> is_handled_attr(#[trigger] v[j])),
                    string_views(unhandled@) == unhandled_attrs(v.take(i as int)),
            {
                assert(v[i as int] == attrs@[i as int]@);
                assert(v.take(i + 1).drop_last() =~= v.take(i as int));
                reveal(Seq::filter);
                if is_async_attr(&attrs[i]) {
                    is_async = true;
                }
                if !is_handled(&attrs[i]) {
                    all_handled = false;
                    let ghost before = unhandled@;
                    let c = attrs[i].clone();
                    unhandled.push(c);
                    assert(string_views(unhandled@) =~= string_views(before).push(c@));
                }
            }
            assert(v.take(attrs.len() as int) =~= v);
            assert(strategy@ == StrategyView::AttributedMain { attrs: v });
            assert(is_async == any_async_attr(v));
            assert(all_handled == all_attrs_handled(v));
            if is_async || all_handled {
                TransformPlan::Transform { is_async, stop_on_failure: false }
            } else {
                TransformPlan::UnsupportedAttributes { attrs: unhandled }
            }
        },
        TransformStrategy::LibraryInterface { .. } => TransformPlan::LibraryInterface,
        TransformStrategy::Unsupported { reason } => TransformPlan::Unsupported { reason: reason.clone() },
    }
}

/// The progress line for a transformed crate: `  ✓ name`, with ` (async)`
/// when it runs under an async runtime.
pub open spec fn transformed_line_text(name: Seq<char>, is_async: bool) -> Seq<char> {
    "  ✓ "@ + name + if is_async {
        " (async)"@
    } else {
        Seq::empty()
    }
}

/// The progress line for a transformed crate; see [`transformed_line_text`].
pub fn transformed_line(name: &str, is_async: bool) -> (r: String)
    ensures
        r@ == transformed_line_text(name@, is_async),
{
    let mut r = "  ✓ ".to_owned();
    r.append(name);
    if is_async {
        r.append(" (async)");
    }
    r
}

/// The progress line for a crate that is skipped, by its plan: `  ✗ name -
/// reason` for an unsupported crate, `  ⚠ name - library interface not yet
/// supported` for a library interface.
pub open spec fn skipped_line_text(name: Seq<char>, plan: TransformPlanView) -> Option<Seq<char>> {
    match plan {
        TransformPlanView::Unsupported { reason } => Some("  ✗ "@ + name + " - "@ + reason),
        TransformPlanView::LibraryInterface => Some(
            "  ⚠ "@ + name + " - library interface not yet supported"@,
        ),
        _ => None,
    }
}

/// The progress line for a skipped crate; see [`skipped_line_text`].
pub fn skipped_line(name: &str, plan: &TransformPlan) -> (r: Option<String>)
    ensures
        match skipped_line_text(name@, plan@) {
            Some(t) => r matches Some(x) && x@ == t,
            None => r is None,
        },
{
    match plan {
        TransformPlan::Unsupported { reason } => {
            let mut r = "  ✗ ".to_owned();
            r.append(name);
            r.append(" - ");
            r.append(reason.as_str());
            Some(r)
        },
        TransformPlan::LibraryInterface => {
            let mut r = "  ⚠ ".to_owned();
            r.append(name);
            r.append(" - library interface not yet supported");
            Some(r)
        },
        _ => None,
    }
}

/// The crates, in order, for which a transformed source exists.
pub open spec fn transformed_crates(crates: Seq<CrateInfo>, transformed: Seq<(Seq<char>, String)>) -> Seq<CrateInfo> {
    crates.filter(|c: CrateInfo| lookup(transformed, c.name@) is Some)
}

/// Keeps the crates that were transformed; see [`transformed_crates`].
pub fn select_transformed(crates: Vec<CrateInfo>, transformed: &SortedMap<String>) -> (r: Vec<CrateInfo>)
    ensures
        r@ == transformed_crates(crates@, transformed.pairs()),
{
    let ghost all = crates@;
    let mut rest = crates;
    let mut r: Vec<CrateInfo> = Vec::new();
    let n = rest.len();
    let mut i: usize = 0;
    assert(all.skip(0) =~= all);
    while i < n
        invariant
            n == all.len(),
            i <= n,
            rest@ == all.skip(i as int),
            r@ == transformed_crates(all.take(i as int), transformed.pairs()),
        decreases n - i,
    {
        let c = rest.remove(0);
        assert(c == all[i as int]);
        assert(rest@ =~= all.skip(i + 1));
        assert(all.take(i + 1).drop_last() =~= all.take(i as int));
        reveal(Seq::filter);
        if transformed.contains_key(c.name.as_str()) {
            r.push(c);
        }
        i = i + 1;
    }
    assert(all.take(n as int) =~= all);
    r
}

/// The arguments of the `cargo` command that builds the combined crate.
pub fn cargo_build_args(release: bool) -> (r: Vec<String>)
    ensures
        string_views(r@) == seq!["build"@] + if release {
            seq!["--release"@]
        } else {
            Seq::empty()
        },
{
    let mut r: Vec<String> = Vec::new();
    r.push("build".to_owned());
    if release {
        r.push("--release".to_owned());
    }
    assert(string_views(r@) =~= seq!["build"@] + if release {
        seq!["--release"@]
    } else {
        Seq::empty()
    });
    r
}

/// Where the built binary is, relative to the combined crate:
/// `target/release/<name>` or `target/debug/<name>`.
pub open spec fn binary_artifact_text(output_name: Seq<char>, release: bool) -> Seq<char> {
    path_join(
        path_join("target"@, if release {
            "release"@
        } else {
            "debug"@
        }),
        output_name,
    )
}

/// The built binary of a relative output name `name` is
/// `target/release/name` for a release build and `target/debug/name`
/// otherwise.
pub proof fn law_binary_artifact(output_name: Seq<char>, release: bool)
    requires
        output_name.len() > 0,
        output_name[0] != '/',
    ensures
        binary_artifact_text(output_name, true) == "target/release/"@ + output_name,
        binary_artifact_text(output_name, false) == "target/debug/"@ + output_name,
{
    reveal_strlit("target");
    reveal_strlit("release");
    reveal_strlit("debug");
    reveal_strlit("target/release/");
    reveal_strlit("target/debug/");
    assert(path_join("target"@, "release"@) =~= "target/release"@) by {
        reveal_strlit("target/release");
    }
    assert(path_join("target"@, "debug"@) =~= "target/debug"@) by {
        reveal_strlit("target/debug");
    }
    reveal_strlit("target/release");
    reveal_strlit("target/debug");
    assert(path_join("target/release"@, output_name) =~= "target/release/"@ + output_name);
    assert(path_join("target/debug"@, output_name) =~= "target/debug/"@ + output_name);
}

/// Where the built binary is; see [`binary_artifact_text`].
pub fn binary_artifact_path(output_name: &str, release: bool) -> (r: String)
    ensures
        r@ == binary_artifact_text(output_name@, release),
{
    let dir = if release {
        join_path("target", "release")
    } else {
        join_path("target", "debug")
    };
    join_path(dir.as_str(), output_name)
}

/// A command module, for the command whose module identifier is `module`,
/// that calls the `uumain` of the uutils crate `crate_name` with the command's
/// arguments.
pub open spec fn uucore_wrapper_text(crate_name: Seq<char>, module: Seq<char>) -> Seq<char> {
    "/// Auto-generated wrapper for "@ + crate_name + "\npub fn rustbb_cmd_"@ + module
        + "() -> i32 {\n    "@ + crate_name + "::uumain(rustbb_runtime::args_os())\n}\n"@
}

/// The wrapper module for a uutils command defines the entry function named
/// after the command's own module, `rustbb_cmd_<module>() -> i32`, and that
/// function calls the crate's `uumain` with the command's arguments.
pub proof fn law_uucore_wrapper_entry(crate_name: Seq<char>, cmd_name: Seq<char>)
    ensures
        has_substring(uucore_wrapper_text(crate_name, sanitized(cmd_name)), "pub fn rustbb_cmd_"@ + sanitized(cmd_name) + "() -> i32 {"@),
        has_substring(uucore_wrapper_text(crate_name, sanitized(cmd_name)), crate_name + "::uumain(rustbb_runtime::args_os())"@),
{
    let m = sanitized(cmd_name);
    let t = uucore_wrapper_text(crate_name, m);
    let a = "/// Auto-generated wrapper for "@;
    let b = "\npub fn rustbb_cmd_"@;
    let c = "() -> i32 {\n    "@;
    let d = "::uumain(rustbb_runtime::args_os())\n}\n"@;
    reveal_strlit("\npub fn rustbb_cmd_");
    reveal_strlit("pub fn rustbb_cmd_");
    reveal_strlit("() -> i32 {\n    ");
    reveal_strlit("() -> i32 {");
    reveal_strlit("::uumain(rustbb_runtime::args_os())\n}\n");
    reveal_strlit("::uumain(rustbb_runtime::args_os())");
    assert(t == a + crate_name + b + m + c + crate_name + d);
    let entry = "pub fn rustbb_cmd_"@ + m + "() -> i32 {"@;
    let st: int = (a.len() + crate_name.len() + 1) as int;
    assert(t.subrange(st, st + entry.len()) =~= entry);
    assert(occurs_at(t, entry, st));
    let call = crate_name + "::uumain(rustbb_runtime::args_os())"@;
    let off = (a + crate_name + b + m + c).len();
    assert(t.subrange(off as int, (off + call.len()) as int) =~= call);
    assert(occurs_at(t, call, off as int));
}

/// A command module for a uutils crate, for the command `cmd_name`; see
/// [`uucore_wrapper_text`].
pub fn generate_uucore_wrapper(uucore_crate_name: &str, cmd_name: &str) -> (r: String)
    ensures
        r@ == uucore_wrapper_text(uucore_crate_name@, sanitized(cmd_name@)),
{
    let sanitized_name = sanitize_name(cmd_name);
    uucore_wrapper_for(uucore_crate_name, sanitized_name.as_str())
}

/// A command module for a uutils crate, given the command's module identifier;
/// see [`uucore_wrapper_text`].
pub fn uucore_wrapper_for(uucore_crate_name: &str, module: &str) -> (r: String)
    ensures
        r@ == uucore_wrapper_text(uucore_crate_name@, module@),
{
    let mut r = "/// Auto-generated wrapper for ".to_owned();
    r.append(uucore_crate_name);
    r.append("\npub fn rustbb_cmd_");
    r.append(module);
    r.append("() -> i32 {\n    ");
    r.append(uucore_crate_name);
    r.append("::uumain(rustbb_runtime::args_os())\n}\n");
    r
}

/// What copying a crate's source directory does with one entry.
#[derive(Debug)]
pub enum EntryAction {
    /// `main.rs` is left out: the transformed main takes its place.
    Skip,
    /// A directory is copied recursively.
    Recurse,
    /// A Rust file is copied with its crate references rewritten.
    RewriteRust,
    /// Any other file is copied as it is.
    Copy,
}

/// What copying does with an entry named `file_name`.
pub open spec fn entry_action_of(file_name: Seq<char>, is_dir: bool) -> EntryAction {
    if file_name == "main.rs"@ {
        EntryAction::Skip
    } else if is_dir {
        EntryAction::Recurse
    } else if ends_with(file_name, ".rs"@) {
        EntryAction::RewriteRust
    } else {
        EntryAction::Copy
    }
}

/// Copying leaves out `main.rs`, descends into every other directory,
/// rewrites every other file whose name ends in `.rs`, and copies the rest as
/// it is.
pub proof fn law_entry_actions(file_name: Seq<char>, is_dir: bool)
    ensures
        file_name == "main.rs"@ ==> entry_action_of(file_name, is_dir) == EntryAction::Skip,
        file_name != "main.rs"@ && is_dir ==> entry_action_of(file_name, is_dir) == EntryAction::Recurse,
        file_name != "main.rs"@ && !is_dir && file_name.len() >= 3 && file_name.skip(file_name.len() - 3)
            == ".rs"@ ==> entry_action_of(file_name, is_dir) == EntryAction::RewriteRust,
        file_name != "main.rs"@ && !is_dir && !(file_name.len() >= 3 && file_name.skip(file_name.len() - 3)
            == ".rs"@) ==> entry_action_of(file_name, is_dir) == EntryAction::Copy,
{
    reveal_strlit(".rs");
}

/// What copying does with an entry; see [`entry_action_of`].
pub fn source_entry_action(file_name: &str, is_dir: bool) -> (r: EntryAction)
    ensures
        r == entry_action_of(file_name@, is_dir),
{
    if str_eq(file_name, "main.rs") {
        EntryAction::Skip
    } else if is_dir {
        EntryAction::Recurse
    } else if chars_end_with(&chars_of(file_name), &chars_of(".rs")) {
        EntryAction::RewriteRust
    } else {
        EntryAction::Copy
    }
}

/// A Unicode `White_Space` character (what a regular expression's `\s` matches).
pub open spec fn is_white_space(c: char) -> bool {
    ('\t' <= c && c <= '\r') || c == ' ' || c == '\u{85}' || c == '\u{a0}' || c == '\u{1680}' || (
    '\u{2000}' <= c && c <= '\u{200a}') || c == '\u{2028}' || c == '\u{2029}' || c == '\u{202f}'
        || c == '\u{205f}' || c == '\u{3000}'
}

/// A character taken as part of a word: an ASCII letter, digit or `_`, or a
/// non-ASCII character that is not white space.
pub open spec fn is_word_char(c: char) -> bool {
    ('a' <= c && c <= 'z') || ('A' <= c && c <= 'Z') || ('0' <= c && c <= '9') || c == '_' || (
    '\u{80}' <= c && !is_white_space(c))
}

fn white_space(c: char) -> (r: bool)
    ensures
        r == is_white_space(c),
{
    ('\t' <= c && c <= '\r') || c == ' ' || c == '\u{85}' || c == '\u{a0}' || c == '\u{1680}' || (
    '\u{2000}' <= c && c <= '\u{200a}') || c == '\u{2028}' || c == '\u{2029}' || c == '\u{202f}'
        || c == '\u{205f}' || c == '\u{3000}'
}

fn word_char(c: char) -> (r: bool)
    ensures
        r == is_word_char(c),
{
    ('a' <= c && c <= 'z') || ('A' <= c && c <= 'Z') || ('0' <= c && c <= '9') || c == '_' || (
    '\u{80}' <= c && !white_space(c))
}

/// The keyword `use`.
pub open spec fn use_keyword() -> Seq<char> {
    seq!['u', 's', 'e']
}

/// The path start `crate::`.
pub open spec fn crate_prefix() -> Seq<char> {
    seq!['c', 'r', 'a', 't', 'e', ':', ':']
}

/// The number of white-space characters in `s` from index `k` on.
pub open spec fn space_run(s: Seq<char>, k: int) -> nat
    decreases s.len() - k,
{
    if 0 <= k < s.len() && is_white_space(s[k]) {
        1 + space_run(s, k + 1)
    } else {
        0
    }
}

/// Where a `use crate::` path that does not yet go through `module` starts at
/// index `i` of `s`: `use` at the start of a word, white space, then
/// `crate::` not followed by `module::`. The result is the index after `crate::`.
pub open spec fn use_crate_match(s: Seq<char>, i: int, module: Seq<char>) -> Option<int> {
    if (i == 0 || (i > 0 && !is_word_char(s[i - 1]))) && occurs_at(s, use_keyword(), i) {
        let k = i + 3;
        let w = space_run(s, k);
        if w > 0 && occurs_at(s, crate_prefix(), k + w) && !occurs_at(
            s,
            module + seq![':', ':'],
            k + w + 7,
        ) {
            Some(k + w + 7)
        } else {
            None
        }
    } else {
        None
    }
}

/// What a `use crate::` reference is rewritten to: `use crate::module::`.
pub open spec fn rewritten_ref(module: Seq<char>) -> Seq<char> {
    use_keyword() + seq![' '] + crate_prefix() + module + seq![':', ':']
}

/// `s` from index `i` on with every such `use crate::` (found from left to
/// right, not overlapping) replaced by `use crate::module::`.
pub open spec fn rewrite_crate_refs_from(s: Seq<char>, i: int, module: Seq<char>) -> Seq<char>
    decreases s.len() - i,
{
    if i < 0 || i >= s.len() {
        Seq::empty()
    } else {
        match use_crate_match(s, i, module) {
            Some(j) => rewritten_ref(module) + rewrite_crate_refs_from(s, j, module),
            None => seq![s[i]] + rewrite_crate_refs_from(s, i + 1, module),
        }
    }
}

/// A source file of a crate that becomes the module `module` of the combined
/// crate: each `use crate::X` becomes `use crate::module::X`, unless it
/// already goes through `module`.
pub open spec fn crate_refs_rewritten(source: Seq<char>, module: Seq<char>) -> Seq<char> {
    rewrite_crate_refs_from(source, 0, module)
}

fn spaces_from(s: &Vec<char>, k: usize) -> (r: usize)
    requires
        k <= s.len(),
    ensures
        r == space_run(s@, k as int),
        k + r <= s.len(),
{
    let mut e = k;
    while e < s.len() && white_space(s[e])
        invariant
            k <= e <= s.len(),
            space_run(s@, k as int) == (e - k) + space_run(s@, e as int),
        decreases s.len() - e,
    {
        e = e + 1;
    }
    e - k
}

fn use_crate_at(s: &Vec<char>, i: usize, module: &Vec<char>, module_sep: &Vec<char>) -> (r: Option<usize>)
    requires
        i < s.len(),
        module_sep@ == module@ + seq![':', ':'],
    ensures
        match use_crate_match(s@, i as int, module@) {
            Some(j) => r == Some(j as usize),
            None => r is None,
        },
        r matches Some(j) ==> i < j <= s.len(),
{
    if !(i == 0 || !word_char(s[i - 1])) {
        return None;
    }
    let kw = chars_of("use");
    proof {
        reveal_strlit("use");
        assert(kw@ =~= use_keyword());
    }
    if !matches_at(s, &kw, i) {
        return None;
    }
    let k = i + 3;
    let w = spaces_from(s, k);
    if w == 0 {
        return None;
    }
    let cp = chars_of("crate::");
    proof {
        reveal_strlit("crate::");
        assert(cp@ =~= crate_prefix());
    }
    if !matches_at(s, &cp, k + w) {
        return None;
    }
    if matches_at(s, module_sep, k + w + 7) {
        return None;
    }
    Some(k + w + 7)
}

/// Rewrites the crate references of a source file; see [`crate_refs_rewritten`].
pub fn transform_crate_references(source: &str, module_name: &str) -> (r: String)
    ensures
        r@ == crate_refs_rewritten(source@, module_name@),
{
    let s = chars_of(source);
    let module = chars_of(module_name);
    let mut module_sep = chars_of(module_name);
    module_sep.push(':');
    module_sep.push(':');
    assert(module_sep@ =~= module@ + seq![':', ':']);
    let mut out = String::new();
    let mut i: usize = 0;
    assert(out@ + rewrite_crate_refs_from(s@, 0, module@) =~= rewrite_crate_refs_from(s@, 0, module@));
    while i < s.len()
        invariant
            i <= s.len(),
            s@ == source@,
            module@ == module_name@,
            module_sep@ == module@ + seq![':', ':'],
            crate_refs_rewritten(source@, module_name@) == out@ + rewrite_crate_refs_from(
                s@,
                i as int,
                module@,
            ),
        decreases s.len() - i,
    {
        let ghost before = out@;
        match use_crate_at(&s, i, &module, &module_sep) {
            Some(j) => {
                out.append("use crate::");
                out.append(module_name);
                push_char(&mut out, ':');
                push_char(&mut out, ':');
                proof {
                    reveal_strlit("use crate::");
                }
                assert(out@ =~= before + rewritten_ref(module@));
                assert(before + (rewritten_ref(module@) + rewrite_crate_refs_from(s@, j as int, module@)) =~= out@ + rewrite_crate_refs_from(s@, j as int, module@));
                i = j;
            },
            None => {
                push_char(&mut out, s[i]);
                assert(before + (seq![s@[i as int]] + rewrite_crate_refs_from(s@, i + 1, module@)) =~= out@ + rewrite_crate_refs_from(s@, i + 1, module@));
                i = i + 1;
            },
        }
    }
    assert(out@ + rewrite_crate_refs_from(s@, i as int, module@) =~= out@);
    out
}

/// No character of `m` is white space.
pub open spec fn no_white_space(m: Seq<char>) -> bool {
    forall|k: int| 0 <= k < m.len() ==> !is_white_space(#[trigger] m[k])
}

proof fn lemma_occurs_chars(hay: Seq<char>, needle: Seq<char>, i: int)
    ensures
        occurs_at(hay, needle, i) <==> (0 <= i && i + needle.len() <= hay.len() && forall|k: int|
            0 <= k < needle.len() ==> hay[i + k] == #[trigger] needle[k]),
{
    if 0 <= i && i + needle.len() <= hay.len() {
        if forall|k: int| 0 <= k < needle.len() ==> hay[i + k] == #[trigger] needle[k] {
            assert(hay.subrange(i, i + needle.len()) =~= needle);
        }
        if occurs_at(hay, needle, i) {
            assert forall|k: int| 0 <= k < needle.len() implies hay[i + k] == #[trigger] needle[k] by {
                assert(hay.subrange(i, i + needle.len())[k] == hay[i + k]);
            }
        }
    }
}

proof fn lemma_space_run_facts(x: Seq<char>, k: int)
    requires
        0 <= k <= x.len(),
    ensures
        k + space_run(x, k) <= x.len(),
        forall|t: int| k <= t < k + space_run(x, k) ==> is_white_space(#[trigger] x[t]),
        k + space_run(x, k) < x.len() ==> !is_white_space(x[k + space_run(x, k)]),
    decreases x.len() - k,
{
    if k < x.len() && is_white_space(x[k]) {
        lemma_space_run_facts(x, k + 1);
    }
}

proof fn lemma_space_run_eq(y: Seq<char>, k: int, n: nat)
    requires
        0 <= k,
        k + n <= y.len(),
        forall|t: int| k <= t < k + n ==> is_white_space(#[trigger] y[t]),
        k + n < y.len() ==> !is_white_space(y[k + n]),
    ensures
        space_run(y, k) == n,
    decreases n,
{
    if n > 0 {
        assert(is_white_space(y[k]));
        lemma_space_run_eq(y, k + 1, (n - 1) as nat);
    }
}

/// Where `m::` stands at `p` in `x`, a `use` that starts inside it is followed
/// by no white space.
proof fn lemma_no_use_inside(x: Seq<char>, p: int, m: Seq<char>, q: int)
    requires
        0 <= p,
        0 <= q < m.len() + 2,
        occurs_at(x, m + seq![':', ':'], p),
        occurs_at(x, use_keyword(), p + q),
        no_white_space(m),
    ensures
        space_run(x, p + q + 3) == 0,
{
    let ms = m + seq![':', ':'];
    lemma_occurs_chars(x, ms, p);
    lemma_occurs_chars(x, use_keyword(), p + q);
    assert(x[p + q] == ms[q]);
    assert(q + 2 < m.len()) by {
        if q + 2 >= m.len() {
            let t = if q >= m.len() { q } else if q + 1 >= m.len() { q + 1 } else { q + 2 };
            assert(x[p + t] == ms[t]);
            assert(x[p + t] == use_keyword()[t - q]);
        }
    }
    assert(x[p + q + 3] == ms[q + 3]);
    assert(!is_white_space(ms[q + 3])) by {
        if q + 3 < m.len() {
            assert(ms[q + 3] == m[q + 3]);
        }
    }
    lemma_space_run_facts(x, p + q + 3);
}

/// No `use crate::` reference to rewrite starts inside a rewritten one.
proof fn lemma_no_match_in_ref(u: Seq<char>, p: int, m: Seq<char>)
    requires
        0 <= p,
        p + rewritten_ref(m).len() <= u.len(),
        u.subrange(p, p + rewritten_ref(m).len()) == rewritten_ref(m),
        no_white_space(m),
    ensures
        forall|k: int| p <= k < p + rewritten_ref(m).len() ==> use_crate_match(u, k, m) is None,
{
    let b = rewritten_ref(m);
    let ms = m + seq![':', ':'];
    assert forall|x: int| 0 <= x < b.len() implies u[p + x] == b[x] by {
        assert(u.subrange(p, p + b.len())[x] == u[p + x]);
    }
    assert(b =~= use_keyword() + seq![' '] + crate_prefix() + ms);
    assert forall|x: int| 0 <= x < ms.len() implies u[p + 11 + x] == #[trigger] ms[x] by {
        assert(b[11 + x] == ms[x]);
    }
    lemma_occurs_chars(u, ms, p + 11);
    // At `p` the reference is already rewritten.
    lemma_occurs_chars(u, use_keyword(), p);
    assert(u[p + 3] == b[3] && b[3] == ' ');
    assert(u[p + 4] == b[4] && b[4] == 'c');
    lemma_space_run_eq(u, p + 3, 1);
    lemma_occurs_chars(u, crate_prefix(), p + 4);
    assert(use_crate_match(u, p, m) is None);
    assert forall|k: int| p < k < p + b.len() implies use_crate_match(u, k, m) is None by {
        let x = k - p;
        if use_crate_match(u, k, m) is Some {
            lemma_occurs_chars(u, use_keyword(), k);
            if x >= 11 {
                lemma_no_use_inside(u, p + 11, m, x - 11);
            } else {
                assert(u[k] == b[x]);
            }
        }
    }
}

/// A position of `s` at which nothing is rewritten stays so once the text after
/// it has been rewritten: `f` is where the next rewrite of `s` starts, and `t`
/// what the rewrite makes of `s` from `f` on.
proof fn lemma_copied_no_match(s: Seq<char>, i: int, m: Seq<char>, f: int, t: Seq<char>)
    requires
        0 <= i < f < s.len(),
        use_crate_match(s, i, m) is None,
        use_crate_match(s, f, m) is Some,
        no_white_space(m),
        t.len() > 0,
        t[0] == 'u',
    ensures
        use_crate_match(s.subrange(0, f) + t, i, m) is None,
{
    let u = s.subrange(0, f) + t;
    let ms = m + seq![':', ':'];
    assert(u[f] == 'u');
    assert forall|x: int| 0 <= x < f implies u[x] == s[x] by {}
    if use_crate_match(u, i, m) is Some {
        lemma_occurs_chars(u, use_keyword(), i);
        assert(f >= i + 3) by {
            if f < i + 3 {
                assert(u[f] == use_keyword()[f - i]);
            }
        }
        lemma_occurs_chars(s, use_keyword(), i);
        let k = i + 3;
        let w = space_run(u, k);
        lemma_space_run_facts(u, k);
        let c = k + w;
        lemma_occurs_chars(u, crate_prefix(), c);
        assert(u[c] == crate_prefix()[0]);
        assert(f > c) by {
            if f < c {
                assert(is_white_space(u[f]));
            }
        }
        lemma_space_run_eq(s, k, w);
        assert(f >= c + 7) by {
            if f < c + 7 {
                assert(u[f] == crate_prefix()[f - c]);
            }
        }
        lemma_occurs_chars(s, crate_prefix(), c);
        let e = c + 7;
        assert(occurs_at(s, ms, e));
        assert(!occurs_at(u, ms, e));
        lemma_occurs_chars(s, ms, e);
        lemma_occurs_chars(u, ms, e);
        assert(f < e + ms.len());
        lemma_occurs_chars(s, use_keyword(), f);
        lemma_no_use_inside(s, e, m, f - e);
    }
}

proof fn lemma_occurs_suffix(x: Seq<char>, n: Seq<char>, a: int, p: int)
    requires
        0 <= a <= p,
        a <= x.len(),
    ensures
        occurs_at(x, n, p) == occurs_at(x.subrange(a, x.len() as int), n, p - a),
{
    let y = x.subrange(a, x.len() as int);
    if p + n.len() <= x.len() {
        assert(y.subrange(p - a, p - a + n.len()) =~= x.subrange(p, p + n.len()));
    }
}

proof fn lemma_space_run_suffix(x: Seq<char>, a: int, p: int)
    requires
        0 <= a <= p,
        a <= x.len(),
    ensures
        space_run(x, p) == space_run(x.subrange(a, x.len() as int), p - a),
    decreases x.len() - p,
{
    if p < x.len() && is_white_space(x[p]) {
        lemma_space_run_suffix(x, a, p + 1);
    }
}

proof fn lemma_match_suffix(x: Seq<char>, a: int, p: int, m: Seq<char>)
    requires
        0 <= a < p,
        a <= x.len(),
    ensures
        (use_crate_match(x, p, m) is Some) == (use_crate_match(x.subrange(a, x.len() as int), p - a, m) is Some),
        use_crate_match(x, p, m) matches Some(j) ==> use_crate_match(x.subrange(a, x.len() as int), p - a, m)
            == Some(j - a),
{
    let y = x.subrange(a, x.len() as int);
    lemma_occurs_suffix(x, use_keyword(), a, p);
    if p - 1 < x.len() {
        assert(y[p - 1 - a] == x[p - 1]);
    }
    let k = p + 3;
    lemma_space_run_suffix(x, a, k);
    let w = space_run(x, k);
    lemma_occurs_suffix(x, crate_prefix(), a, k + w);
    lemma_occurs_suffix(x, m + seq![':', ':'], a, k + w + 7);
}

proof fn lemma_rewrite_suffix(x: Seq<char>, a: int, p: int, m: Seq<char>)
    requires
        0 <= a <= x.len(),
        0 <= p,
        a < p || a == 0,
    ensures
        rewrite_crate_refs_from(x, p, m) == rewrite_crate_refs_from(x.subrange(a, x.len() as int), p - a, m),
    decreases x.len() - p,
{
    let y = x.subrange(a, x.len() as int);
    if a == 0 {
        assert(y =~= x);
    } else if p < x.len() {
        lemma_match_suffix(x, a, p, m);
        assert(y[p - a] == x[p]);
        match use_crate_match(x, p, m) {
            Some(j) => {
                lemma_rewrite_suffix(x, a, j, m);
            },
            None => {
                lemma_rewrite_suffix(x, a, p + 1, m);
            },
        }
    }
}

proof fn lemma_rewrite_copy(u: Seq<char>, p: int, q: int, m: Seq<char>)
    requires
        0 <= p <= q <= u.len(),
        forall|k: int| p <= k < q ==> use_crate_match(u, k, m) is None,
    ensures
        rewrite_crate_refs_from(u, p, m) == u.subrange(p, q) + rewrite_crate_refs_from(u, q, m),
    decreases q - p,
{
    if p < q {
        lemma_rewrite_copy(u, p + 1, q, m);
        assert(u.subrange(p, q) =~= seq![u[p]] + u.subrange(p + 1, q));
    } else {
        assert(u.subrange(p, q) =~= Seq::<char>::empty());
    }
}

/// The first index at or after `k` where a reference is rewritten, or the
/// length of `s` where there is none.
pub open spec fn first_ref_from(s: Seq<char>, k: int, m: Seq<char>) -> int
    decreases s.len() - k,
{
    if k < 0 || k >= s.len() {
        s.len() as int
    } else if use_crate_match(s, k, m) is Some {
        k
    } else {
        first_ref_from(s, k + 1, m)
    }
}

proof fn lemma_first_ref(s: Seq<char>, k: int, m: Seq<char>)
    requires
        0 <= k <= s.len(),
    ensures
        k <= first_ref_from(s, k, m) <= s.len(),
        forall|t: int| k <= t < first_ref_from(s, k, m) ==> use_crate_match(s, t, m) is None,
        first_ref_from(s, k, m) < s.len() ==> use_crate_match(s, first_ref_from(s, k, m), m) is Some,
    decreases s.len() - k,
{
    if k < s.len() && use_crate_match(s, k, m) is None {
        lemma_first_ref(s, k + 1, m);
    }
}

proof fn lemma_match_end(s: Seq<char>, i: int, m: Seq<char>)
    requires
        use_crate_match(s, i, m) is Some,
    ensures
        i < use_crate_match(s, i, m)->0 <= s.len(),
        s[use_crate_match(s, i, m)->0 - 1] == ':',
{
    let k = i + 3;
    let w = space_run(s, k);
    lemma_occurs_chars(s, crate_prefix(), k + w);
    assert(crate_prefix()[6] == ':');
}

/// Rewriting `s` from `i` on, then rewriting that again in place, changes
/// nothing more.
proof fn lemma_rewrite_stable(s: Seq<char>, i: int, m: Seq<char>)
    requires
        0 <= i <= s.len(),
        no_white_space(m),
    ensures
        rewrite_crate_refs_from(s.subrange(0, i) + rewrite_crate_refs_from(s, i, m), i, m)
            == rewrite_crate_refs_from(s, i, m),
    decreases s.len() - i,
{
    let r = rewrite_crate_refs_from(s, i, m);
    let u = s.subrange(0, i) + r;
    if i == s.len() {
        assert(r =~= Seq::<char>::empty());
    } else {
        match use_crate_match(s, i, m) {
            None => {
                let r1 = rewrite_crate_refs_from(s, i + 1, m);
                lemma_rewrite_stable(s, i + 1, m);
                assert(u =~= s.subrange(0, i + 1) + r1);
                let f = first_ref_from(s, i + 1, m);
                lemma_first_ref(s, i + 1, m);
                lemma_rewrite_copy(s, i + 1, f, m);
                let t = rewrite_crate_refs_from(s, f, m);
                assert(u =~= s.subrange(0, f) + t);
                if f == s.len() {
                    assert(t =~= Seq::<char>::empty());
                    assert(u =~= s);
                } else {
                    assert(t[0] == rewritten_ref(m)[0]);
                    lemma_copied_no_match(s, i, m, f, t);
                }
                assert(u[i] == s[i]);
            },
            Some(j) => {
                lemma_match_end(s, i, m);
                let b = rewritten_ref(m);
                let rj = rewrite_crate_refs_from(s, j, m);
                lemma_rewrite_stable(s, j, m);
                assert(u =~= s.subrange(0, i) + b + rj);
                assert(u.subrange(i, i + b.len()) =~= b);
                lemma_no_match_in_ref(u, i, m);
                lemma_rewrite_copy(u, i, i + b.len(), m);
                let v = s.subrange(0, j) + rj;
                lemma_rewrite_suffix(u, i + b.len() - 1, i + b.len(), m);
                lemma_rewrite_suffix(v, j - 1, j, m);
                assert(b[b.len() - 1] == ':');
                assert(u.subrange(i + b.len() - 1, u.len() as int) =~= v.subrange(j - 1, v.len() as int));
            },
        }
    }
}

/// Rewriting the crate references of a file a second time changes nothing,
/// for a module name without white space.
pub proof fn law_crate_refs_idempotent(source: Seq<char>, module: Seq<char>)
    requires
        no_white_space(module),
    ensures
        crate_refs_rewritten(crate_refs_rewritten(source, module), module) == crate_refs_rewritten(source, module),
{
    lemma_rewrite_stable(source, 0, module);
    assert(source.subrange(0, 0) + crate_refs_rewritten(source, module) =~= crate_refs_rewritten(source, module));
}

/// A file that starts with `use`, white space, then `crate::` followed by
/// anything but `module::`, starts with `use crate::module::` once rewritten.
pub proof fn law_rewrites_leading_use(w: Seq<char>, rest: Seq<char>, module: Seq<char>)
    requires
        w.len() > 0,
        forall|k: int| 0 <= k < w.len() ==> is_white_space(#[trigger] w[k]),
        !starts_with(rest, module + seq![':', ':']),
    ensures
        starts_with(
            crate_refs_rewritten("use"@ + w + "crate::"@ + rest, module),
            "use crate::"@ + module + "::"@,
        ),
{
    reveal_strlit("use");
    reveal_strlit("crate::");
    reveal_strlit("use crate::");
    reveal_strlit("::");
    let s = "use"@ + w + "crate::"@ + rest;
    let ms = module + seq![':', ':'];
    let n: int = w.len() as int;
    let j: int = 3 + n + 7;
    assert(s.subrange(0, 3) =~= use_keyword());
    assert forall|t: int| 3 <= t < 3 + w.len() implies is_white_space(#[trigger] s[t]) by {
        assert(s[t] == w[t - 3]);
    }
    assert(s[3 + n] == 'c');
    lemma_space_run_eq(s, 3, w.len());
    assert(s.subrange(3 + n, 3 + n + 7) =~= crate_prefix());
    if occurs_at(s, ms, j) {
        assert(s.subrange(j, j + ms.len()) =~= rest.take(ms.len() as int));
    }
    assert(use_crate_match(s, 0, module) == Some(j));
    assert(rewritten_ref(module) =~= "use crate::"@ + module + "::"@);
    let r = crate_refs_rewritten(s, module);
    assert(r == rewritten_ref(module) + rewrite_crate_refs_from(s, j, module));
    assert(r.take(rewritten_ref(module).len() as int) =~= rewritten_ref(module));
}

/// A file in which no `use crate::` reference is to be rewritten is left as it is.
pub proof fn law_rewrite_nothing_to_do(source: Seq<char>, module: Seq<char>)
    requires
        forall|k: int| 0 <= k < source.len() ==> use_crate_match(source, k, module) is None,
    ensures
        crate_refs_rewritten(source, module) == source,
{
    lemma_rewrite_copy(source, 0, source.len() as int, module);
    assert(source.subrange(0, source.len() as int) =~= source);
    assert(rewrite_crate_refs_from(source, source.len() as int, module) =~= Seq::<char>::empty());
}

/// The crates kept for the build are those, and only those, for which a
/// transformed source exists, in their order.
pub proof fn law_select_transformed(crates: Seq<CrateInfo>, transformed: Seq<(Seq<char>, String)>, i: int)
    ensures
        0 <= i < transformed_crates(crates, transformed).len() ==> lookup(
            transformed,
            transformed_crates(crates, transformed)[i].name@,
        ) is Some && crates.contains(transformed_crates(crates, transformed)[i]),
        0 <= i < crates.len() && lookup(transformed, crates[i].name@) is Some ==> transformed_crates(
            crates,
            transformed,
        ).contains(crates[i]),
        transformed_crates(crates, transformed).len() <= crates.len(),
    decreases crates.len(),
{
    broadcast use vstd::seq_lib::group_filter_ensures;
    reveal(Seq::filter);
    let pred = |c: CrateInfo| lookup(transformed, c.name@) is Some;
    let f = transformed_crates(crates, transformed);
    if 0 <= i < crates.len() && lookup(transformed, crates[i].name@) is Some {
        crates.lemma_filter_contains(pred, i);
    }
    if crates.len() > 0 {
        let pre = crates.drop_last();
        let fp = transformed_crates(pre, transformed);
        assert(f == if pred(crates.last()) { fp.push(crates.last()) } else { fp });
        if 0 <= i < fp.len() {
            law_select_transformed(pre, transformed, i);
            assert(f[i] == fp[i]);
            let k = choose|k: int| 0 <= k < pre.len() && pre[k] == fp[i];
            assert(crates[k] == fp[i]);
        } else if 0 <= i < f.len() {
            assert(f[i] == crates.last());
            assert(crates[crates.len() - 1] == f[i]);
        }
    }
}

} // verus!
