use vstd::prelude::*;

use core::convert::Infallible;

use crate::discovery::{
    clone_dep, clone_opt_string, dep_views, lemma_dep_views_insert, lemma_dep_views_lookup,
    lemma_dep_views_sorted, opt_view, CrateInfo, DepInfo, DepView,
};
use crate::sorted_map::{
    insert_sorted, keys_of, keys_sorted, lemma_insert_sorted_keeps_sorted,
    lemma_insert_sorted_replace, lemma_keys_contains_lookup, lemma_lookup_insert_sorted,
    lemma_lookup_push, lemma_sorted_drop_last, lookup, SortedMap,
};
use crate::text::str_lt;
use crate::text::{
    ends_with, has_substring, join_strings, join_with, starts_with, lemma_join_with_part, lemma_occurs_in_middle, occurs_at,
    string_views,
};
use crate::transform::{sanitize_name, sanitized};

verus! {

/// Inserts each key of `xs`, in order, into the sorted key list `s`.
pub open spec fn insert_all_keys(s: Seq<(Seq<char>, ())>, xs: Seq<Seq<char>>) -> Seq<(Seq<char>, ())>
    decreases xs.len(),
{
    if xs.len() == 0 {
        s
    } else {
        insert_sorted(insert_all_keys(s, xs.drop_last()), xs.last(), ())
    }
}

/// The features of both lists, sorted, each once.
pub open spec fn feature_union(a: Seq<Seq<char>>, b: Seq<Seq<char>>) -> Seq<Seq<char>> {
    keys_of(insert_all_keys(Seq::empty(), a + b))
}

/// What one dependency entry becomes when merged into what the table already
/// holds under its name: a new name keeps the entry as it is; for a name
/// already there the features become the sorted union of both, the version is
/// the one already there unless only the new entry has one, and `optional`
/// stays as it was.
pub open spec fn merge_entry(e: Option<DepView>, info: DepView) -> DepView {
    match e {
        Some(e) => DepView {
            version: if e.version is None && info.version is Some {
                info.version
            } else {
                e.version
            },
            features: feature_union(e.features, info.features),
            optional: e.optional,
        },
        None => info,
    }
}

/// Merges one dependency into the merged table; see [`merge_entry`].
pub open spec fn merge_one(m: Seq<(Seq<char>, DepView)>, name: Seq<char>, info: DepView) -> Seq<(Seq<char>, DepView)> {
    insert_sorted(m, name, merge_entry(lookup(m, name), info))
}

/// Merges the dependencies of `deps`, in order, into `m`.
pub open spec fn merge_all(m: Seq<(Seq<char>, DepView)>, deps: Seq<(Seq<char>, DepView)>) -> Seq<(Seq<char>, DepView)>
    decreases deps.len(),
{
    if deps.len() == 0 {
        m
    } else {
        merge_one(merge_all(m, deps.drop_last()), deps.last().0, deps.last().1)
    }
}

/// Merges one crate: a crate with a library first becomes a dependency itself
/// (replacing any entry of that name), then its dependencies are merged.
pub open spec fn merge_crate(m: Seq<(Seq<char>, DepView)>, c: CrateInfo) -> Seq<(Seq<char>, DepView)> {
    let with_lib = if c.has_library {
        insert_sorted(
            m,
            c.name@,
            DepView { version: opt_view(c.version), features: Seq::empty(), optional: false },
        )
    } else {
        m
    };
    merge_all(with_lib, dep_views(c.dependencies.pairs()))
}

/// The dependencies of the combined crate, merged from all crates in order.
pub open spec fn merged_dependencies(crates: Seq<CrateInfo>) -> Seq<(Seq<char>, DepView)>
    decreases crates.len(),
{
    if crates.len() == 0 {
        Seq::empty()
    } else {
        merge_crate(merged_dependencies(crates.drop_last()), crates.last())
    }
}

/// The sorted union of two feature lists; see [`feature_union`].
fn union_features(a: &Vec<String>, b: &Vec<String>) -> (r: Vec<String>)
    ensures
        string_views(r@) == feature_union(string_views(a@), string_views(b@)),
{
    let ghost sa = string_views(a@);
    let ghost sb = string_views(b@);
    let ghost all = sa + sb;
    let mut set: SortedMap<()> = SortedMap::new();
    assert(all.take(0) =~= Seq::<Seq<char>>::empty());
    for i in 0..a.len()
        invariant
            sa == string_views(a@),
            all == sa + sb,
            set.pairs() == insert_all_keys(Seq::empty(), all.take(i as int)),
    {
        assert(all.take(i + 1).drop_last() =~= all.take(i as int));
        assert(all.take(i + 1).last() == a@[i as int]@);
        set.insert(a[i].clone(), ());
    }
    for j in 0..b.len()
        invariant
            sa == string_views(a@),
            sb == string_views(b@),
            all == sa + sb,
            set.pairs() == insert_all_keys(Seq::empty(), all.take(a.len() + j)),
    {
        assert(all.take(a.len() + j + 1).drop_last() =~= all.take(a.len() + j));
        assert(all.take(a.len() + j + 1).last() == b@[j as int]@);
        set.insert(b[j].clone(), ());
    }
    assert(all.take(a.len() + b.len()) =~= all);
    let mut r: Vec<String> = Vec::new();
    let n = set.len();
    for k in 0..n
        invariant
            n == set.pairs().len(),
            string_views(r@) == keys_of(set.pairs()).take(k as int),
    {
        let ghost before = r@;
        let key = set.key_at(k).clone();
        r.push(key);
        assert(string_views(r@) =~= string_views(before).push(key@));
        assert(keys_of(set.pairs()).take(k + 1) =~= keys_of(set.pairs()).take(k as int).push(
            key@,
        ));
    }
    assert(keys_of(set.pairs()).take(n as int) =~= keys_of(set.pairs()));
    r
}

/// Merges one dependency into the table; see [`merge_one`].
fn merge_dependency(merged: &mut SortedMap<DepInfo>, name: &String, info: &DepInfo)
    ensures
        dep_views(final(merged).pairs()) == merge_one(dep_views(old(merged).pairs()), name@, info@),
{
    let ghost before = merged.pairs();
    proof {
        SortedMap::lemma_sorted(&*merged);
        lemma_dep_views_lookup(before, name@);
    }
    match merged.index_of(name.as_str()) {
        Some(i) => {
            let e = merged.value_at(i);
            let version = if e.version.is_none() && info.version.is_some() {
                clone_opt_string(&info.version)
            } else {
                clone_opt_string(&e.version)
            };
            let features = union_features(&e.features, &info.features);
            let updated = DepInfo { version, features, optional: e.optional };
            let ghost uv = updated@;
            merged.set_value_at(i, updated);
            proof {
                lemma_dep_views_sorted(before);
                lemma_insert_sorted_replace(dep_views(before), name@, uv, i as int);
                assert(dep_views(merged.pairs()) =~= dep_views(before).update(i as int, (name@, uv)));
            }
        },
        None => {
            let copy = clone_dep(info);
            proof {
                lemma_dep_views_insert(before, name@, copy);
            }
            merged.insert(name.clone(), copy);
        },
    }
}

/// Merges the dependencies of all crates; see [`merged_dependencies`].
pub fn merge_dependencies(crates: &Vec<CrateInfo>) -> (r: SortedMap<DepInfo>)
    ensures
        dep_views(r.pairs()) == merged_dependencies(crates@),
{
    let mut merged: SortedMap<DepInfo> = SortedMap::new();
    assert(dep_views(merged.pairs()) =~= Seq::<(Seq<char>, DepView)>::empty());
    for ci in 0..crates.len()
        invariant
            dep_views(merged.pairs()) == merged_dependencies(crates@.take(ci as int)),
    {
        let c = &crates[ci];
        assert(crates@.take(ci + 1).drop_last() =~= crates@.take(ci as int));
        let ghost start = dep_views(merged.pairs());
        if c.has_library {
            let lib = DepInfo { version: clone_opt_string(&c.version), features: Vec::new(), optional: false };
            assert(lib@.features =~= Seq::<Seq<char>>::empty());
            proof {
                lemma_dep_views_insert(merged.pairs(), c.name@, lib);
            }
            merged.insert(c.name.clone(), lib);
        }
        let ghost with_lib = dep_views(merged.pairs());
        let ghost deps = dep_views(c.dependencies.pairs());
        let n = c.dependencies.len();
        for di in 0..n
            invariant
                n == c.dependencies.pairs().len(),
                deps == dep_views(c.dependencies.pairs()),
                dep_views(merged.pairs()) == merge_all(with_lib, deps.take(di as int)),
        {
            assert(deps.take(di + 1).drop_last() =~= deps.take(di as int));
            let name = c.dependencies.key_at(di);
            let info = c.dependencies.value_at(di);
            assert(deps.take(di + 1).last() == (name@, info@));
            merge_dependency(&mut merged, name, info);
        }
        assert(deps.take(n as int) =~= deps);
    }
    assert(crates@.take(crates.len() as int) =~= crates@);
    merged
}

/// Each feature in double quotes.
pub open spec fn quoted(fs: Seq<Seq<char>>) -> Seq<Seq<char>> {
    Seq::new(fs.len(), |i: int| "\""@ + fs[i] + "\""@)
}

/// The manifest line for one dependency: `name = "version"`, or, with
/// features, `name = { version = "version", features = ["a", "b"] }`; a
/// dependency without a version gets `*`.
pub open spec fn dependency_line(name: Seq<char>, d: DepView) -> Seq<char> {
    let version = match d.version {
        Some(v) => v,
        None => "*"@,
    };
    if d.features.len() > 0 {
        name + " = { version = \""@ + version + "\", features = ["@ + join_with(
            quoted(d.features),
            ", "@,
        ) + "] }"@
    } else {
        name + " = \""@ + version + "\""@
    }
}

/// Formats one dependency for the manifest; see [`dependency_line`].
pub fn format_dependency(name: &str, info: &DepInfo) -> (r: String)
    ensures
        r@ == dependency_line(name@, info@),
{
    let mut r = name.to_owned();
    if info.features.len() > 0 {
        let mut quoted_features: Vec<String> = Vec::new();
        for i in 0..info.features.len()
            invariant
                string_views(quoted_features@) == quoted(string_views(info.features@)).take(i as int),
        {
            let mut q = "\"".to_owned();
            q.append(info.features[i].as_str());
            q.append("\"");
            let ghost before = quoted_features@;
            quoted_features.push(q);
            assert(string_views(quoted_features@) =~= string_views(before).push(q@));
            assert(quoted(string_views(info.features@)).take(i + 1) =~= quoted(
                string_views(info.features@),
            ).take(i as int).push(q@));
        }
        assert(quoted(string_views(info.features@)).take(info.features.len() as int) =~= quoted(
            string_views(info.features@),
        ));
        r.append(" = { version = \"");
        match &info.version {
            Some(v) => r.append(v.as_str()),
            None => r.append("*"),
        }
        r.append("\", features = [");
        let list = join_strings(&quoted_features, ", ");
        r.append(list.as_str());
        r.append("] }");
    } else {
        r.append(" = \"");
        match &info.version {
            Some(v) => r.append(v.as_str()),
            None => r.append("*"),
        }
        r.append("\"");
    }
    r
}

/// The dependency lines of the merged table, each ending in a newline.
pub open spec fn dependency_lines(m: Seq<(Seq<char>, DepView)>) -> Seq<char>
    decreases m.len(),
{
    if m.len() == 0 {
        Seq::empty()
    } else {
        dependency_lines(m.drop_last()) + dependency_line(m.last().0, m.last().1) + "\n"@
    }
}

/// The manifest of the combined crate: a package and binary named
/// `output_name`, the runtime at `runtime_path`, the merged dependencies, and
/// a release profile tuned for size.
pub open spec fn cargo_toml_text(output_name: Seq<char>, runtime_path: Seq<char>, deps: Seq<char>) -> Seq<char> {
    "[package]\nname = \""@ + output_name + "\"\nversion = \"0.1.0\"\nedition = \"2021\"\n\n[[bin]]\nname = \""@
        + output_name + "\"\npath = \"src/main.rs\"\n\n[dependencies]\nrustbb_runtime = { path = \""@
        + runtime_path + "\" }\n"@ + deps
        + "\n[profile.release]\nopt-level = \"z\"\nlto = true\ncodegen-units = 1\npanic = \"abort\"\nstrip = true\n"@
}


/// Generates the manifest of the combined crate; see [`cargo_toml_text`].
pub fn generate_cargo_toml(crates: &Vec<CrateInfo>, output_name: &str, runtime_path: &str) -> (r: Result<String, Infallible>)
    ensures
        r matches Ok(t) && t@ == cargo_toml_text(
            output_name@,
            runtime_path@,
            dependency_lines(merged_dependencies(crates@)),
        ),
{
    Ok(cargo_toml_string(crates, output_name, runtime_path))
}

fn cargo_toml_string(crates: &Vec<CrateInfo>, output_name: &str, runtime_path: &str) -> (t: String)
    ensures
        t@ == cargo_toml_text(
            output_name@,
            runtime_path@,
            dependency_lines(merged_dependencies(crates@)),
        ),
{
    let merged = merge_dependencies(crates);
    let ghost m = dep_views(merged.pairs());
    let mut deps_str = String::new();
    let n = merged.len();
    assert(m.take(0) =~= Seq::<(Seq<char>, DepView)>::empty());
    for i in 0..n
        invariant
            n == merged.pairs().len(),
            m == dep_views(merged.pairs()),
            deps_str@ == dependency_lines(m.take(i as int)),
    {
        assert(m.take(i + 1).drop_last() =~= m.take(i as int));
        let name = merged.key_at(i);
        let info = merged.value_at(i);
        assert(m.take(i + 1).last() == (name@, info@));
        let line = format_dependency(name.as_str(), info);
        deps_str.append(line.as_str());
        deps_str.append("\n");
    }
    assert(m.take(n as int) =~= m);
    let mut toml = "[package]\nname = \"".to_owned();
    toml.append(output_name);
    toml.append("\"\nversion = \"0.1.0\"\nedition = \"2021\"\n\n[[bin]]\nname = \"");
    toml.append(output_name);
    toml.append("\"\npath = \"src/main.rs\"\n\n[dependencies]\nrustbb_runtime = { path = \"");
    toml.append(runtime_path);
    toml.append("\" }\n");
    toml.append(deps_str.as_str());
    toml.append(
        "\n[profile.release]\nopt-level = \"z\"\nlto = true\ncodegen-units = 1\npanic = \"abort\"\nstrip = true\n",
    );
    toml
}

/// A dependency without features is the line `name = "version"`, or
/// `name = "*"` without a version; one with features is the line
/// `name = { version = "version", features = [...] }` in which every feature
/// appears in double quotes.
pub proof fn law_dependency_line_form(name: Seq<char>, d: DepView, i: int)
    ensures
        ({
            let v = match d.version {
                Some(v) => v,
                None => "*"@,
            };
            &&& d.features.len() == 0 ==> dependency_line(name, d) == name + " = \""@ + v + "\""@
            &&& d.features.len() > 0 ==> starts_with(
                dependency_line(name, d),
                name + " = { version = \""@ + v + "\", features = ["@,
            )
            &&& d.features.len() > 0 ==> ends_with(dependency_line(name, d), "] }"@)
            &&& 0 <= i < d.features.len() ==> has_substring(dependency_line(name, d), "\""@ + d.features[i] + "\""@)
        }),
{
    let v = match d.version {
        Some(v) => v,
        None => "*"@,
    };
    if d.features.len() > 0 {
        let head = name + " = { version = \""@ + v + "\", features = ["@;
        let list = join_with(quoted(d.features), ", "@);
        let line = dependency_line(name, d);
        assert(line == head + list + "] }"@);
        assert(line.take(head.len() as int) =~= head);
        assert(line.skip(line.len() - "] }"@.len()) =~= "] }"@);
        if 0 <= i < d.features.len() {
            let k = lemma_join_with_part(quoted(d.features), ", "@, i);
            lemma_occurs_in_middle(head, list, "] }"@, quoted(d.features)[i], k);
        }
    }
}

proof fn lemma_dependency_lines_part(m: Seq<(Seq<char>, DepView)>, i: int) -> (k: int)
    requires
        0 <= i < m.len(),
    ensures
        occurs_at(dependency_lines(m), dependency_line(m[i].0, m[i].1) + "\n"@, k),
    decreases m.len(),
{
    let prev = dependency_lines(m.drop_last());
    let line = dependency_line(m[i].0, m[i].1) + "\n"@;
    if i == m.len() - 1 {
        assert(dependency_lines(m) == prev + dependency_line(m.last().0, m.last().1) + "\n"@);
        assert(line.subrange(0, line.len() as int) =~= line);
        lemma_occurs_in_middle(prev, line, Seq::empty(), line, 0);
        assert(prev + line + Seq::<char>::empty() =~= dependency_lines(m));
        prev.len() as int
    } else {
        let k = lemma_dependency_lines_part(m.drop_last(), i);
        assert(m.drop_last()[i] == m[i]);
        lemma_occurs_in_middle(Seq::empty(), prev, dependency_line(m.last().0, m.last().1) + "\n"@, line, k);
        assert(Seq::<char>::empty() + prev + (dependency_line(m.last().0, m.last().1) + "\n"@) =~= dependency_lines(m));
        k
    }
}

/// The combined manifest names the package `output_name`, depends on the
/// runtime at `runtime_path`, and holds, each on a line of its own, the
/// dependency line of every merged dependency.
pub proof fn law_cargo_toml_holds_each_dependency(crates: Seq<CrateInfo>, output_name: Seq<char>, runtime_path: Seq<char>, i: int)
    ensures
        ({
            let toml = cargo_toml_text(output_name, runtime_path, dependency_lines(merged_dependencies(crates)));
            let m = merged_dependencies(crates);
            &&& starts_with(toml, "[package]\nname = \""@ + output_name + "\"\n"@)
            &&& has_substring(toml, "\n[dependencies]\nrustbb_runtime = { path = \""@ + runtime_path + "\" }\n"@)
            &&& 0 <= i < m.len() ==> has_substring(toml, dependency_line(m[i].0, m[i].1) + "\n"@)
        }),
{
    let m = merged_dependencies(crates);
    let deps = dependency_lines(m);
    let toml = cargo_toml_text(output_name, runtime_path, deps);
    let a = "[package]\nname = \""@;
    let b = "\"\nversion = \"0.1.0\"\nedition = \"2021\"\n\n[[bin]]\nname = \""@;
    let c = "\"\npath = \"src/main.rs\"\n\n[dependencies]\nrustbb_runtime = { path = \""@;
    let d = "\" }\n"@;
    let e = "\n[profile.release]\nopt-level = \"z\"\nlto = true\ncodegen-units = 1\npanic = \"abort\"\nstrip = true\n"@;
    assert(toml == a + output_name + b + output_name + c + runtime_path + d + deps + e);
    reveal_strlit("\"\nversion = \"0.1.0\"\nedition = \"2021\"\n\n[[bin]]\nname = \"");
    reveal_strlit("\"\n");
    reveal_strlit("\"\npath = \"src/main.rs\"\n\n[dependencies]\nrustbb_runtime = { path = \"");
    reveal_strlit("\n[dependencies]\nrustbb_runtime = { path = \"");
    let head = a + output_name + "\"\n"@;
    assert(b.take(2) =~= "\"\n"@);
    assert(toml.take(head.len() as int) =~= head);
    let c2 = "\n[dependencies]\nrustbb_runtime = { path = \""@;
    assert(c.skip(c.len() - c2.len()) =~= c2);
    let pre = a + output_name + b + output_name + c.take(c.len() - c2.len());
    let runtime_line = c2 + runtime_path + d;
    assert(toml =~= pre + runtime_line + (deps + e));
    assert(runtime_line.subrange(0, runtime_line.len() as int) =~= runtime_line);
    lemma_occurs_in_middle(pre, runtime_line, deps + e, runtime_line, 0);
    if 0 <= i < m.len() {
        let k = lemma_dependency_lines_part(m, i);
        let p2 = a + output_name + b + output_name + c + runtime_path + d;
        lemma_occurs_in_middle(p2, deps, e, dependency_line(m[i].0, m[i].1) + "\n"@, k);
        assert(p2 + deps + e =~= toml);
    }
}

/// A command module is kept under a name exactly when some crate has that
/// name, and it is then the transformed source found under that name.
pub proof fn law_command_modules(crates: Seq<CrateInfo>, sources: Seq<(Seq<char>, String)>, name: Seq<char>)
    ensures
        lookup(command_modules_of(crates, sources), name) == (if exists|i: int|
            0 <= i < crates.len() && #[trigger] crates[i].name@ == name {
            lookup(sources, name)
        } else {
            None
        }),
    decreases crates.len(),
{
    if crates.len() > 0 {
        let prev = crates.drop_last();
        law_command_modules(prev, sources, name);
        let last = crates.last().name@;
        match lookup(sources, last) {
            Some(src) => lemma_lookup_insert_sorted(command_modules_of(prev, sources), last, src, name),
            None => {},
        }
        if exists|i: int| 0 <= i < prev.len() && #[trigger] prev[i].name@ == name {
            let i = choose|i: int| 0 <= i < prev.len() && #[trigger] prev[i].name@ == name;
            assert(crates[i] == prev[i]);
        }
        if exists|i: int| 0 <= i < crates.len() && #[trigger] crates[i].name@ == name {
            let i = choose|i: int| 0 <= i < crates.len() && #[trigger] crates[i].name@ == name;
            if i < crates.len() - 1 {
                assert(prev[i] == crates[i]);
            }
        }
    }
}

/// The names of the crates, in order.
pub open spec fn crate_names(crates: Seq<CrateInfo>) -> Seq<Seq<char>> {
    Seq::new(crates.len(), |i: int| crates[i].name@)
}

/// Each command name with the module identifier made from it.
pub open spec fn commands_of(names: Seq<Seq<char>>) -> Seq<(Seq<char>, Seq<char>)> {
    Seq::new(names.len(), |i: int| (names[i], sanitized(names[i])))
}

/// The module declaration of a command.
pub open spec fn mod_decl(module: Seq<char>) -> Seq<char> {
    "mod "@ + module + ";"@
}

/// The line that registers the command `name`, whose module is `module`.
pub open spec fn registration(name: Seq<char>, module: Seq<char>) -> Seq<char> {
    "    registry.register(\""@ + name + "\", "@ + module + "::rustbb_cmd_"@ + module + ");"@
}

/// The `main.rs` of the combined crate for these commands (each a name and its
/// module identifier): a module per command, and a `main` that registers each
/// command under its name and dispatches.
pub open spec fn main_rs_text(commands: Seq<(Seq<char>, Seq<char>)>) -> Seq<char> {
    "use rustbb_runtime::{Registry, dispatch};\n\n"@ + join_with(
        Seq::new(commands.len(), |i: int| mod_decl(commands[i].1)),
        "\n"@,
    ) + "\n\nfn main() {\n    let mut registry = Registry::new();\n\n"@ + join_with(
        Seq::new(commands.len(), |i: int| registration(commands[i].0, commands[i].1)),
        "\n"@,
    ) + "\n\n    dispatch(&registry);\n}\n"@
}

/// In the `main.rs` for a list of commands, every command `(name, module)`
/// has its module declared as `mod module;` and is registered under its own
/// name with the entry function of its own module:
/// `registry.register("name", module::rustbb_cmd_module);`.
pub proof fn law_main_rs_registers_each(commands: Seq<(Seq<char>, Seq<char>)>, i: int)
    requires
        0 <= i < commands.len(),
    ensures
        has_substring(main_rs_text(commands), "mod "@ + commands[i].1 + ";"@),
        has_substring(
            main_rs_text(commands),
            "    registry.register(\""@ + commands[i].0 + "\", "@ + commands[i].1 + "::rustbb_cmd_"@ + commands[i].1
                + ");"@,
        ),
{
    let decls = Seq::new(commands.len(), |j: int| mod_decl(commands[j].1));
    let regs = Seq::new(commands.len(), |j: int| registration(commands[j].0, commands[j].1));
    let p = "use rustbb_runtime::{Registry, dispatch};\n\n"@;
    let q = "\n\nfn main() {\n    let mut registry = Registry::new();\n\n"@;
    let r = "\n\n    dispatch(&registry);\n}\n"@;
    let jd = join_with(decls, "\n"@);
    let jr = join_with(regs, "\n"@);
    assert(main_rs_text(commands) == p + jd + q + jr + r);
    let kd = lemma_join_with_part(decls, "\n"@, i);
    lemma_occurs_in_middle(p, jd, q + jr + r, decls[i], kd);
    assert(p + jd + (q + jr + r) =~= main_rs_text(commands));
    assert(occurs_at(main_rs_text(commands), "mod "@ + commands[i].1 + ";"@, p.len() + kd));
    let kr = lemma_join_with_part(regs, "\n"@, i);
    lemma_occurs_in_middle(p + jd + q, jr, r, regs[i], kr);
    let line = "    registry.register(\""@ + commands[i].0 + "\", "@ + commands[i].1 + "::rustbb_cmd_"@ + commands[i].1
        + ");"@;
    assert(regs[i] == line);
    assert(occurs_at(main_rs_text(commands), line, (p + jd + q).len() + kr));
}

/// The `main.rs` generated for a list of crates declares, for each crate, the
/// module made from its own name, and registers the crate's name with that
/// same module's entry function.
pub proof fn law_generated_main_registers_each(crates: Seq<CrateInfo>, i: int)
    requires
        0 <= i < crates.len(),
    ensures
        has_substring(
            main_rs_text(commands_of(crate_names(crates))),
            "mod "@ + sanitized(crates[i].name@) + ";"@,
        ),
        has_substring(
            main_rs_text(commands_of(crate_names(crates))),
            "    registry.register(\""@ + crates[i].name@ + "\", "@ + sanitized(crates[i].name@) + "::rustbb_cmd_"@
                + sanitized(crates[i].name@) + ");"@,
        ),
{
    law_main_rs_registers_each(commands_of(crate_names(crates)), i);
}

/// The commands, each a name and a module identifier, taken by their characters.
pub open spec fn command_views(c: Seq<(String, String)>) -> Seq<(Seq<char>, Seq<char>)> {
    Seq::new(c.len(), |i: int| (c[i].0@, c[i].1@))
}

/// Generates the `main.rs` of the combined crate; see [`main_rs_text`].
pub fn generate_main_rs(crates: &Vec<CrateInfo>) -> (r: Result<String, Infallible>)
    ensures
        r matches Ok(t) && t@ == main_rs_text(commands_of(crate_names(crates@))),
{
    Ok(main_rs_string(crates))
}

fn main_rs_string(crates: &Vec<CrateInfo>) -> (t: String)
    ensures
        t@ == main_rs_text(commands_of(crate_names(crates@))),
{
    let mut commands: Vec<(String, String)> = Vec::new();
    let ghost want = commands_of(crate_names(crates@));
    for i in 0..crates.len()
        invariant
            want == commands_of(crate_names(crates@)),
            command_views(commands@) == want.take(i as int),
    {
        let name = crates[i].name.clone();
        let module = sanitize_name(name.as_str());
        let ghost before = commands@;
        commands.push((name, module));
        assert(command_views(commands@) =~= command_views(before).push((name@, module@)));
        assert(want.take(i + 1) =~= want.take(i as int).push((name@, module@)));
    }
    assert(want.take(crates.len() as int) =~= want);
    main_rs_for(&commands)
}

/// The `main.rs` for commands given with their module identifiers; see [`main_rs_text`].
pub fn main_rs_for(commands: &Vec<(String, String)>) -> (t: String)
    ensures
        t@ == main_rs_text(command_views(commands@)),
{
    let ghost cs = command_views(commands@);
    let ghost decls = Seq::new(cs.len(), |i: int| mod_decl(cs[i].1));
    let ghost regs = Seq::new(cs.len(), |i: int| registration(cs[i].0, cs[i].1));
    let mut mod_lines: Vec<String> = Vec::new();
    let mut reg_lines: Vec<String> = Vec::new();
    for i in 0..commands.len()
        invariant
            cs == command_views(commands@),
            decls == Seq::new(cs.len(), |i: int| mod_decl(cs[i].1)),
            regs == Seq::new(cs.len(), |i: int| registration(cs[i].0, cs[i].1)),
            string_views(mod_lines@) == decls.take(i as int),
            string_views(reg_lines@) == regs.take(i as int),
    {
        let name = commands[i].0.as_str();
        let module = commands[i].1.as_str();
        let mut decl = "mod ".to_owned();
        decl.append(module);
        decl.append(";");
        let mut reg = "    registry.register(\"".to_owned();
        reg.append(name);
        reg.append("\", ");
        reg.append(module);
        reg.append("::rustbb_cmd_");
        reg.append(module);
        reg.append(");");
        let ghost m0 = mod_lines@;
        let ghost r0 = reg_lines@;
        mod_lines.push(decl);
        reg_lines.push(reg);
        assert(string_views(mod_lines@) =~= string_views(m0).push(decl@));
        assert(string_views(reg_lines@) =~= string_views(r0).push(reg@));
        assert(decls.take(i + 1) =~= decls.take(i as int).push(decl@));
        assert(regs.take(i + 1) =~= regs.take(i as int).push(reg@));
    }
    assert(decls.take(commands.len() as int) =~= decls);
    assert(regs.take(commands.len() as int) =~= regs);
    let mod_decls = join_strings(&mod_lines, "\n");
    let registrations = join_strings(&reg_lines, "\n");
    let mut main_rs = "use rustbb_runtime::{Registry, dispatch};\n\n".to_owned();
    main_rs.append(mod_decls.as_str());
    main_rs.append("\n\nfn main() {\n    let mut registry = Registry::new();\n\n");
    main_rs.append(registrations.as_str());
    main_rs.append("\n\n    dispatch(&registry);\n}\n");
    main_rs
}

/// The source of each command module: for each crate, in order, the
/// transformed source found under its name, if any.
pub open spec fn command_modules_of(crates: Seq<CrateInfo>, sources: Seq<(Seq<char>, String)>) -> Seq<(Seq<char>, String)>
    decreases crates.len(),
{
    if crates.len() == 0 {
        Seq::empty()
    } else {
        let prev = command_modules_of(crates.drop_last(), sources);
        match lookup(sources, crates.last().name@) {
            Some(src) => insert_sorted(prev, crates.last().name@, src),
            None => prev,
        }
    }
}

/// The files of the combined crate.
pub struct GeneratedCrate {
    pub cargo_toml: String,
    pub main_rs: String,
    /// Each command's transformed source, by command name.
    pub command_modules: SortedMap<String>,
}

/// Generates the combined crate: its manifest, its `main.rs` and the module
/// source of each crate that has a transformed source.
pub fn generate_combined_crate(
    crates: &Vec<CrateInfo>,
    output_name: &str,
    transformed_sources: &SortedMap<String>,
    runtime_path: &str,
) -> (r: Result<GeneratedCrate, Infallible>)
    ensures
        r matches Ok(g) && {
            &&& g.cargo_toml@ == cargo_toml_text(
                output_name@,
                runtime_path@,
                dependency_lines(merged_dependencies(crates@)),
            )
            &&& g.main_rs@ == main_rs_text(commands_of(crate_names(crates@)))
            &&& g.command_modules.pairs() == command_modules_of(crates@, transformed_sources.pairs())
        },
{
    let cargo_toml = cargo_toml_string(crates, output_name, runtime_path);
    let main_rs = main_rs_string(crates);
    let mut command_modules: SortedMap<String> = SortedMap::new();
    for i in 0..crates.len()
        invariant
            command_modules.pairs() == command_modules_of(crates@.take(i as int), transformed_sources.pairs()),
    {
        assert(crates@.take(i + 1).drop_last() =~= crates@.take(i as int));
        assert(crates@.take(i + 1).last() == crates@[i as int]);
        match transformed_sources.get(crates[i].name.as_str()) {
            Some(src) => command_modules.insert(crates[i].name.clone(), src.clone()),
            None => {},
        }
    }
    assert(crates@.take(crates.len() as int) =~= crates@);
    Ok(GeneratedCrate { cargo_toml, main_rs, command_modules })
}

proof fn lemma_insert_all_keys(xs: Seq<Seq<char>>)
    ensures
        keys_sorted(insert_all_keys(Seq::empty(), xs)),
        forall|x: Seq<char>| #[trigger] lookup(insert_all_keys(Seq::empty(), xs), x) is Some <==> xs.contains(x),
    decreases xs.len(),
{
    let t = insert_all_keys(Seq::empty(), xs);
    if xs.len() == 0 {
        assert forall|x: Seq<char>| #[trigger] lookup(t, x) is Some <==> xs.contains(x) by {
            assert(lookup(t, x) is None);
        }
    } else {
        let prev = insert_all_keys(Seq::empty(), xs.drop_last());
        lemma_insert_all_keys(xs.drop_last());
        lemma_insert_sorted_keeps_sorted(prev, xs.last(), ());
        assert forall|x: Seq<char>| #[trigger] lookup(t, x) is Some <==> xs.contains(x) by {
            lemma_lookup_insert_sorted(prev, xs.last(), (), x);
            if xs.contains(x) && x != xs.last() {
                let i = choose|i: int| 0 <= i < xs.len() && xs[i] == x;
                assert(xs.drop_last()[i] == x);
            }
            if xs.drop_last().contains(x) {
                let i = choose|i: int| 0 <= i < xs.drop_last().len() && xs.drop_last()[i] == x;
                assert(xs[i] == x);
            }
            if x == xs.last() {
                assert(xs[xs.len() - 1] == x);
            }
        }
    }
}

/// The merged feature list is sorted, holds each feature once, and holds
/// exactly the features of both lists.
pub proof fn law_feature_union(a: Seq<Seq<char>>, b: Seq<Seq<char>>)
    ensures
        forall|i: int, j: int|
            0 <= i < j < feature_union(a, b).len() ==> str_lt(
                #[trigger] feature_union(a, b)[i],
                #[trigger] feature_union(a, b)[j],
            ),
        forall|x: Seq<char>| #[trigger] feature_union(a, b).contains(x) <==> a.contains(x) || b.contains(x),
{
    let t = insert_all_keys(Seq::empty(), a + b);
    lemma_insert_all_keys(a + b);
    assert forall|i: int, j: int| 0 <= i < j < feature_union(a, b).len() implies str_lt(
        #[trigger] feature_union(a, b)[i],
        #[trigger] feature_union(a, b)[j],
    ) by {
        assert(str_lt(t[i].0, t[j].0));
    }
    assert forall|x: Seq<char>| #[trigger] feature_union(a, b).contains(x) <==> a.contains(x) || b.contains(x) by {
        lemma_keys_contains_lookup(t, x);
        assert(lookup(t, x) is Some <==> (a + b).contains(x));
        if (a + b).contains(x) {
            let i = choose|i: int| 0 <= i < (a + b).len() && (a + b)[i] == x;
            if i < a.len() {
                assert(a[i] == x);
            } else {
                assert(b[i - a.len()] == x);
            }
        }
        if a.contains(x) {
            let i = choose|i: int| 0 <= i < a.len() && a[i] == x;
            assert((a + b)[i] == x);
        }
        if b.contains(x) {
            let i = choose|i: int| 0 <= i < b.len() && b[i] == x;
            assert((a + b)[a.len() + i] == x);
        }
    }
}

/// Merging a table of dependencies (each name once) changes the entry of a
/// name only when the table has it.
proof fn lemma_merge_all_lookup(m: Seq<(Seq<char>, DepView)>, deps: Seq<(Seq<char>, DepView)>, k: Seq<char>)
    requires
        keys_sorted(deps),
    ensures
        lookup(merge_all(m, deps), k) == (match lookup(deps, k) {
            Some(info) => Some(merge_entry(lookup(m, k), info)),
            None => lookup(m, k),
        }),
    decreases deps.len(),
{
    if deps.len() == 0 {
        assert(lookup(deps, k) is None);
    } else {
        let init = deps.drop_last();
        let last = deps.last();
        lemma_sorted_drop_last(deps);
        lemma_merge_all_lookup(m, init, k);
        let prev = merge_all(m, init);
        lemma_lookup_insert_sorted(prev, last.0, merge_entry(lookup(prev, last.0), last.1), k);
        assert(deps =~= init.push(last));
        lemma_lookup_push(init, last, k);
    }
}

/// Merging a crate that has no library named `k` changes the entry of `k`
/// only when the crate depends on `k`.
proof fn lemma_merge_crate_lookup(m: Seq<(Seq<char>, DepView)>, c: CrateInfo, k: Seq<char>)
    requires
        !(c.has_library && c.name@ == k),
    ensures
        lookup(merge_crate(m, c), k) == (match lookup(dep_views(c.dependencies.pairs()), k) {
            Some(info) => Some(merge_entry(lookup(m, k), info)),
            None => lookup(m, k),
        }),
{
    let with_lib = if c.has_library {
        insert_sorted(
            m,
            c.name@,
            DepView { version: opt_view(c.version), features: Seq::empty(), optional: false },
        )
    } else {
        m
    };
    if c.has_library {
        lemma_lookup_insert_sorted(
            m,
            c.name@,
            DepView { version: opt_view(c.version), features: Seq::empty(), optional: false },
            k,
        );
    }
    SortedMap::lemma_sorted(&c.dependencies);
    lemma_dep_views_sorted(c.dependencies.pairs());
    lemma_merge_all_lookup(with_lib, dep_views(c.dependencies.pairs()), k);
}

/// The entry of `k` when the crates are merged one after another, by the
/// entries that their dependency tables hold under `k`.
pub open spec fn merged_entry_for(crates: Seq<CrateInfo>, k: Seq<char>) -> Option<DepView>
    decreases crates.len(),
{
    if crates.len() == 0 {
        None
    } else {
        let prev = merged_entry_for(crates.drop_last(), k);
        match lookup(dep_views(crates.last().dependencies.pairs()), k) {
            Some(info) => Some(merge_entry(prev, info)),
            None => prev,
        }
    }
}

/// Some crate has a dependency named `k`.
pub open spec fn depended_on(crates: Seq<CrateInfo>, k: Seq<char>) -> bool
    decreases crates.len(),
{
    crates.len() > 0 && (depended_on(crates.drop_last(), k) || lookup(
        crates.last().dependencies.pairs(),
        k,
    ) is Some)
}

/// Some crate has a dependency named `k`, or is itself a library named `k`.
pub open spec fn mentioned(crates: Seq<CrateInfo>, k: Seq<char>) -> bool
    decreases crates.len(),
{
    crates.len() > 0 && (mentioned(crates.drop_last(), k) || (crates.last().has_library
        && crates.last().name@ == k) || lookup(crates.last().dependencies.pairs(), k) is Some)
}

/// All features that the crates ask of the dependency `k`.
pub open spec fn wanted_features(crates: Seq<CrateInfo>, k: Seq<char>) -> Set<Seq<char>>
    decreases crates.len(),
{
    if crates.len() == 0 {
        Set::empty()
    } else {
        wanted_features(crates.drop_last(), k) + match lookup(
            dep_views(crates.last().dependencies.pairs()),
            k,
        ) {
            Some(info) => info.features.to_set(),
            None => Set::empty(),
        }
    }
}

/// The first version that a crate, in order, asks of the dependency `k`.
pub open spec fn first_version(crates: Seq<CrateInfo>, k: Seq<char>) -> Option<Seq<char>>
    decreases crates.len(),
{
    if crates.len() == 0 {
        None
    } else {
        let prev = first_version(crates.drop_last(), k);
        if prev is Some {
            prev
        } else {
            match lookup(dep_views(crates.last().dependencies.pairs()), k) {
                Some(info) => info.version,
                None => None,
            }
        }
    }
}

/// The combined manifest names exactly the dependencies of the crates and the
/// crates that have a library.
pub proof fn law_merged_names(crates: Seq<CrateInfo>, k: Seq<char>)
    ensures
        lookup(merged_dependencies(crates), k) is Some <==> mentioned(crates, k),
    decreases crates.len(),
{
    if crates.len() == 0 {
        assert(lookup(merged_dependencies(crates), k) is None);
    } else {
        let c = crates.last();
        let m = merged_dependencies(crates.drop_last());
        law_merged_names(crates.drop_last(), k);
        let lib = DepView { version: opt_view(c.version), features: Seq::empty(), optional: false };
        let with_lib = if c.has_library {
            insert_sorted(m, c.name@, lib)
        } else {
            m
        };
        if c.has_library {
            lemma_lookup_insert_sorted(m, c.name@, lib, k);
        }
        SortedMap::lemma_sorted(&c.dependencies);
        lemma_dep_views_sorted(c.dependencies.pairs());
        lemma_merge_all_lookup(with_lib, dep_views(c.dependencies.pairs()), k);
        lemma_dep_views_lookup(c.dependencies.pairs(), k);
    }
}

/// For a dependency `k` that no crate provides as its own library, the merged
/// entry is the one built by merging the crates' entries for `k` in order.
pub proof fn law_merged_entry(crates: Seq<CrateInfo>, k: Seq<char>)
    requires
        forall|i: int| 0 <= i < crates.len() ==> !(#[trigger] crates[i].has_library && crates[i].name@ == k),
    ensures
        lookup(merged_dependencies(crates), k) == merged_entry_for(crates, k),
    decreases crates.len(),
{
    if crates.len() > 0 {
        let init = crates.drop_last();
        assert forall|i: int| 0 <= i < init.len() implies !(#[trigger] init[i].has_library && init[i].name@ == k) by {
            assert(init[i] == crates[i]);
        }
        law_merged_entry(init, k);
        assert(crates[crates.len() - 1] == crates.last());
        lemma_merge_crate_lookup(merged_dependencies(init), crates.last(), k);
    } else {
        assert(lookup(merged_dependencies(crates), k) is None);
    }
}

proof fn lemma_merged_entry_shape(crates: Seq<CrateInfo>, k: Seq<char>)
    ensures
        merged_entry_for(crates, k) is Some <==> depended_on(crates, k),
        merged_entry_for(crates, k) is None ==> wanted_features(crates, k) == Set::<Seq<char>>::empty()
            && first_version(crates, k) is None,
        merged_entry_for(crates, k) matches Some(e) ==> e.features.to_set() == wanted_features(crates, k)
            && e.version == first_version(crates, k),
    decreases crates.len(),
{
    if crates.len() > 0 {
        let c = crates.last();
        lemma_merged_entry_shape(crates.drop_last(), k);
        lemma_dep_views_lookup(c.dependencies.pairs(), k);
        let prev = merged_entry_for(crates.drop_last(), k);
        match lookup(dep_views(c.dependencies.pairs()), k) {
            Some(info) => {
                match prev {
                    Some(e) => {
                        law_feature_union(e.features, info.features);
                        assert(feature_union(e.features, info.features).to_set() =~= e.features.to_set()
                            + info.features.to_set());
                    },
                    None => {
                        assert(wanted_features(crates, k) =~= info.features.to_set());
                    },
                }
            },
            None => {
                assert(wanted_features(crates, k) =~= wanted_features(crates.drop_last(), k));
            },
        }
    }
}

/// For a dependency `k` that no crate provides as its own library, the
/// combined manifest has an entry exactly when some crate depends on `k`; its
/// features are all the features that the crates ask for, and its version is
/// the first one that a crate gives, in order.
pub proof fn law_merged_features_and_version(crates: Seq<CrateInfo>, k: Seq<char>)
    requires
        forall|i: int| 0 <= i < crates.len() ==> !(#[trigger] crates[i].has_library && crates[i].name@ == k),
    ensures
        lookup(merged_dependencies(crates), k) is Some <==> depended_on(crates, k),
        lookup(merged_dependencies(crates), k) matches Some(e) ==> e.features.to_set() == wanted_features(crates, k)
            && e.version == first_version(crates, k),
{
    law_merged_entry(crates, k);
    lemma_merged_entry_shape(crates, k);
}

} // verus!
