use vstd::prelude::*;

use crate::sorted_map::{insert_sorted, keys_sorted, lookup, SortedMap};
use crate::text::{
    has_substring, join_path, str_lt, join_strings, join_with, path_join, str_contains, str_eq,
    string_views,
};

verus! {

/// A dependency of a crate, as the combined crate's manifest will name it.
#[derive(Debug)]
pub struct DepInfo {
    pub version: Option<String>,
    pub features: Vec<String>,
    pub optional: bool,
}

/// A [`DepInfo`] with its strings taken by their characters.
pub ghost struct DepView {
    pub version: Option<Seq<char>>,
    pub features: Seq<Seq<char>>,
    pub optional: bool,
}

/// The characters of an optional string.
pub open spec fn opt_view(o: Option<String>) -> Option<Seq<char>> {
    match o {
        Some(s) => Some(s@),
        None => None,
    }
}

impl View for DepInfo {
    type V = DepView;

    open spec fn view(&self) -> DepView {
        DepView {
            version: opt_view(self.version),
            features: string_views(self.features@),
            optional: self.optional,
        }
    }
}

/// A dependency table with each dependency taken by its view.
pub open spec fn dep_views(s: Seq<(Seq<char>, DepInfo)>) -> Seq<(Seq<char>, DepView)> {
    Seq::new(s.len(), |i: int| (s[i].0, s[i].1@))
}

/// Taking views commutes with insertion.
pub proof fn lemma_dep_views_insert(s: Seq<(Seq<char>, DepInfo)>, k: Seq<char>, v: DepInfo)
    ensures
        dep_views(insert_sorted(s, k, v)) == insert_sorted(dep_views(s), k, v@),
    decreases s.len(),
{
    let t = insert_sorted(s, k, v);
    if s.len() == 0 {
        assert(dep_views(t) =~= seq![(k, v@)]);
    } else if s[0].0 == k {
        assert(dep_views(t) =~= seq![(k, v@)] + dep_views(s).drop_first());
    } else if crate::text::str_lt(k, s[0].0) {
        assert(dep_views(t) =~= seq![(k, v@)] + dep_views(s));
    } else {
        lemma_dep_views_insert(s.drop_first(), k, v);
        assert(dep_views(s.drop_first()) =~= dep_views(s).drop_first());
        assert(dep_views(t) =~= seq![dep_views(s)[0]] + dep_views(insert_sorted(s.drop_first(), k, v)));
    }
}

/// Looking up in the viewed table gives the view of what the table holds.
pub proof fn lemma_dep_views_lookup(s: Seq<(Seq<char>, DepInfo)>, k: Seq<char>)
    ensures
        lookup(dep_views(s), k) == (match lookup(s, k) {
            Some(v) => Some(v@),
            None => None,
        }),
    decreases s.len(),
{
    if s.len() > 0 {
        assert(dep_views(s.drop_first()) =~= dep_views(s).drop_first());
        lemma_dep_views_lookup(s.drop_first(), k);
    }
}

/// Taking views keeps the keys, so a sorted table stays sorted.
pub proof fn lemma_dep_views_sorted(s: Seq<(Seq<char>, DepInfo)>)
    requires
        keys_sorted(s),
    ensures
        keys_sorted(dep_views(s)),
{
    assert forall|i: int, j: int| 0 <= i < j < dep_views(s).len() implies crate::text::str_lt(
        #[trigger] dep_views(s)[i].0,
        #[trigger] dep_views(s)[j].0,
    ) by {
        assert(str_lt(s[i].0, s[j].0));
    }
}

/// A copy of an optional string.
pub fn clone_opt_string(o: &Option<String>) -> (r: Option<String>)
    ensures
        opt_view(r) == opt_view(*o),
{
    match o {
        Some(s) => Some(s.clone()),
        None => None,
    }
}

/// A copy of a list of strings.
pub fn clone_strings(v: &Vec<String>) -> (r: Vec<String>)
    ensures
        string_views(r@) == string_views(v@),
{
    let mut r: Vec<String> = Vec::new();
    for i in 0..v.len()
        invariant
            string_views(r@) == string_views(v@).take(i as int),
    {
        let ghost prev = r@;
        let c = v[i].clone();
        r.push(c);
        assert(r@ == prev.push(c));
        assert(string_views(prev).len() == i);
        assert forall|j: int| 0 <= j <= i implies #[trigger] string_views(r@)[j] == string_views(v@).take(i + 1)[j] by {
            if j < i {
                assert(string_views(prev)[j] == string_views(v@).take(i as int)[j]);
            }
        }
        assert(string_views(r@) =~= string_views(v@).take(i + 1));
    }
    assert(string_views(v@).take(v.len() as int) =~= string_views(v@));
    r
}

/// A copy of a dependency.
pub fn clone_dep(d: &DepInfo) -> (r: DepInfo)
    ensures
        r@ == d@,
{
    DepInfo {
        version: clone_opt_string(&d.version),
        features: clone_strings(&d.features),
        optional: d.optional,
    }
}

/// How a crate's `main` can be turned into a command.
#[derive(Debug)]
pub enum TransformStrategy {
    /// A plain `fn main()`, which can be taken over directly.
    SimpleMain,
    /// `main` carries attributes (their paths, such as `tokio::main`).
    AttributedMain { attrs: Vec<String> },
    /// The crate offers a library entry point.
    LibraryInterface { entry_fn: String },
    /// The crate cannot be transformed automatically.
    Unsupported { reason: String },
}

/// A [`TransformStrategy`] with its strings taken by their characters.
pub ghost enum StrategyView {
    SimpleMain,
    AttributedMain { attrs: Seq<Seq<char>> },
    LibraryInterface { entry_fn: Seq<char> },
    Unsupported { reason: Seq<char> },
}

impl View for TransformStrategy {
    type V = StrategyView;

    open spec fn view(&self) -> StrategyView {
        match self {
            TransformStrategy::SimpleMain => StrategyView::SimpleMain,
            TransformStrategy::AttributedMain { attrs } => StrategyView::AttributedMain {
                attrs: string_views(attrs@),
            },
            TransformStrategy::LibraryInterface { entry_fn } => StrategyView::LibraryInterface {
                entry_fn: entry_fn@,
            },
            TransformStrategy::Unsupported { reason } => StrategyView::Unsupported {
                reason: reason@,
            },
        }
    }
}

/// What the analysis of a crate found out.
#[derive(Debug)]
pub struct CrateInfo {
    pub name: String,
    pub path: String,
    pub main_path: String,
    pub strategy: TransformStrategy,
    pub dependencies: SortedMap<DepInfo>,
    /// The crate also has a library (`src/lib.rs` or a `[lib]` section).
    pub has_library: bool,
    /// The crate's own version, used when it is added as a dependency.
    pub version: Option<String>,
}

/// One entry of a manifest's `[dependencies]` table, in the three forms a
/// manifest can give it.
#[derive(Debug)]
#[allow(inconsistent_fields)]
pub enum DepSpec {
    /// `name = "1.2"`.
    Simple { version: String },
    /// `name = { version = ..., ... }`.
    Detailed {
        version: Option<String>,
        /// The real package name, when the entry renames it.
        package: Option<String>,
        has_path: bool,
        has_git: bool,
        features: Vec<String>,
        optional: bool,
    },
    /// `name = { workspace = true, ... }`.
    Inherited { workspace: bool, optional: bool, features: Vec<String> },
}

/// What the analysis reads from a crate's manifest.
#[derive(Debug)]
pub struct ManifestSummary {
    pub package_name: Option<String>,
    pub package_version: Option<String>,
    /// The `[dependencies]` table, in the manifest's (sorted) key order.
    pub dependencies: Vec<(String, DepSpec)>,
    /// The `path` of each `[[bin]]` entry.
    pub bin_paths: Vec<Option<String>>,
    /// The manifest has a `[lib]` section.
    pub has_lib_section: bool,
}

/// The dependency that a manifest entry contributes, under its package name:
/// path, git and optional dependencies and workspace-inherited ones contribute none.
pub open spec fn dep_entry(name: Seq<char>, d: DepSpec) -> Option<(Seq<char>, DepView)> {
    match d {
        DepSpec::Simple { version } => Some(
            (name, DepView { version: Some(version@), features: Seq::empty(), optional: false }),
        ),
        DepSpec::Detailed { version, package, has_path, has_git, features, optional } => {
            if has_path || has_git || optional {
                None
            } else {
                let actual = match package {
                    Some(p) => p@,
                    None => name,
                };
                Some(
                    (
                        actual,
                        DepView {
                            version: opt_view(version),
                            features: string_views(features@),
                            optional: optional,
                        },
                    ),
                )
            }
        },
        DepSpec::Inherited { workspace, optional, features } => {
            if workspace || optional {
                None
            } else {
                Some(
                    (
                        name,
                        DepView {
                            version: None,
                            features: string_views(features@),
                            optional: optional,
                        },
                    ),
                )
            }
        },
    }
}

/// The dependency table built from manifest entries in order; a later entry
/// under the same package name replaces an earlier one.
pub open spec fn collected_dependencies(deps: Seq<(String, DepSpec)>) -> Seq<(Seq<char>, DepView)>
    decreases deps.len(),
{
    if deps.len() == 0 {
        Seq::empty()
    } else {
        let prev = collected_dependencies(deps.drop_last());
        match dep_entry(deps.last().0@, deps.last().1) {
            Some((n, d)) => insert_sorted(prev, n, d),
            None => prev,
        }
    }
}

/// A detailed manifest entry that is neither a path, a git nor an optional
/// dependency is kept, after whatever entries came before it: under its
/// `package` name when it renames the package, else under its own key, with
/// its version and its features as written.
pub proof fn law_detailed_dependency_kept(
    before: Seq<(String, DepSpec)>,
    name: String,
    version: Option<String>,
    package: Option<String>,
    features: Vec<String>,
)
    ensures
        lookup(
            collected_dependencies(
                before.push(
                    (
                        name,
                        DepSpec::Detailed {
                            version,
                            package,
                            has_path: false,
                            has_git: false,
                            features,
                            optional: false,
                        },
                    ),
                ),
            ),
            match package {
                Some(p) => p@,
                None => name@,
            },
        ) == Some(DepView { version: opt_view(version), features: string_views(features@), optional: false }),
{
    let d = DepSpec::Detailed { version, package, has_path: false, has_git: false, features, optional: false };
    let all = before.push((name, d));
    assert(all.drop_last() =~= before);
    let key = match package {
        Some(p) => p@,
        None => name@,
    };
    let v = DepView { version: opt_view(version), features: string_views(features@), optional: false };
    crate::sorted_map::lemma_lookup_insert_sorted(collected_dependencies(before), key, v, key);
}

/// A plain `name = "version"` entry is kept under its key with that version
/// and no features, after whatever entries came before it.
pub proof fn law_simple_dependency_kept(before: Seq<(String, DepSpec)>, name: String, version: String)
    ensures
        lookup(collected_dependencies(before.push((name, DepSpec::Simple { version }))), name@) == Some(
            DepView { version: Some(version@), features: Seq::empty(), optional: false },
        ),
{
    let all = before.push((name, DepSpec::Simple { version }));
    assert(all.drop_last() =~= before);
    let v = DepView { version: Some(version@), features: Seq::empty(), optional: false };
    crate::sorted_map::lemma_lookup_insert_sorted(collected_dependencies(before), name@, v, name@);
}

/// A path, git or optional dependency, or one inherited from the workspace or
/// marked optional, contributes nothing: the table stays as it was.
pub proof fn law_skipped_dependency(before: Seq<(String, DepSpec)>, name: String, d: DepSpec)
    requires
        match d {
            DepSpec::Simple { .. } => false,
            DepSpec::Detailed { has_path, has_git, optional, .. } => has_path || has_git || optional,
            DepSpec::Inherited { workspace, optional, .. } => workspace || optional,
        },
    ensures
        collected_dependencies(before.push((name, d))) == collected_dependencies(before),
{
    assert(before.push((name, d)).drop_last() =~= before);
}

/// The dependency (name and info) that a manifest entry contributes, if any.
fn dep_info_of(name: &String, d: &DepSpec) -> (r: Option<(String, DepInfo)>)
    ensures
        match dep_entry(name@, *d) {
            Some((n, v)) => r matches Some(p) && p.0@ == n && p.1@ == v,
            None => r is None,
        },
{
    match d {
        DepSpec::Simple { version } => {
            let info = DepInfo { version: Some(version.clone()), features: Vec::new(), optional: false };
            assert(info@.features =~= Seq::<Seq<char>>::empty());
            Some((name.clone(), info))
        },
        DepSpec::Detailed { version, package, has_path, has_git, features, optional } => {
            if *has_path || *has_git || *optional {
                return None;
            }
            let actual = match package {
                Some(p) => p.clone(),
                None => name.clone(),
            };
            Some(
                (
                    actual,
                    DepInfo {
                        version: clone_opt_string(version),
                        features: clone_strings(features),
                        optional: *optional,
                    },
                ),
            )
        },
        DepSpec::Inherited { workspace, optional, features } => {
            if *workspace || *optional {
                return None;
            }
            Some(
                (
                    name.clone(),
                    DepInfo { version: None, features: clone_strings(features), optional: *optional },
                ),
            )
        },
    }
}

/// The dependency table of a crate, from its manifest entries: see
/// [`collected_dependencies`].
pub fn collect_dependencies(deps: &Vec<(String, DepSpec)>) -> (r: SortedMap<DepInfo>)
    ensures
        dep_views(r.pairs()) == collected_dependencies(deps@),
{
    let mut r: SortedMap<DepInfo> = SortedMap::new();
    assert(dep_views(r.pairs()) =~= Seq::<(Seq<char>, DepView)>::empty());
    for i in 0..deps.len()
        invariant
            dep_views(r.pairs()) == collected_dependencies(deps@.take(i as int)),
    {
        assert(deps@.take(i + 1).drop_last() =~= deps@.take(i as int));
        match dep_info_of(&deps[i].0, &deps[i].1) {
            Some((n, info)) => {
                proof {
                    lemma_dep_views_insert(r.pairs(), n@, info);
                }
                r.insert(n, info);
            },
            None => {},
        }
    }
    assert(deps@.take(deps.len() as int) =~= deps@);
    r
}

/// The path of an attribute: its segment names, and whether it starts with `::`.
#[derive(Debug)]
pub struct AttrPath {
    pub leading_colon: bool,
    pub segments: Vec<String>,
}

/// A top-level item of a Rust source file, as far as the analysis reads it.
#[derive(Debug)]
pub enum TopItem {
    /// A function: its name and the paths of its attributes, in order.
    Fn { name: String, attrs: Vec<AttrPath> },
    /// Any other item.
    Other,
}

/// An [`AttrPath`] with its strings taken by their characters.
pub ghost struct AttrPathView {
    pub leading_colon: bool,
    pub segments: Seq<Seq<char>>,
}

/// A [`TopItem`] with its strings taken by their characters.
pub ghost enum TopItemView {
    Fn { name: Seq<char>, attrs: Seq<AttrPathView> },
    Other,
}

impl View for AttrPath {
    type V = AttrPathView;

    open spec fn view(&self) -> AttrPathView {
        AttrPathView { leading_colon: self.leading_colon, segments: string_views(self.segments@) }
    }
}

/// The views of a list of attribute paths.
pub open spec fn attr_views(s: Seq<AttrPath>) -> Seq<AttrPathView> {
    Seq::new(s.len(), |i: int| s[i]@)
}

impl View for TopItem {
    type V = TopItemView;

    open spec fn view(&self) -> TopItemView {
        match self {
            TopItem::Fn { name, attrs } => TopItemView::Fn { name: name@, attrs: attr_views(attrs@) },
            TopItem::Other => TopItemView::Other,
        }
    }
}

/// The views of a list of top-level items.
pub open spec fn item_views(s: Seq<TopItem>) -> Seq<TopItemView> {
    Seq::new(s.len(), |i: int| s[i]@)
}

/// The top-level items that `syn::parse_file` finds in a source text, or
/// `None` where it reports a syntax error.
pub uninterp spec fn syn_file_items(source: Seq<char>) -> Option<Seq<TopItemView>>;

#[verifier::external_type_specification]
#[verifier::external_body]
pub struct ExSynError(syn::Error);

/// Parses `source` with `syn::parse_file` and keeps, for each top-level item,
/// whether it is a function and, if so, its name and its attributes' paths.
/// The contract claims only that this is a function of the text alone.
#[verifier::external_body]
fn parse_top_items(source: &str) -> (r: Result<Vec<TopItem>, syn::Error>)
    ensures
        r is Ok <==> syn_file_items(source@) is Some,
        r matches Ok(items) ==> item_views(items@) == syn_file_items(source@)->0,
{
    let file = syn::parse_file(source)?;
    Ok(file.items.iter().map(|item| match item {
        syn::Item::Fn(f) => TopItem::Fn {
            name: f.sig.ident.to_string(),
            attrs: f.attrs.iter().map(|a| AttrPath {
                leading_colon: a.path().leading_colon.is_some(),
                segments: a.path().segments.iter().map(|s| s.ident.to_string()).collect(),
            }).collect(),
        },
        _ => TopItem::Other,
    }).collect())
}

/// Errors of the crate analysis.
#[derive(Debug)]
pub enum DiscoveryError {
    /// No binary source file exists for the crate at `crate_path`.
    MainNotFound { crate_path: String },
    /// The main source file is not valid Rust.
    RustSyntax(syn::Error),
}

/// A doc comment, which is an attribute with the single path segment `doc`.
pub open spec fn is_doc_attr(a: AttrPathView) -> bool {
    !a.leading_colon && a.segments == seq!["doc"@]
}

/// The attributes other than doc comments, each as its path joined with `::`.
pub open spec fn attr_names(attrs: Seq<AttrPathView>) -> Seq<Seq<char>>
    decreases attrs.len(),
{
    if attrs.len() == 0 {
        Seq::empty()
    } else if is_doc_attr(attrs.last()) {
        attr_names(attrs.drop_last())
    } else {
        attr_names(attrs.drop_last()).push(join_with(attrs.last().segments, "::"@))
    }
}

/// The attributes of the first top-level function named `main`, if there is one.
pub open spec fn main_fn_attrs(items: Seq<TopItemView>) -> Option<Seq<AttrPathView>>
    decreases items.len(),
{
    if items.len() == 0 {
        None
    } else {
        match items[0] {
            TopItemView::Fn { name, attrs } => if name == "main"@ {
                Some(attrs)
            } else {
                main_fn_attrs(items.drop_first())
            },
            TopItemView::Other => main_fn_attrs(items.drop_first()),
        }
    }
}

/// The strategy for a file with these top-level items: a `main` without
/// attributes other than doc comments is simple, one with attributes is
/// attributed, and a file without `main` is unsupported.
pub open spec fn strategy_of_items(items: Seq<TopItemView>) -> StrategyView {
    match main_fn_attrs(items) {
        Some(attrs) => if attr_names(attrs).len() == 0 {
            StrategyView::SimpleMain
        } else {
            StrategyView::AttributedMain { attrs: attr_names(attrs) }
        },
        None => StrategyView::Unsupported { reason: "No main() function found"@ },
    }
}

/// The analysis of a main source file: code generated by a build script (an
/// `include!(` together with `OUT_DIR`) is unsupported; otherwise the strategy
/// follows from the file's items. `None` stands for a syntax error.
pub open spec fn main_analysis(source: Seq<char>) -> Option<StrategyView> {
    if has_substring(source, "include!("@) && has_substring(source, "OUT_DIR"@) {
        Some(StrategyView::Unsupported { reason: "Uses build script generated code (include! with OUT_DIR)"@ })
    } else {
        match syn_file_items(source) {
            Some(items) => Some(strategy_of_items(items)),
            None => None,
        }
    }
}

/// Whether an attribute path is a doc comment.
fn is_doc(a: &AttrPath) -> (r: bool)
    ensures
        r == is_doc_attr(a@),
{
    if a.leading_colon || a.segments.len() != 1 {
        assert(string_views(a.segments@).len() == a.segments@.len());
        return false;
    }
    let r = str_eq(a.segments[0].as_str(), "doc");
    assert(r == (string_views(a.segments@) == seq!["doc"@])) by {
        if string_views(a.segments@) == seq!["doc"@] {
            assert(string_views(a.segments@)[0] == a.segments@[0]@);
        }
        if r {
            assert(string_views(a.segments@) =~= seq!["doc"@]);
        }
    }
    r
}

/// The attribute names of a function: see [`attr_names`].
fn main_attr_names(attrs: &Vec<AttrPath>) -> (r: Vec<String>)
    ensures
        string_views(r@) == attr_names(attr_views(attrs@)),
{
    let mut r: Vec<String> = Vec::new();
    for i in 0..attrs.len()
        invariant
            string_views(r@) == attr_names(attr_views(attrs@).take(i as int)),
    {
        let ghost before = r@;
        assert(attr_views(attrs@).take(i + 1).drop_last() =~= attr_views(attrs@).take(i as int));
        assert(attr_views(attrs@).take(i + 1).last() == attrs@[i as int]@);
        if !is_doc(&attrs[i]) {
            let joined = join_strings(&attrs[i].segments, "::");
            r.push(joined);
            assert(string_views(r@) =~= string_views(before).push(joined@));
        }
    }
    assert(attr_views(attrs@).take(attrs.len() as int) =~= attr_views(attrs@));
    r
}

/// The strategy for a file with the given top-level items; see [`strategy_of_items`].
pub fn strategy_from_items(items: &Vec<TopItem>) -> (r: TransformStrategy)
    ensures
        r@ == strategy_of_items(item_views(items@)),
{
    let ghost all = item_views(items@);
    let mut i: usize = 0;
    assert(all.skip(0) =~= all);
    while i < items.len()
        invariant
            i <= items.len(),
            all == item_views(items@),
            main_fn_attrs(all) == main_fn_attrs(all.skip(i as int)),
        decreases items.len() - i,
    {
        assert(all.skip(i as int).drop_first() =~= all.skip(i + 1));
        assert(all.skip(i as int)[0] == items@[i as int]@);
        match &items[i] {
            TopItem::Fn { name, attrs } => {
                if str_eq(name.as_str(), "main") {
                    let names = main_attr_names(attrs);
                    if names.len() == 0 {
                        return TransformStrategy::SimpleMain;
                    } else {
                        return TransformStrategy::AttributedMain { attrs: names };
                    }
                }
            },
            TopItem::Other => {},
        }
        i = i + 1;
    }
    assert(all.skip(i as int) =~= Seq::<TopItemView>::empty());
    TransformStrategy::Unsupported { reason: "No main() function found".to_owned() }
}

/// Analyzes the main source file of a crate; see [`main_analysis`].
pub fn analyze_main_function(source: &str) -> (r: Result<TransformStrategy, DiscoveryError>)
    ensures
        match main_analysis(source@) {
            Some(s) => r matches Ok(t) && t@ == s,
            None => r matches Err(DiscoveryError::RustSyntax(_)),
        },
{
    if str_contains(source, "include!(") && str_contains(source, "OUT_DIR") {
        return Ok(
            TransformStrategy::Unsupported {
                reason: "Uses build script generated code (include! with OUT_DIR)".to_owned(),
            },
        );
    }
    match parse_top_items(source) {
        Ok(items) => Ok(strategy_from_items(&items)),
        Err(e) => Err(DiscoveryError::RustSyntax(e)),
    }
}

/// The optional strings of `s`, each taken by its characters.
pub open spec fn opt_views(s: Seq<Option<String>>) -> Seq<Option<Seq<char>>> {
    Seq::new(s.len(), |i: int| opt_view(s[i]))
}

/// Where the main source file of the crate at `crate_path` may be, in the
/// order they are tried: each `[[bin]]` path that is given, then
/// `src/main.rs`, then `src/bin/main.rs`.
pub open spec fn main_candidates(crate_path: Seq<char>, bin_paths: Seq<Option<Seq<char>>>) -> Seq<Seq<char>>
    decreases bin_paths.len(),
{
    if bin_paths.len() == 0 {
        seq![path_join(crate_path, "src/main.rs"@), path_join(crate_path, "src/bin/main.rs"@)]
    } else {
        let rest = main_candidates(crate_path, bin_paths.drop_first());
        match bin_paths[0] {
            Some(p) => seq![path_join(crate_path, p)] + rest,
            None => rest,
        }
    }
}

/// The paths where the main source file may be; see [`main_candidates`].
pub fn main_rs_candidates(crate_path: &str, bin_paths: &Vec<Option<String>>) -> (r: Vec<String>)
    ensures
        string_views(r@) == main_candidates(crate_path@, opt_views(bin_paths@)),
{
    let mut r: Vec<String> = Vec::new();
    let n = bin_paths.len();
    let ghost bins = opt_views(bin_paths@);
    let mut i: usize = 0;
    assert(bins.skip(0) =~= bins);
    assert(string_views(r@) =~= Seq::<Seq<char>>::empty());
    assert(main_candidates(crate_path@, bins) =~= string_views(r@) + main_candidates(crate_path@, bins.skip(0)));
    while i < n
        invariant
            n == bin_paths.len(),
            bins == opt_views(bin_paths@),
            i <= n,
            main_candidates(crate_path@, bins) == string_views(r@) + main_candidates(
                crate_path@,
                bins.skip(i as int),
            ),
        decreases n - i,
    {
        assert(bins.skip(i as int).drop_first() =~= bins.skip(i + 1));
        assert(bins.skip(i as int)[0] == opt_view(bin_paths@[i as int]));
        let ghost before = r@;
        match &bin_paths[i] {
            Some(p) => {
                let joined = join_path(crate_path, p.as_str());
                r.push(joined);
                assert(string_views(r@) =~= string_views(before) + seq![joined@]);
            },
            None => {},
        }
        i = i + 1;
    }
    assert(bins.skip(n as int) =~= Seq::<Option<Seq<char>>>::empty());
    let ghost before = r@;
    let a = join_path(crate_path, "src/main.rs");
    let b = join_path(crate_path, "src/bin/main.rs");
    r.push(a);
    r.push(b);
    assert(string_views(r@) =~= string_views(before) + seq![a@, b@]);
    r
}

/// The first candidate that exists.
pub open spec fn first_existing(cands: Seq<(Seq<char>, bool)>) -> Option<Seq<char>>
    decreases cands.len(),
{
    if cands.len() == 0 {
        None
    } else if cands[0].1 {
        Some(cands[0].0)
    } else {
        first_existing(cands.drop_first())
    }
}

/// The candidates, paths taken by their characters, each with whether it exists.
pub open spec fn candidate_views(s: Seq<(String, bool)>) -> Seq<(Seq<char>, bool)> {
    Seq::new(s.len(), |i: int| (s[i].0@, s[i].1))
}

/// The main source file: the first candidate that exists, or an error naming
/// the crate when none does.
pub fn find_main_rs(crate_path: &str, candidates: &Vec<(String, bool)>) -> (r: Result<String, DiscoveryError>)
    ensures
        match first_existing(candidate_views(candidates@)) {
            Some(p) => r matches Ok(m) && m@ == p,
            None => r matches Err(DiscoveryError::MainNotFound { crate_path: c }) && c@ == crate_path@,
        },
{
    let ghost all = candidate_views(candidates@);
    assert(all.skip(0) =~= all);
    for i in 0..candidates.len()
        invariant
            all == candidate_views(candidates@),
            first_existing(all) == first_existing(all.skip(i as int)),
    {
        assert(all.skip(i as int).drop_first() =~= all.skip(i + 1));
        assert(all.skip(i as int)[0] == (candidates@[i as int].0@, candidates@[i as int].1));
        if candidates[i].1 {
            return Ok(candidates[i].0.clone());
        }
    }
    assert(all.skip(candidates.len() as int) =~= Seq::<(Seq<char>, bool)>::empty());
    Err(DiscoveryError::MainNotFound { crate_path: crate_path.to_owned() })
}

/// The information about a crate, from its manifest, its main source file and
/// its analysis: the package name defaults to `unknown`; the crate has a
/// library when `src/lib.rs` exists or the manifest has a `[lib]` section.
pub fn crate_info(
    crate_path: &str,
    main_path: String,
    manifest: &ManifestSummary,
    strategy: TransformStrategy,
    lib_rs_exists: bool,
) -> (r: CrateInfo)
    ensures
        r.name@ == (match manifest.package_name {
            Some(n) => n@,
            None => "unknown"@,
        }),
        r.path@ == crate_path@,
        r.main_path@ == main_path@,
        r.strategy@ == strategy@,
        dep_views(r.dependencies.pairs()) == collected_dependencies(manifest.dependencies@),
        r.has_library == (lib_rs_exists || manifest.has_lib_section),
        opt_view(r.version) == opt_view(manifest.package_version),
{
    let name = match &manifest.package_name {
        Some(n) => n.clone(),
        None => "unknown".to_owned(),
    };
    CrateInfo {
        name,
        path: crate_path.to_owned(),
        main_path,
        strategy,
        dependencies: collect_dependencies(&manifest.dependencies),
        has_library: lib_rs_exists || manifest.has_lib_section,
        version: clone_opt_string(&manifest.package_version),
    }
}

/// `item` is a function named `main`.
pub open spec fn is_main_fn(item: TopItemView) -> bool {
    item matches TopItemView::Fn { name, .. } && name == "main"@
}

proof fn lemma_main_fn_attrs_skip(pre: Seq<TopItemView>, rest: Seq<TopItemView>)
    requires
        forall|j: int| 0 <= j < pre.len() ==> !is_main_fn(#[trigger] pre[j]),
    ensures
        main_fn_attrs(pre + rest) == main_fn_attrs(rest),
    decreases pre.len(),
{
    if pre.len() > 0 {
        assert((pre + rest).drop_first() =~= pre.drop_first() + rest);
        assert(!is_main_fn(pre[0]));
        assert forall|j: int| 0 <= j < pre.drop_first().len() implies !is_main_fn(#[trigger] pre.drop_first()[j]) by {
            assert(pre.drop_first()[j] == pre[j + 1]);
        }
        lemma_main_fn_attrs_skip(pre.drop_first(), rest);
        assert((pre + rest)[0] == pre[0]);
    }
}

/// The first function named `main` decides the strategy, whatever comes
/// before it (no other `main`) and after it: with no attribute but doc
/// comments it is a simple `main`; with attributes none of which is a doc
/// comment, it is an attributed `main` listing each attribute's path joined
/// with `::`, in order. A file without a function named `main` is unsupported.
pub proof fn law_first_main_decides(
    pre: Seq<TopItemView>,
    attrs: Seq<AttrPathView>,
    post: Seq<TopItemView>,
)
    requires
        forall|j: int| 0 <= j < pre.len() ==> !is_main_fn(#[trigger] pre[j]),
    ensures
        strategy_of_items(pre) == (StrategyView::Unsupported { reason: "No main() function found"@ }),
        (forall|k: int| 0 <= k < attrs.len() ==> is_doc_attr(#[trigger] attrs[k])) ==> strategy_of_items(
            pre + seq![TopItemView::Fn { name: "main"@, attrs }] + post,
        ) == StrategyView::SimpleMain,
        attrs.len() > 0 && (forall|k: int| 0 <= k < attrs.len() ==> !is_doc_attr(#[trigger] attrs[k]))
            ==> strategy_of_items(pre + seq![TopItemView::Fn { name: "main"@, attrs }] + post) == (
        StrategyView::AttributedMain {
            attrs: Seq::new(attrs.len(), |k: int| join_with(attrs[k].segments, "::"@)),
        }),
{
    let m = TopItemView::Fn { name: "main"@, attrs };
    let rest = seq![m] + post;
    lemma_main_fn_attrs_skip(pre, rest);
    assert(pre + seq![m] + post =~= pre + rest);
    assert(rest[0] == m);
    assert(main_fn_attrs(rest) == Some(attrs));
    lemma_main_fn_attrs_skip(pre, Seq::empty());
    assert(pre + Seq::<TopItemView>::empty() =~= pre);
    lemma_attr_names_all_doc(attrs);
    lemma_attr_names_no_doc(attrs);
}

proof fn lemma_attr_names_all_doc(attrs: Seq<AttrPathView>)
    ensures
        (forall|k: int| 0 <= k < attrs.len() ==> is_doc_attr(#[trigger] attrs[k])) ==> attr_names(attrs).len() == 0,
    decreases attrs.len(),
{
    if attrs.len() > 0 {
        lemma_attr_names_all_doc(attrs.drop_last());
        if forall|k: int| 0 <= k < attrs.len() ==> is_doc_attr(#[trigger] attrs[k]) {
            assert(is_doc_attr(attrs.last()));
            assert forall|k: int| 0 <= k < attrs.drop_last().len() implies is_doc_attr(#[trigger] attrs.drop_last()[k]) by {
                assert(attrs.drop_last()[k] == attrs[k]);
            }
        }
    }
}

proof fn lemma_attr_names_no_doc(attrs: Seq<AttrPathView>)
    ensures
        (forall|k: int| 0 <= k < attrs.len() ==> !is_doc_attr(#[trigger] attrs[k])) ==> attr_names(attrs)
            == Seq::new(attrs.len(), |k: int| join_with(attrs[k].segments, "::"@)),
    decreases attrs.len(),
{
    if attrs.len() > 0 {
        lemma_attr_names_no_doc(attrs.drop_last());
        if forall|k: int| 0 <= k < attrs.len() ==> !is_doc_attr(#[trigger] attrs[k]) {
            assert(!is_doc_attr(attrs.last()));
            assert forall|k: int| 0 <= k < attrs.drop_last().len() implies !is_doc_attr(#[trigger] attrs.drop_last()[k]) by {
                assert(attrs.drop_last()[k] == attrs[k]);
            }
            assert(attr_names(attrs) =~= Seq::new(attrs.len(), |k: int| join_with(attrs[k].segments, "::"@)));
        }
    }
}

/// The main source file found is the first candidate that exists: it exists,
/// and no earlier candidate does; none is found exactly when no candidate exists.
pub proof fn law_first_existing(cands: Seq<(Seq<char>, bool)>)
    ensures
        first_existing(cands) is None <==> (forall|i: int| 0 <= i < cands.len() ==> !(#[trigger] cands[i]).1),
        first_existing(cands) matches Some(p) ==> exists|i: int|
            0 <= i < cands.len() && #[trigger] cands[i] == (p, true) && forall|j: int| 0 <= j < i ==> !(#[trigger] cands[j]).1,
    decreases cands.len(),
{
    if cands.len() > 0 {
        let rest = cands.drop_first();
        law_first_existing(rest);
        assert forall|j: int| 0 <= j < rest.len() implies rest[j] == cands[j + 1] by {}
        if cands[0].1 {
            assert(cands[0] == (cands[0].0, true));
        } else {
            if let Some(p) = first_existing(rest) {
                let i = choose|i: int|
                    0 <= i < rest.len() && #[trigger] rest[i] == (p, true) && forall|j: int| 0 <= j < i ==> !(#[trigger] rest[j]).1;
                assert(cands[i + 1] == (p, true));
                assert forall|j: int| 0 <= j < i + 1 implies !(#[trigger] cands[j]).1 by {
                    if j > 0 {
                        assert(cands[j] == rest[j - 1]);
                    }
                }
            }
            if forall|i: int| 0 <= i < cands.len() ==> !(#[trigger] cands[i]).1 {
                assert forall|i: int| 0 <= i < rest.len() implies !(#[trigger] rest[i]).1 by {
                    assert(!cands[i + 1].1);
                }
            }
            if forall|i: int| 0 <= i < rest.len() ==> !(#[trigger] rest[i]).1 {
                assert forall|i: int| 0 <= i < cands.len() implies !(#[trigger] cands[i]).1 by {
                    if i > 0 {
                        assert(!rest[i - 1].1);
                    }
                }
            }
        }
    }
}

/// The main-file candidates are the given `[[bin]]` paths under the crate, in
/// order, followed by `src/main.rs` and then `src/bin/main.rs` under the crate.
pub proof fn law_main_candidates(crate_path: Seq<char>, bins: Seq<Option<Seq<char>>>)
    ensures
        ({
            let c = main_candidates(crate_path, bins);
            &&& c.len() >= 2
            &&& c[c.len() - 2] == path_join(crate_path, "src/main.rs"@)
            &&& c[c.len() - 1] == path_join(crate_path, "src/bin/main.rs"@)
        }),
        (forall|i: int| 0 <= i < bins.len() ==> (#[trigger] bins[i]) is Some) ==> main_candidates(crate_path, bins)
            == Seq::new(bins.len(), |i: int| path_join(crate_path, bins[i]->0)) + seq![
            path_join(crate_path, "src/main.rs"@),
            path_join(crate_path, "src/bin/main.rs"@),
        ],
    decreases bins.len(),
{
    if bins.len() > 0 {
        let rest = bins.drop_first();
        law_main_candidates(crate_path, rest);
        if forall|i: int| 0 <= i < bins.len() ==> (#[trigger] bins[i]) is Some {
            assert forall|i: int| 0 <= i < rest.len() implies (#[trigger] rest[i]) is Some by {
                assert(rest[i] == bins[i + 1]);
            }
            assert(bins[0] is Some);
            assert(main_candidates(crate_path, bins) =~= Seq::new(bins.len(), |i: int| path_join(crate_path, bins[i]->0)) + seq![
                path_join(crate_path, "src/main.rs"@),
                path_join(crate_path, "src/bin/main.rs"@),
            ]);
        }
    } else {
        assert(main_candidates(crate_path, bins) =~= Seq::new(bins.len(), |i: int| path_join(crate_path, bins[i]->0)) + seq![
            path_join(crate_path, "src/main.rs"@),
            path_join(crate_path, "src/bin/main.rs"@),
        ]);
    }
}

} // verus!
