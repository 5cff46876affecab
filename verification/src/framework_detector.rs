//! Framework and library detection: what is asked, and how an answer is read.

use crate::duplicate::Duplicate;
use crate::ordered::{keys_ascend, map_of, TextMap};
use crate::text::{
    chars_of, concat3, copy_list, ends_with, has_prefix, has_suffix, insert_sorted, join, joined, same,
    same_members_same_order, sort_distinct, sorted_distinct, sorted_distinct_sorts, starts_with, text_of, texts_ascend,
    trim, trimmed,
};
use vstd::prelude::*;

verus! {

/// What detection found a service to use.
#[derive(Debug, Clone, PartialEq, Eq)]
pub struct DetectionResult {
    pub frameworks: Vec<String>,
    pub data_fetchers: Vec<String>,
    /// Clients of queues and of publish-subscribe brokers.
    pub messaging_clients: Vec<String>,
    pub notes: String,
}

/// What a [`DetectionResult`] holds.
pub struct DetectionResultModel {
    pub frameworks: Seq<Seq<char>>,
    pub data_fetchers: Seq<Seq<char>>,
    pub messaging_clients: Seq<Seq<char>>,
    pub notes: Seq<char>,
}

impl DeepView for DetectionResult {
    type V = DetectionResultModel;

    open spec fn deep_view(&self) -> DetectionResultModel {
        DetectionResultModel {
            frameworks: self.frameworks.deep_view(),
            data_fetchers: self.data_fetchers.deep_view(),
            messaging_clients: self.messaging_clients.deep_view(),
            notes: self.notes@,
        }
    }
}

impl Duplicate for DetectionResult {
    fn duplicate(&self) -> (r: Self) {
        DetectionResult {
            frameworks: copy_list(&self.frameworks),
            data_fetchers: copy_list(&self.data_fetchers),
            messaging_clients: copy_list(&self.messaging_clients),
            notes: self.notes.clone(),
        }
    }
}

impl Default for DetectionResult {
    fn default() -> (r: Self)
        ensures
            r.deep_view() == nothing_detected(),
    {
        let r = DetectionResult {
            frameworks: Vec::new(),
            data_fetchers: Vec::new(),
            messaging_clients: Vec::new(),
            notes: String::new(),
        };
        assert(r.frameworks.deep_view() =~= Seq::<Seq<char>>::empty());
        assert(r.data_fetchers.deep_view() =~= Seq::<Seq<char>>::empty());
        assert(r.messaging_clients.deep_view() =~= Seq::<Seq<char>>::empty());
        r
    }
}

pub open spec fn nothing_detected() -> DetectionResultModel {
    DetectionResultModel {
        frameworks: Seq::empty(),
        data_fetchers: Seq::empty(),
        messaging_clients: Seq::empty(),
        notes: Seq::empty(),
    }
}

/// How a symbol is imported.
#[derive(Debug, Clone, Copy, PartialEq, Eq, Structural)]
pub enum SymbolKind {
    Named,
    Default,
    Namespace,
}

/// A symbol that a file imports.
#[derive(Debug, Clone, PartialEq, Eq)]
pub struct ImportedSymbol {
    pub local_name: String,
    pub imported_name: String,
    pub source: String,
    pub kind: SymbolKind,
}

/// What an [`ImportedSymbol`] holds.
pub struct ImportedSymbolModel {
    pub local_name: Seq<char>,
    pub imported_name: Seq<char>,
    pub source: Seq<char>,
    pub kind: SymbolKind,
}

impl DeepView for ImportedSymbol {
    type V = ImportedSymbolModel;

    open spec fn deep_view(&self) -> ImportedSymbolModel {
        ImportedSymbolModel {
            local_name: self.local_name@,
            imported_name: self.imported_name@,
            source: self.source@,
            kind: self.kind,
        }
    }
}

impl Duplicate for ImportedSymbol {
    fn duplicate(&self) -> (r: Self) {
        ImportedSymbol {
            local_name: self.local_name.clone(),
            imported_name: self.imported_name.clone(),
            source: self.source.clone(),
            kind: self.kind,
        }
    }
}

/// The dependencies of one manifest.
#[derive(Debug, Clone, PartialEq, Eq)]
pub struct PackageJson {
    pub dependencies: TextMap<String>,
    pub dev_dependencies: TextMap<String>,
}

/// What a [`PackageJson`] holds.
pub struct PackageJsonModel {
    pub dependencies: Map<Seq<char>, Seq<char>>,
    pub dev_dependencies: Map<Seq<char>, Seq<char>>,
}

impl DeepView for PackageJson {
    type V = PackageJsonModel;

    open spec fn deep_view(&self) -> PackageJsonModel {
        PackageJsonModel {
            dependencies: self.dependencies.deep_view(),
            dev_dependencies: self.dev_dependencies.deep_view(),
        }
    }
}

impl Duplicate for PackageJson {
    fn duplicate(&self) -> (r: Self) {
        PackageJson {
            dependencies: self.dependencies.duplicate(),
            dev_dependencies: self.dev_dependencies.duplicate(),
        }
    }
}

/// The dependencies of a service.
#[derive(Debug, Clone, PartialEq, Eq)]
pub struct PackageJsonSummary {
    pub dependencies: TextMap<String>,
    pub dev_dependencies: TextMap<String>,
}

/// What a [`PackageJsonSummary`] holds.
pub struct PackageJsonSummaryModel {
    pub dependencies: Map<Seq<char>, Seq<char>>,
    pub dev_dependencies: Map<Seq<char>, Seq<char>>,
}

impl DeepView for PackageJsonSummary {
    type V = PackageJsonSummaryModel;

    open spec fn deep_view(&self) -> PackageJsonSummaryModel {
        PackageJsonSummaryModel {
            dependencies: self.dependencies.deep_view(),
            dev_dependencies: self.dev_dependencies.deep_view(),
        }
    }
}

impl Duplicate for PackageJsonSummary {
    fn duplicate(&self) -> (r: Self) {
        PackageJsonSummary {
            dependencies: self.dependencies.duplicate(),
            dev_dependencies: self.dev_dependencies.duplicate(),
        }
    }
}

/// The body of a detection request. The same service gives the same body.
#[derive(Debug, Clone, PartialEq, Eq)]
pub struct FrameworkDetectionInput {
    pub package_json: PackageJsonSummary,
    pub imports: Vec<String>,
}

/// What a [`FrameworkDetectionInput`] holds.
pub struct FrameworkDetectionInputModel {
    pub package_json: PackageJsonSummaryModel,
    pub imports: Seq<Seq<char>>,
}

impl DeepView for FrameworkDetectionInput {
    type V = FrameworkDetectionInputModel;

    open spec fn deep_view(&self) -> FrameworkDetectionInputModel {
        FrameworkDetectionInputModel {
            package_json: self.package_json.deep_view(),
            imports: self.imports.deep_view(),
        }
    }
}

impl Duplicate for FrameworkDetectionInput {
    fn duplicate(&self) -> (r: Self) {
        FrameworkDetectionInput {
            package_json: self.package_json.duplicate(),
            imports: copy_list(&self.imports),
        }
    }
}


// ---------------------------------------------------------------------------
// The request
// ---------------------------------------------------------------------------

/// The dependencies of all manifests; a later manifest's version wins.
pub open spec fn all_dependencies(manifests: Seq<PackageJsonModel>) -> Map<Seq<char>, Seq<char>>
    decreases manifests.len(),
{
    if manifests.len() == 0 {
        Map::empty()
    } else {
        all_dependencies(manifests.drop_last()).union_prefer_right(manifests.last().dependencies)
    }
}

/// The development dependencies of all manifests; a later manifest's version
/// wins.
pub open spec fn all_dev_dependencies(manifests: Seq<PackageJsonModel>) -> Map<Seq<char>, Seq<char>>
    decreases manifests.len(),
{
    if manifests.len() == 0 {
        Map::empty()
    } else {
        all_dev_dependencies(manifests.drop_last()).union_prefer_right(manifests.last().dev_dependencies)
    }
}

fn insert_all(into: &mut TextMap<String>, from: &TextMap<String>)
    ensures
        final(into).deep_view() == old(into).deep_view().union_prefer_right(from.deep_view()),
{
    let ghost start = into.deep_view();
    let ghost added = from.deep_view();
    let n = from.len();
    let ghost listing = from.listing();
    let mut i: usize = 0;
    while i < n
        invariant
            i <= n,
            n == listing.len(),
            listing == from.listing(),
            added == from.deep_view(),
            from@ == map_of(listing),
            keys_ascend(listing),
            forall|k: Seq<char>|
                #[trigger] into.deep_view().contains_key(k) <==> start.contains_key(k) || lists_before(listing, i as int, k),
            forall|k: Seq<char>|
                #[trigger] into.deep_view().contains_key(k) ==> into.deep_view()[k] == (if lists_before(listing, i as int, k) {
                    added[k]
                } else {
                    start[k]
                }),
        decreases n - i,
    {
        let ghost before = into.deep_view();
        let (key, value) = from.entry(i);
        assert(added[key@] == value@);
        assert(listing[i as int].0@ == key@);
        into.insert(key.clone(), value.clone());
        assert(into.deep_view() =~= before.insert(key@, value@));
        assert forall|k: Seq<char>| lists_before(listing, i + 1, k) <==> lists_before(listing, i as int, k) || k == key@ by {
            if lists_before(listing, i as int, k) {
                let j = choose|j: int| 0 <= j < i && (#[trigger] listing[j]).0@ == k;
                assert(listing[j].0@ == k);
            }
            if k == key@ {
                assert(listing[i as int].0@ == k);
            }
        }
        assert forall|k: Seq<char>| #[trigger] into.deep_view().contains_key(k) <==> start.contains_key(k) || lists_before(
            listing,
            i + 1,
            k,
        ) by {
            assert(before.contains_key(k) <==> start.contains_key(k) || lists_before(listing, i as int, k));
        }
        assert forall|k: Seq<char>| #[trigger] into.deep_view().contains_key(k) implies into.deep_view()[k] == (if lists_before(
            listing,
            i + 1,
            k,
        ) {
            added[k]
        } else {
            start[k]
        }) by {
            if k != key@ {
                assert(before.contains_key(k));
            }
        }
        i += 1;
    }
    assert forall|k: Seq<char>| lists_before(listing, n as int, k) <==> #[trigger] added.contains_key(k) by {
        if added.contains_key(k) {
            let j = choose|j: int| 0 <= j < listing.len() && #[trigger] listing[j].0@ == k;
            assert(listing[j].0@ == k);
        }
        if lists_before(listing, n as int, k) {
            let j = choose|j: int| 0 <= j < n && (#[trigger] listing[j]).0@ == k;
            assert(listing[j].0@ == k);
        }
    }
    assert forall|k: Seq<char>| #[trigger] into.deep_view().contains_key(k) <==> start.union_prefer_right(added).contains_key(k) by {
        assert(lists_before(listing, n as int, k) <==> added.contains_key(k));
    }
    assert forall|k: Seq<char>| into.deep_view().contains_key(k) implies #[trigger] into.deep_view()[k] == start.union_prefer_right(
        added,
    )[k] by {
        assert(lists_before(listing, n as int, k) <==> added.contains_key(k));
        assert(into.deep_view().contains_key(k));
    }
    assert(into.deep_view() =~= start.union_prefer_right(added));
}

/// The listing holds the key among its first entries.
spec fn lists_before(listing: Seq<(String, String)>, n: int, k: Seq<char>) -> bool {
    exists|j: int| 0 <= j < n && (#[trigger] listing[j]).0@ == k
}

/// The dependencies of a service, drawn together from its manifests.
pub fn extract_package_summary(package_jsons: &Vec<PackageJson>) -> (r: PackageJsonSummary)
    ensures
        r.deep_view() == (PackageJsonSummaryModel {
            dependencies: all_dependencies(package_jsons.deep_view()),
            dev_dependencies: all_dev_dependencies(package_jsons.deep_view()),
        }),
{
    let ghost all = package_jsons.deep_view();
    let mut dependencies: TextMap<String> = TextMap::new();
    let mut dev_dependencies: TextMap<String> = TextMap::new();
    let mut i: usize = 0;
    assert(dependencies.deep_view() =~= all_dependencies(all.take(0)));
    assert(dev_dependencies.deep_view() =~= all_dev_dependencies(all.take(0)));
    while i < package_jsons.len()
        invariant
            i <= package_jsons.len(),
            all == package_jsons.deep_view(),
            dependencies.deep_view() == all_dependencies(all.take(i as int)),
            dev_dependencies.deep_view() == all_dev_dependencies(all.take(i as int)),
        decreases package_jsons.len() - i,
    {
        assert(all.take(i + 1).drop_last() == all.take(i as int));
        assert(all.take(i + 1).last() == package_jsons@[i as int].deep_view());
        insert_all(&mut dependencies, &package_jsons[i].dependencies);
        insert_all(&mut dev_dependencies, &package_jsons[i].dev_dependencies);
        i += 1;
    }
    assert(all.take(all.len() as int) == all);
    PackageJsonSummary { dependencies, dev_dependencies }
}

/// The local names under which symbols of one kind come from a source, as
/// often as they are imported.
pub open spec fn locals_from(imports: Seq<ImportedSymbolModel>, source: Seq<char>, kind: SymbolKind) -> Seq<Seq<char>>
    decreases imports.len(),
{
    if imports.len() == 0 {
        Seq::empty()
    } else {
        let before = locals_from(imports.drop_last(), source, kind);
        if imports.last().source == source && imports.last().kind == kind {
            before.push(imports.last().local_name)
        } else {
            before
        }
    }
}

/// The sources, as often as they are imported from.
pub open spec fn sources_of(imports: Seq<ImportedSymbolModel>) -> Seq<Seq<char>> {
    imports.map_values(|s: ImportedSymbolModel| s.source)
}

/// The statement that stands for all imports from a source: one form per
/// source, a default import first, then the named ones, then a namespace.
pub open spec fn import_statement(imports: Seq<ImportedSymbolModel>, source: Seq<char>) -> Option<Seq<char>> {
    let defaults = sorted_distinct(locals_from(imports, source, SymbolKind::Default));
    let named = sorted_distinct(locals_from(imports, source, SymbolKind::Named));
    let namespaces = sorted_distinct(locals_from(imports, source, SymbolKind::Namespace));
    if defaults.len() > 0 {
        Some("import "@ + defaults[0] + " from '"@ + source + "';"@)
    } else if named.len() > 0 {
        Some("import { "@ + joined(named, ", "@) + " } from '"@ + source + "';"@)
    } else if namespaces.len() > 0 {
        Some("import * as "@ + namespaces[0] + " from '"@ + source + "';"@)
    } else {
        None
    }
}

pub open spec fn statements_for(imports: Seq<ImportedSymbolModel>, sources: Seq<Seq<char>>) -> Seq<Seq<char>>
    decreases sources.len(),
{
    if sources.len() == 0 {
        Seq::empty()
    } else {
        let before = statements_for(imports, sources.drop_last());
        match import_statement(imports, sources.last()) {
            Some(statement) => before.push(statement),
            None => before,
        }
    }
}

/// The import sample: one statement per source, sources in order.
pub open spec fn import_sample(imports: Seq<ImportedSymbolModel>) -> Seq<Seq<char>> {
    statements_for(imports, sorted_distinct(sources_of(imports)))
}

fn locals_sorted(imports: &Vec<ImportedSymbol>, source: &str, kind: SymbolKind) -> (r: Vec<String>)
    ensures
        r.deep_view() == sorted_distinct(locals_from(imports.deep_view(), source@, kind)),
{
    let ghost all = imports.deep_view();
    let mut r: Vec<String> = Vec::new();
    let mut i: usize = 0;
    assert(r.deep_view() =~= sorted_distinct(locals_from(all.take(0), source@, kind)));
    while i < imports.len()
        invariant
            i <= imports.len(),
            all == imports.deep_view(),
            texts_ascend(r.deep_view()),
            r.deep_view() == sorted_distinct(locals_from(all.take(i as int), source@, kind)),
        decreases imports.len() - i,
    {
        assert(all.take(i + 1).drop_last() == all.take(i as int));
        assert(all.take(i + 1).last() == imports@[i as int].deep_view());
        if same(imports[i].source.as_str(), source) && imports[i].kind == kind {
            insert_sorted(&mut r, imports[i].local_name.clone());
            proof {
                let list = locals_from(all.take(i + 1), source@, kind);
                assert(list.drop_last() =~= locals_from(all.take(i as int), source@, kind));
            }
        }
        i += 1;
    }
    assert(all.take(all.len() as int) == all);
    r
}

fn statement_for(imports: &Vec<ImportedSymbol>, source: &str) -> (r: Option<String>)
    ensures
        r.deep_view() == import_statement(imports.deep_view(), source@),
{
    let defaults = locals_sorted(imports, source, SymbolKind::Default);
    let named = locals_sorted(imports, source, SymbolKind::Named);
    let namespaces = locals_sorted(imports, source, SymbolKind::Namespace);
    if defaults.len() > 0 {
        let mut r = concat3("import ", defaults[0].as_str(), " from '");
        r.append(source);
        r.append("';");
        Some(r)
    } else if named.len() > 0 {
        let mut r = concat3("import { ", join(&named, ", ").as_str(), " } from '");
        r.append(source);
        r.append("';");
        Some(r)
    } else if namespaces.len() > 0 {
        let mut r = concat3("import * as ", namespaces[0].as_str(), " from '");
        r.append(source);
        r.append("';");
        Some(r)
    } else {
        None
    }
}

/// Renders the import sample as import statements: one per source, sources in
/// order, local names sorted and each once. No order is inherited from the
/// caller.
pub fn extract_import_statements(imports: &Vec<ImportedSymbol>) -> (r: Vec<String>)
    ensures
        r.deep_view() == import_sample(imports.deep_view()),
{
    let ghost all = imports.deep_view();
    let mut listed: Vec<String> = Vec::new();
    let mut i: usize = 0;
    assert(listed.deep_view() =~= sources_of(all.take(0)));
    while i < imports.len()
        invariant
            i <= imports.len(),
            all == imports.deep_view(),
            listed.deep_view() == sources_of(all.take(i as int)),
        decreases imports.len() - i,
    {
        let ghost before = listed.deep_view();
        listed.push(imports[i].source.clone());
        assert(listed.deep_view() =~= before.push(imports@[i as int].source@));
        assert(all.take(i + 1) =~= all.take(i as int).push(all[i as int]));
        assert(listed.deep_view() =~= sources_of(all.take(i + 1)));
        i += 1;
    }
    assert(all.take(all.len() as int) == all);
    let sources = sort_distinct(&listed);
    let ghost names = sources.deep_view();
    let mut r: Vec<String> = Vec::new();
    let mut j: usize = 0;
    assert(r.deep_view() =~= statements_for(all, names.take(0)));
    while j < sources.len()
        invariant
            j <= sources.len(),
            all == imports.deep_view(),
            names == sources.deep_view(),
            r.deep_view() == statements_for(all, names.take(j as int)),
        decreases sources.len() - j,
    {
        let ghost before = r.deep_view();
        assert(names.take(j + 1).drop_last() == names.take(j as int));
        assert(names.take(j + 1).last() == sources@[j as int]@);
        match statement_for(imports, sources[j].as_str()) {
            Some(statement) => {
                r.push(statement);
                assert(r.deep_view() =~= before.push(statement@));
            },
            None => {},
        }
        j += 1;
    }
    assert(names.take(names.len() as int) == names);
    r
}

/// Builds the body of a detection request from a service's manifests and its
/// import sample.
pub fn build_detection_input(package_jsons: &Vec<PackageJson>, imports: &Vec<ImportedSymbol>) -> (r: FrameworkDetectionInput)
    ensures
        r.deep_view() == (FrameworkDetectionInputModel {
            package_json: PackageJsonSummaryModel {
                dependencies: all_dependencies(package_jsons.deep_view()),
                dev_dependencies: all_dev_dependencies(package_jsons.deep_view()),
            },
            imports: import_sample(imports.deep_view()),
        }),
{
    FrameworkDetectionInput {
        package_json: extract_package_summary(package_jsons),
        imports: extract_import_statements(imports),
    }
}

proof fn locals_members(imports: Seq<ImportedSymbolModel>, source: Seq<char>, kind: SymbolKind, name: Seq<char>)
    ensures
        locals_from(imports, source, kind).contains(name) <==> exists|i: int|
            0 <= i < imports.len() && (#[trigger] imports[i]).source == source && imports[i].kind == kind && imports[i].local_name == name,
    decreases imports.len(),
{
    if imports.len() > 0 {
        let init = imports.drop_last();
        let before = locals_from(init, source, kind);
        let all = locals_from(imports, source, kind);
        locals_members(init, source, kind, name);
        assert(forall|i: int| 0 <= i < init.len() ==> init[i] == imports[i]);
        assert(imports[imports.len() - 1] == imports.last());
        if before.contains(name) {
            let k = choose|k: int| 0 <= k < before.len() && before[k] == name;
            assert(all[k] == name);
            let i = choose|i: int|
                0 <= i < init.len() && (#[trigger] init[i]).source == source && init[i].kind == kind && init[i].local_name == name;
            assert(imports[i].source == source);
        }
        if all.contains(name) && !before.contains(name) {
            let k = choose|k: int| 0 <= k < all.len() && all[k] == name;
            if k < before.len() {
                assert(before[k] == name);
            }
        }
        if imports.last().source == source && imports.last().kind == kind {
            assert(all[all.len() - 1] == imports.last().local_name);
        }
        if exists|i: int|
            0 <= i < imports.len() && (#[trigger] imports[i]).source == source && imports[i].kind == kind && imports[i].local_name
                == name {
            let i = choose|i: int|
                0 <= i < imports.len() && (#[trigger] imports[i]).source == source && imports[i].kind == kind
                    && imports[i].local_name == name;
            if i < init.len() {
                assert(init[i].source == source);
            }
        }
    }
}

proof fn same_imports_same_locals(
    a: Seq<ImportedSymbolModel>,
    b: Seq<ImportedSymbolModel>,
    source: Seq<char>,
    kind: SymbolKind,
)
    requires
        forall|s: ImportedSymbolModel| a.contains(s) <==> b.contains(s),
    ensures
        sorted_distinct(locals_from(a, source, kind)) == sorted_distinct(locals_from(b, source, kind)),
{
    assert forall|name: Seq<char>| locals_from(a, source, kind).contains(name) <==> locals_from(b, source, kind).contains(name) by {
        locals_members(a, source, kind, name);
        locals_members(b, source, kind, name);
        if locals_from(a, source, kind).contains(name) {
            let i = choose|i: int|
                0 <= i < a.len() && (#[trigger] a[i]).source == source && a[i].kind == kind && a[i].local_name == name;
            assert(b.contains(a[i]));
            let j = choose|j: int| 0 <= j < b.len() && b[j] == a[i];
            assert(b[j].source == source);
        }
        if locals_from(b, source, kind).contains(name) {
            let i = choose|i: int|
                0 <= i < b.len() && (#[trigger] b[i]).source == source && b[i].kind == kind && b[i].local_name == name;
            assert(a.contains(b[i]));
            let j = choose|j: int| 0 <= j < a.len() && a[j] == b[i];
            assert(a[j].source == source);
        }
    }
    same_members_same_order(locals_from(a, source, kind), locals_from(b, source, kind));
}

proof fn same_imports_same_statements(a: Seq<ImportedSymbolModel>, b: Seq<ImportedSymbolModel>, sources: Seq<Seq<char>>)
    requires
        forall|s: ImportedSymbolModel| a.contains(s) <==> b.contains(s),
    ensures
        statements_for(a, sources) == statements_for(b, sources),
    decreases sources.len(),
{
    if sources.len() > 0 {
        same_imports_same_statements(a, b, sources.drop_last());
        same_imports_same_locals(a, b, sources.last(), SymbolKind::Default);
        same_imports_same_locals(a, b, sources.last(), SymbolKind::Named);
        same_imports_same_locals(a, b, sources.last(), SymbolKind::Namespace);
    }
}

/// The import sample does not depend on the order in which files were read, nor
/// on how often an import was seen: the same imports give the same statements.
pub proof fn sample_ignores_walk_order(a: Seq<ImportedSymbolModel>, b: Seq<ImportedSymbolModel>)
    requires
        forall|s: ImportedSymbolModel| a.contains(s) <==> b.contains(s),
    ensures
        import_sample(a) == import_sample(b),
{
    assert forall|source: Seq<char>| sources_of(a).contains(source) <==> sources_of(b).contains(source) by {
        if sources_of(a).contains(source) {
            let i = choose|i: int| 0 <= i < sources_of(a).len() && sources_of(a)[i] == source;
            assert(b.contains(a[i]));
            let j = choose|j: int| 0 <= j < b.len() && b[j] == a[i];
            assert(sources_of(b)[j] == source);
        }
        if sources_of(b).contains(source) {
            let i = choose|i: int| 0 <= i < sources_of(b).len() && sources_of(b)[i] == source;
            assert(a.contains(b[i]));
            let j = choose|j: int| 0 <= j < a.len() && a[j] == b[i];
            assert(sources_of(a)[j] == source);
        }
    }
    same_members_same_order(sources_of(a), sources_of(b));
    same_imports_same_statements(a, b, sorted_distinct(sources_of(a)));
}

proof fn an_imported_source_is_stated(imports: Seq<ImportedSymbolModel>, i: int)
    requires
        0 <= i < imports.len(),
    ensures
        import_statement(imports, imports[i].source) is Some,
{
    let symbol = imports[i];
    let locals = locals_from(imports, symbol.source, symbol.kind);
    locals_members(imports, symbol.source, symbol.kind, symbol.local_name);
    assert(imports[i].source == symbol.source);
    assert(locals.contains(symbol.local_name));
    sorted_distinct_sorts(locals);
    assert(sorted_distinct(locals).contains(symbol.local_name));
}

proof fn stated_sources_keep_their_places(imports: Seq<ImportedSymbolModel>, sources: Seq<Seq<char>>)
    requires
        forall|i: int| 0 <= i < sources.len() ==> import_statement(imports, #[trigger] sources[i]) is Some,
    ensures
        statements_for(imports, sources) == sources.map_values(
            |source: Seq<char>| import_statement(imports, source)->0,
        ),
    decreases sources.len(),
{
    let stated = sources.map_values(|source: Seq<char>| import_statement(imports, source)->0);
    if sources.len() > 0 {
        let init = sources.drop_last();
        assert forall|i: int| 0 <= i < init.len() implies import_statement(imports, #[trigger] init[i]) is Some by {
            assert(init[i] == sources[i]);
        }
        stated_sources_keep_their_places(imports, init);
        assert(sources[sources.len() - 1] == sources.last());
        assert(stated =~= init.map_values(|source: Seq<char>| import_statement(imports, source)->0).push(
            import_statement(imports, sources.last())->0,
        ));
    } else {
        assert(stated =~= Seq::<Seq<char>>::empty());
    }
}

/// Every source that a service imports from is stated, once, and the statements
/// come in the order of the sources.
pub proof fn every_source_is_stated_once(imports: Seq<ImportedSymbolModel>)
    ensures
        import_sample(imports) == sorted_distinct(sources_of(imports)).map_values(
            |source: Seq<char>| import_statement(imports, source)->0,
        ),
        texts_ascend(sorted_distinct(sources_of(imports))),
        forall|i: int|
            0 <= i < imports.len() ==> sorted_distinct(sources_of(imports)).contains((#[trigger] imports[i]).source)
                && import_statement(imports, imports[i].source) is Some,
{
    let all = sources_of(imports);
    let sources = sorted_distinct(all);
    sorted_distinct_sorts(all);
    assert forall|k: int| 0 <= k < sources.len() implies import_statement(imports, #[trigger] sources[k]) is Some by {
        assert(sources.contains(sources[k]));
        assert(all.contains(sources[k]));
        let i = choose|i: int| 0 <= i < all.len() && all[i] == sources[k];
        assert(imports[i].source == sources[k]);
        an_imported_source_is_stated(imports, i);
    }
    stated_sources_keep_their_places(imports, sources);
    assert forall|i: int| 0 <= i < imports.len() implies sources.contains((#[trigger] imports[i]).source)
        && import_statement(imports, imports[i].source) is Some by {
        assert(all[i] == imports[i].source);
        assert(all.contains(imports[i].source));
        assert(sources.contains(imports[i].source));
        an_imported_source_is_stated(imports, i);
    }
}

// ---------------------------------------------------------------------------
// The answer
// ---------------------------------------------------------------------------

/// How many more braces open than close in a text.
pub open spec fn open_braces(s: Seq<char>) -> int
    decreases s.len(),
{
    if s.len() == 0 {
        0
    } else {
        open_braces(s.drop_last()) + if s.last() == '{' {
            1int
        } else if s.last() == '}' {
            -1int
        } else {
            0int
        }
    }
}

/// `i` is the first position of a character.
pub open spec fn first_char(s: Seq<char>, c: char, i: int) -> bool {
    0 <= i < s.len() && s[i] == c && forall|j: int| 0 <= j < i ==> s[j] != c
}

/// `i` is the last position of a character.
pub open spec fn last_char(s: Seq<char>, c: char, i: int) -> bool {
    0 <= i < s.len() && s[i] == c && forall|j: int| i < j < s.len() ==> s[j] != c
}

/// A closing brace at `e`, behind an opening one, up to which the braces
/// balance.
pub open spec fn balances_at(s: Seq<char>, e: int) -> bool {
    0 <= e < s.len() && s[e] == '}' && open_braces(s.take(e + 1)) == 0 && s.take(e).contains('{')
}

/// `e` is the first position at which the braces balance.
pub open spec fn object_ends(s: Seq<char>, e: int) -> bool {
    balances_at(s, e) && forall|j: int| 0 <= j < e ==> !balances_at(s, j)
}

/// What a read of an answer comes to.
pub enum Extracted {
    Json(Seq<char>),
    NoObject,
    NoEnd,
}

/// The JSON object in a trimmed answer: the whole of it where it is one, else
/// the first balanced object, else everything from the first opening to the
/// last closing brace. An answer that closes its last brace before it first opens
/// one holds none.
pub open spec fn json_in(s: Seq<char>) -> Extracted {
    if has_prefix(s, "{"@) && has_suffix(s, "}"@) {
        Extracted::Json(s)
    } else if !s.contains('{') {
        Extracted::NoObject
    } else {
        let start = choose|i: int| first_char(s, '{', i);
        if exists|e: int| object_ends(s, e) {
            Extracted::Json(s.subrange(start, (choose|e: int| object_ends(s, e)) + 1))
        } else if s.contains('}') {
            let end = choose|e: int| last_char(s, '}', e);
            if start < end {
                Extracted::Json(s.subrange(start, end + 1))
            } else {
                Extracted::NoObject
            }
        } else {
            Extracted::NoEnd
        }
    }
}

proof fn first_char_is(s: Seq<char>, c: char, i: int)
    requires
        first_char(s, c, i),
    ensures
        s.contains(c),
        (choose|j: int| first_char(s, c, j)) == i,
{
    let j = choose|j: int| first_char(s, c, j);
    assert(first_char(s, c, j));
}

proof fn last_char_is(s: Seq<char>, c: char, i: int)
    requires
        last_char(s, c, i),
    ensures
        s.contains(c),
        (choose|j: int| last_char(s, c, j)) == i,
{
    let j = choose|j: int| last_char(s, c, j);
    assert(last_char(s, c, j));
}

fn find_first(v: &Vec<char>, c: char) -> (r: Option<usize>)
    ensures
        match r {
            Some(i) => first_char(v@, c, i as int),
            None => !v@.contains(c),
        },
{
    let mut i: usize = 0;
    while i < v.len()
        invariant
            i <= v.len(),
            forall|j: int| 0 <= j < i ==> v@[j] != c,
        decreases v.len() - i,
    {
        if v[i] == c {
            return Some(i);
        }
        i += 1;
    }
    None
}

fn find_last(v: &Vec<char>, c: char) -> (r: Option<usize>)
    ensures
        match r {
            Some(i) => last_char(v@, c, i as int),
            None => !v@.contains(c),
        },
{
    let mut i: usize = v.len();
    while i > 0
        invariant
            i <= v.len(),
            forall|j: int| i <= j < v.len() ==> v@[j] != c,
        decreases i,
    {
        i -= 1;
        if v[i] == c {
            return Some(i);
        }
    }
    None
}

fn find_end(v: &Vec<char>) -> (r: Option<usize>)
    ensures
        match r {
            Some(e) => object_ends(v@, e as int),
            None => forall|e: int| !object_ends(v@, e),
        },
{
    let mut opened: bool = false;
    let mut count: i128 = 0;
    let mut i: usize = 0;
    while i < v.len()
        invariant
            i <= v.len(),
            count == open_braces(v@.take(i as int)),
            -(i as int) <= count <= i,
            opened == v@.take(i as int).contains('{'),
            forall|j: int| 0 <= j < i ==> !balances_at(v@, j),
        decreases v.len() - i,
    {
        proof {
            assert(v@.take(i + 1).drop_last() == v@.take(i as int));
            let now = v@.take(i + 1);
            let then = v@.take(i as int);
            assert(now[i as int] == v@[i as int]);
            if then.contains('{') {
                let k = choose|k: int| 0 <= k < then.len() && then[k] == '{';
                assert(now[k] == '{');
            }
            if now.contains('{') {
                let k = choose|k: int| 0 <= k < now.len() && now[k] == '{';
                if k < i {
                    assert(then[k] == '{');
                }
            }
        }
        let c = v[i];
        if c == '{' {
            opened = true;
            count = count + 1;
        } else if c == '}' {
            count = count - 1;
            if count == 0 && opened {
                return Some(i);
            }
        }
        i += 1;
    }
    None
}

/// Reads the JSON object out of an answer that may hold text around it.
pub fn extract_json_from_response(response: &str) -> (r: Result<String, String>)
    ensures
        match json_in(trimmed(response@)) {
            Extracted::Json(json) => r matches Ok(text) && text@ == json,
            Extracted::NoObject => r matches Err(e) && e@ == "No JSON object found in LLM response"@,
            Extracted::NoEnd => r matches Err(e) && e@ == "Could not find valid JSON in LLM response"@,
        },
{
    let text = trim(response);
    if starts_with(text.as_str(), "{") && ends_with(text.as_str(), "}") {
        return Ok(text);
    }
    let v = chars_of(text.as_str());
    let start = match find_first(&v, '{') {
        Some(start) => start,
        None => {
            return Err("No JSON object found in LLM response".to_owned());
        },
    };
    proof {
        first_char_is(v@, '{', start as int);
    }
    match find_end(&v) {
        Some(end) => {
            proof {
                let e = choose|e: int| object_ends(v@, e);
                assert(object_ends(v@, e));
                assert(e == end);
                let k = choose|k: int| 0 <= k < end && v@.take(end as int)[k] == '{';
                assert(v@[k] == '{');
            }
            Ok(text_of(&v, start, end + 1))
        },
        None => match find_last(&v, '}') {
            Some(end) => {
                proof {
                    last_char_is(v@, '}', end as int);
                }
                if start < end {
                    Ok(text_of(&v, start, end + 1))
                } else {
                    Err("No JSON object found in LLM response".to_owned())
                }
            },
            None => Err("Could not find valid JSON in LLM response".to_owned()),
        },
    }
}

/// Detects frameworks through an agent service.
pub struct FrameworkDetector<A> {
    pub agent_service: A,
}

impl<A> FrameworkDetector<A> {
    pub fn new(agent_service: A) -> (r: Self)
        ensures
            r.agent_service == agent_service,
    {
        FrameworkDetector { agent_service }
    }
}

} // verus!
