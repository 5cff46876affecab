//! Generic file-based routing: deriving HTTP route paths from where files lie.
//!
//! Some frameworks declare a route by the location of its file, so the route
//! stands nowhere in the file's bytes. The module executes a
//! [`RoutingConvention`], which is plain data. The built-in conventions are a
//! bootstrap, selected from detection's framework labels and from the
//! dependencies a service declares.

use crate::duplicate::Duplicate;
use crate::ordered::TextMap;
use crate::text::{
    after_prefix, chars_of, concat, contains, copy_list, copy_option, ends_with, has_prefix, has_suffix, has_text,
    keep_nonempty, last_cut, list_contains, nonempty, replace_char, rsplit_once, same, split_at_char, split_at_text,
    split_char, split_text, starts_with, strip_prefix, text_of, to_lowercase, to_uppercase, trim, trim_char,
    trim_end_char, trim_start_char, trim_start_text, trimmed, trimmed_end_of, trimmed_of, trimmed_start_of,
    trimmed_start_text, unicode_lowercase, unicode_uppercase, with_char_replaced,
};
use vstd::prelude::*;

verus! {

// ---------------------------------------------------------------------------
// HTTP methods
// ---------------------------------------------------------------------------

/// The names of the HTTP methods.
pub open spec fn names_method(s: Seq<char>) -> bool {
    ||| s == "GET"@
    ||| s == "POST"@
    ||| s == "PUT"@
    ||| s == "DELETE"@
    ||| s == "PATCH"@
    ||| s == "HEAD"@
    ||| s == "OPTIONS"@
}

/// A method's name in any case, with space around it or not.
pub open spec fn is_method(s: Seq<char>) -> bool {
    names_method(unicode_uppercase(trimmed(s)))
}

fn is_method_name(s: &str) -> (r: bool)
    ensures
        r == names_method(s@),
{
    same(s, "GET") || same(s, "POST") || same(s, "PUT") || same(s, "DELETE") || same(s, "PATCH") || same(s, "HEAD") || same(
        s,
        "OPTIONS",
    )
}

pub fn is_http_method(s: &str) -> (r: bool)
    ensures
        r == is_method(s@),
{
    is_method_name(to_uppercase(trim(s).as_str()).as_str())
}

// ---------------------------------------------------------------------------
// Conventions
// ---------------------------------------------------------------------------

/// How the HTTP method of a file-based endpoint is determined.
#[derive(Debug, Clone, Copy, PartialEq, Eq, Structural)]
pub enum MethodSource {
    /// The method is the name of an exported handler, or the method that the
    /// convention gives a role-named export.
    ExportName,
    /// One default-exported handler serves every method and branches at run
    /// time.
    DefaultExport,
}

/// Where the segments of a route path come from: the directory chain above a
/// fixed terminal file, or the file name itself. With a separator the file name
/// is a flattened chain of segments.
#[derive(Debug, Clone, PartialEq, Eq)]
pub enum SegmentSource {
    DirectoryChain { terminal_files: Vec<String> },
    FileName { extensions: Vec<String>, segment_separator: Option<String> },
}

/// What a [`SegmentSource`] holds.
pub enum SegmentSourceModel {
    DirectoryChain { terminal_files: Seq<Seq<char>> },
    FileName { extensions: Seq<Seq<char>>, segment_separator: Option<Seq<char>> },
}

impl DeepView for SegmentSource {
    type V = SegmentSourceModel;

    open spec fn deep_view(&self) -> SegmentSourceModel {
        match self {
            SegmentSource::DirectoryChain { terminal_files } => SegmentSourceModel::DirectoryChain {
                terminal_files: terminal_files.deep_view(),
            },
            SegmentSource::FileName { extensions, segment_separator } => SegmentSourceModel::FileName {
                extensions: extensions.deep_view(),
                segment_separator: segment_separator.deep_view(),
            },
        }
    }
}

impl Duplicate for SegmentSource {
    fn duplicate(&self) -> (r: Self) {
        match self {
            SegmentSource::DirectoryChain { terminal_files } => SegmentSource::DirectoryChain {
                terminal_files: copy_list(terminal_files),
            },
            SegmentSource::FileName { extensions, segment_separator } => SegmentSource::FileName {
                extensions: copy_list(extensions),
                segment_separator: copy_option(segment_separator),
            },
        }
    }
}

/// A declarative description of a file-based routing scheme.
#[derive(Debug, Clone, PartialEq, Eq)]
pub struct RoutingConvention {
    /// A label for diagnostics.
    pub name: String,
    /// The directories under which route files lie; the longest that matches
    /// wins.
    pub root_globs: Vec<String>,
    pub segment_source: SegmentSource,
    /// Stands before every derived path.
    pub path_prefix: String,
    pub dynamic_open: String,
    pub dynamic_close: String,
    /// Turns a dynamic segment into a catch-all.
    pub catch_all_marker: String,
    pub group_open: String,
    pub group_close: String,
    pub method_source: MethodSource,
    /// The methods that role-named exports serve.
    pub method_exports: TextMap<String>,
}

/// What a [`RoutingConvention`] holds.
pub struct RoutingConventionModel {
    pub name: Seq<char>,
    pub root_globs: Seq<Seq<char>>,
    pub segment_source: SegmentSourceModel,
    pub path_prefix: Seq<char>,
    pub dynamic_open: Seq<char>,
    pub dynamic_close: Seq<char>,
    pub catch_all_marker: Seq<char>,
    pub group_open: Seq<char>,
    pub group_close: Seq<char>,
    pub method_source: MethodSource,
    pub method_exports: Map<Seq<char>, Seq<char>>,
}

impl DeepView for RoutingConvention {
    type V = RoutingConventionModel;

    open spec fn deep_view(&self) -> RoutingConventionModel {
        RoutingConventionModel {
            name: self.name@,
            root_globs: self.root_globs.deep_view(),
            segment_source: self.segment_source.deep_view(),
            path_prefix: self.path_prefix@,
            dynamic_open: self.dynamic_open@,
            dynamic_close: self.dynamic_close@,
            catch_all_marker: self.catch_all_marker@,
            group_open: self.group_open@,
            group_close: self.group_close@,
            method_source: self.method_source,
            method_exports: self.method_exports.deep_view(),
        }
    }
}

impl Duplicate for RoutingConvention {
    fn duplicate(&self) -> (r: Self) {
        RoutingConvention {
            name: self.name.clone(),
            root_globs: copy_list(&self.root_globs),
            segment_source: self.segment_source.duplicate(),
            path_prefix: self.path_prefix.clone(),
            dynamic_open: self.dynamic_open.clone(),
            dynamic_close: self.dynamic_close.clone(),
            catch_all_marker: self.catch_all_marker.clone(),
            group_open: self.group_open.clone(),
            group_close: self.group_close.clone(),
            method_source: self.method_source,
            method_exports: self.method_exports.duplicate(),
        }
    }
}

/// A route derived from a file's location.
#[derive(Debug, Clone, PartialEq, Eq)]
pub struct DerivedRoute {
    pub path: String,
    pub method_source: MethodSource,
    pub convention: String,
    pub method_exports: TextMap<String>,
}

/// What a [`DerivedRoute`] holds.
pub struct DerivedRouteModel {
    pub path: Seq<char>,
    pub method_source: MethodSource,
    pub convention: Seq<char>,
    pub method_exports: Map<Seq<char>, Seq<char>>,
}

impl DeepView for DerivedRoute {
    type V = DerivedRouteModel;

    open spec fn deep_view(&self) -> DerivedRouteModel {
        DerivedRouteModel {
            path: self.path@,
            method_source: self.method_source,
            convention: self.convention@,
            method_exports: self.method_exports.deep_view(),
        }
    }
}

impl Duplicate for DerivedRoute {
    fn duplicate(&self) -> (r: Self) {
        DerivedRoute {
            path: self.path.clone(),
            method_source: self.method_source,
            convention: self.convention.clone(),
            method_exports: self.method_exports.duplicate(),
        }
    }
}


// ---------------------------------------------------------------------------
// Methods of an export
// ---------------------------------------------------------------------------

/// Methods that a handler may branch on without serving them: a preflight or a
/// body-less read never narrows a role-named export.
pub open spec fn never_narrows(method: Seq<char>) -> bool {
    method == "OPTIONS"@ || method == "HEAD"@
}

/// The guarded methods after one more guard.
pub open spec fn after_guard(methods: Seq<Seq<char>>, guard: Seq<char>) -> Seq<Seq<char>> {
    let method = unicode_uppercase(trimmed(guard));
    if !is_method(guard) || never_narrows(method) || methods.contains(method) {
        methods
    } else {
        methods.push(method)
    }
}

/// The methods that a handler's guards narrow it to, in order, each once.
pub open spec fn guarded(guards: Seq<Seq<char>>) -> Seq<Seq<char>>
    decreases guards.len(),
{
    if guards.len() == 0 {
        Seq::empty()
    } else {
        after_guard(guarded(guards.drop_last()), guards.last())
    }
}

/// The methods that an export serves. An export named for a method is that
/// method; where the method is the export's name, a role-named export serves what
/// its guards narrow it to, and without a guard the convention's default; any
/// other export serves none.
pub open spec fn methods_of_export(
    source: MethodSource,
    exports: Map<Seq<char>, Seq<char>>,
    export: Seq<char>,
    guards: Seq<Seq<char>>,
) -> Seq<Seq<char>> {
    if is_method(export) {
        seq![unicode_uppercase(export)]
    } else if source != MethodSource::ExportName || !exports.contains_key(export) || !is_method(exports[export]) {
        Seq::empty()
    } else if guarded(guards).len() == 0 {
        seq![unicode_uppercase(exports[export])]
    } else {
        guarded(guards)
    }
}

fn guarded_methods(guards: &Vec<String>) -> (r: Vec<String>)
    ensures
        r.deep_view() == guarded(guards.deep_view()),
{
    let ghost all = guards.deep_view();
    let mut r: Vec<String> = Vec::new();
    let mut i: usize = 0;
    assert(r.deep_view() =~= guarded(all.take(0)));
    while i < guards.len()
        invariant
            i <= guards.len(),
            all == guards.deep_view(),
            r.deep_view() == guarded(all.take(i as int)),
        decreases guards.len() - i,
    {
        let ghost before = r.deep_view();
        assert(all.take(i + 1).drop_last() == all.take(i as int));
        assert(all.take(i + 1).last() == guards@[i as int]@);
        if is_http_method(guards[i].as_str()) {
            let method = to_uppercase(trim(guards[i].as_str()).as_str());
            let narrows = !same(method.as_str(), "OPTIONS") && !same(method.as_str(), "HEAD");
            if narrows && !list_contains(&r, method.as_str()) {
                r.push(method);
                assert(r.deep_view() =~= before.push(method@));
            }
        }
        i += 1;
    }
    assert(all.take(all.len() as int) == all);
    r
}

fn one_text(s: String) -> (r: Vec<String>)
    ensures
        r.deep_view() == seq![s@],
{
    let mut r: Vec<String> = Vec::new();
    r.push(s);
    assert(r.deep_view() =~= seq![s@]);
    r
}

impl DerivedRoute {
    /// The HTTP methods that an exported binding serves under this route's
    /// convention; none when the export is not a handler. The guards are the
    /// method literals that the handler's body compares the request's method
    /// with.
    pub fn http_methods_for_export(&self, export: &str, method_guards: &Vec<String>) -> (r: Vec<String>)
        ensures
            r.deep_view() == methods_of_export(
                self.method_source,
                self.method_exports.deep_view(),
                export@,
                method_guards.deep_view(),
            ),
    {
        if is_http_method(export) {
            return one_text(to_uppercase(export));
        }
        match self.method_source {
            MethodSource::ExportName => {},
            MethodSource::DefaultExport => {
                let none: Vec<String> = Vec::new();
                assert(none.deep_view() =~= Seq::<Seq<char>>::empty());
                return none;
            },
        }
        match self.method_exports.get(export) {
            Some(default) => {
                assert(self.method_exports.deep_view()[export@] == default@);
                if !is_http_method(default.as_str()) {
                    let none: Vec<String> = Vec::new();
                    assert(none.deep_view() =~= Seq::<Seq<char>>::empty());
                    return none;
                }
                let narrowed = guarded_methods(method_guards);
                if narrowed.len() == 0 {
                    one_text(to_uppercase(default.as_str()))
                } else {
                    narrowed
                }
            },
            None => {
                let none: Vec<String> = Vec::new();
                assert(none.deep_view() =~= Seq::<Seq<char>>::empty());
                none
            },
        }
    }
}

/// No method is served twice by one export, and a preflight never displaces
/// the convention's default.
pub proof fn guards_give_distinct_narrowing_methods(guards: Seq<Seq<char>>)
    ensures
        guarded(guards).no_duplicates(),
        forall|i: int| 0 <= i < guarded(guards).len() ==> names_method(#[trigger] guarded(guards)[i]) && !never_narrows(guarded(guards)[i]),
    decreases guards.len(),
{
    if guards.len() > 0 {
        guards_give_distinct_narrowing_methods(guards.drop_last());
    }
}

// ---------------------------------------------------------------------------
// Built-in conventions
// ---------------------------------------------------------------------------

/// The convention of [`RoutingConvention::nextjs_app`].
pub open spec fn nextjs_app_convention() -> RoutingConventionModel {
    RoutingConventionModel {
        name: "nextjs-app"@,
        root_globs: seq!["app"@, "src/app"@],
        segment_source: SegmentSourceModel::DirectoryChain { terminal_files: seq!["route.ts"@, "route.js"@, "route.tsx"@, "route.mts"@] },
        path_prefix: Seq::empty(),
        dynamic_open: "["@,
        dynamic_close: "]"@,
        catch_all_marker: "..."@,
        group_open: "("@,
        group_close: ")"@,
        method_source: MethodSource::ExportName,
        method_exports: Map::<Seq<char>, Seq<char>>::empty(),
    }
}

/// The convention of [`RoutingConvention::nextjs_pages`].
pub open spec fn nextjs_pages_convention() -> RoutingConventionModel {
    RoutingConventionModel {
        name: "nextjs-pages"@,
        root_globs: seq!["pages/api"@, "src/pages/api"@],
        segment_source: SegmentSourceModel::FileName {
            extensions: seq!["ts"@, "js"@, "tsx"@, "jsx"@],
            segment_separator: None,
        },
        path_prefix: "/api"@,
        dynamic_open: "["@,
        dynamic_close: "]"@,
        catch_all_marker: "..."@,
        group_open: "("@,
        group_close: ")"@,
        method_source: MethodSource::DefaultExport,
        method_exports: Map::<Seq<char>, Seq<char>>::empty(),
    }
}

/// The convention of [`RoutingConvention::astro`].
pub open spec fn astro_convention() -> RoutingConventionModel {
    RoutingConventionModel {
        name: "astro"@,
        root_globs: seq!["src/pages"@],
        segment_source: SegmentSourceModel::FileName {
            extensions: seq!["ts"@, "js"@],
            segment_separator: None,
        },
        path_prefix: Seq::empty(),
        dynamic_open: "["@,
        dynamic_close: "]"@,
        catch_all_marker: "..."@,
        group_open: Seq::empty(),
        group_close: Seq::empty(),
        method_source: MethodSource::ExportName,
        method_exports: Map::<Seq<char>, Seq<char>>::empty(),
    }
}

/// The convention of [`RoutingConvention::flat_routes`].
pub open spec fn flat_routes_convention() -> RoutingConventionModel {
    RoutingConventionModel {
        name: "remix-flat"@,
        root_globs: seq!["app/routes"@, "src/app/routes"@],
        segment_source: SegmentSourceModel::FileName {
            extensions: seq!["ts"@, "js"@],
            segment_separator: Some("."@),
        },
        path_prefix: Seq::empty(),
        dynamic_open: "$"@,
        dynamic_close: Seq::empty(),
        catch_all_marker: Seq::empty(),
        group_open: "_"@,
        group_close: Seq::empty(),
        method_source: MethodSource::ExportName,
        method_exports: Map::<Seq<char>, Seq<char>>::empty().insert("loader"@, "GET"@).insert("action"@, "POST"@),
    }
}

impl RoutingConvention {
    /// Next.js App Router: a `route` file in a directory chain, one export per
    /// method.
    pub fn nextjs_app() -> (r: Self)
        ensures
            r.deep_view() == nextjs_app_convention(),
    {
        let mut root_globs: Vec<String> = Vec::new();
        root_globs.push("app".to_owned());
        root_globs.push("src/app".to_owned());
        assert(root_globs.deep_view() =~= nextjs_app_convention().root_globs);
        let mut terminal_files: Vec<String> = Vec::new();
        terminal_files.push("route.ts".to_owned());
        terminal_files.push("route.js".to_owned());
        terminal_files.push("route.tsx".to_owned());
        terminal_files.push("route.mts".to_owned());
        assert(terminal_files.deep_view() =~= seq!["route.ts"@, "route.js"@, "route.tsx"@, "route.mts"@]);
        let method_exports: TextMap<String> = TextMap::new();
        assert(method_exports.deep_view() =~= nextjs_app_convention().method_exports);
        RoutingConvention {
            name: "nextjs-app".to_owned(),
            root_globs,
            segment_source: SegmentSource::DirectoryChain { terminal_files },
            path_prefix: String::new(),
            dynamic_open: "[".to_owned(),
            dynamic_close: "]".to_owned(),
            catch_all_marker: "...".to_owned(),
            group_open: "(".to_owned(),
            group_close: ")".to_owned(),
            method_source: MethodSource::ExportName,
            method_exports,
        }
    }

    /// Next.js Pages Router API: the file name is the last segment and one default
    /// export serves the route.
    pub fn nextjs_pages() -> (r: Self)
        ensures
            r.deep_view() == nextjs_pages_convention(),
    {
        let mut root_globs: Vec<String> = Vec::new();
        root_globs.push("pages/api".to_owned());
        root_globs.push("src/pages/api".to_owned());
        assert(root_globs.deep_view() =~= nextjs_pages_convention().root_globs);
        let mut extensions: Vec<String> = Vec::new();
        extensions.push("ts".to_owned());
        extensions.push("js".to_owned());
        extensions.push("tsx".to_owned());
        extensions.push("jsx".to_owned());
        assert(extensions.deep_view() =~= seq!["ts"@, "js"@, "tsx"@, "jsx"@]);
        let method_exports: TextMap<String> = TextMap::new();
        assert(method_exports.deep_view() =~= nextjs_pages_convention().method_exports);
        RoutingConvention {
            name: "nextjs-pages".to_owned(),
            root_globs,
            segment_source: SegmentSource::FileName { extensions, segment_separator: None },
            path_prefix: "/api".to_owned(),
            dynamic_open: "[".to_owned(),
            dynamic_close: "]".to_owned(),
            catch_all_marker: "...".to_owned(),
            group_open: "(".to_owned(),
            group_close: ")".to_owned(),
            method_source: MethodSource::DefaultExport,
            method_exports,
        }
    }

    /// Astro endpoints: the route is the file's path under `src/pages`, and methods
    /// are named exports. Only `.ts` and `.js` files are endpoints.
    pub fn astro() -> (r: Self)
        ensures
            r.deep_view() == astro_convention(),
    {
        let mut root_globs: Vec<String> = Vec::new();
        root_globs.push("src/pages".to_owned());
        assert(root_globs.deep_view() =~= astro_convention().root_globs);
        let mut extensions: Vec<String> = Vec::new();
        extensions.push("ts".to_owned());
        extensions.push("js".to_owned());
        assert(extensions.deep_view() =~= seq!["ts"@, "js"@]);
        let method_exports: TextMap<String> = TextMap::new();
        assert(method_exports.deep_view() =~= astro_convention().method_exports);
        RoutingConvention {
            name: "astro".to_owned(),
            root_globs,
            segment_source: SegmentSource::FileName { extensions, segment_separator: None },
            path_prefix: String::new(),
            dynamic_open: "[".to_owned(),
            dynamic_close: "]".to_owned(),
            catch_all_marker: "...".to_owned(),
            group_open: String::new(),
            group_close: String::new(),
            method_source: MethodSource::ExportName,
            method_exports,
        }
    }

    /// Flat routes: the whole chain is in one dot-separated file name, dynamic
    /// segments begin with `$`, a bare `$` is the splat, a segment that begins with
    /// `_` adds no path, and the module exports a read and a write handler. `.tsx`
    /// modules are pages and no endpoints.
    pub fn flat_routes() -> (r: Self)
        ensures
            r.deep_view() == flat_routes_convention(),
    {
        let mut root_globs: Vec<String> = Vec::new();
        root_globs.push("app/routes".to_owned());
        root_globs.push("src/app/routes".to_owned());
        assert(root_globs.deep_view() =~= flat_routes_convention().root_globs);
        let mut extensions: Vec<String> = Vec::new();
        extensions.push("ts".to_owned());
        extensions.push("js".to_owned());
        assert(extensions.deep_view() =~= seq!["ts"@, "js"@]);
        let mut method_exports: TextMap<String> = TextMap::new();
        method_exports.insert("loader".to_owned(), "GET".to_owned());
        method_exports.insert("action".to_owned(), "POST".to_owned());
        assert(method_exports.deep_view() =~= flat_routes_convention().method_exports);
        RoutingConvention {
            name: "remix-flat".to_owned(),
            root_globs,
            segment_source: SegmentSource::FileName { extensions, segment_separator: Some(".".to_owned()) },
            path_prefix: String::new(),
            dynamic_open: "$".to_owned(),
            dynamic_close: String::new(),
            catch_all_marker: String::new(),
            group_open: "_".to_owned(),
            group_close: String::new(),
            method_source: MethodSource::ExportName,
            method_exports,
        }
    }
}

/// The packages whose presence means that the Next.js file router runs.
pub open spec fn is_nextjs_package(name: Seq<char>) -> bool {
    name == "next"@
}

/// The packages whose presence means that the Astro file router runs.
pub open spec fn is_astro_package(name: Seq<char>) -> bool {
    name == "astro"@
}

/// The packages whose presence means that the flat-route file router runs. The
/// scope's `router` is not among them: plain single-page apps depend on it.
pub open spec fn is_remix_package(name: Seq<char>) -> bool {
    ||| name == "remix"@
    ||| name == "@remix-run/dev"@
    ||| name == "@remix-run/serve"@
    ||| name == "@remix-run/node"@
    ||| name == "@remix-run/express"@
    ||| name == "@remix-run/cloudflare"@
    ||| name == "@remix-run/deno"@
    ||| name == "@remix-run/server-runtime"@
    ||| name == "@remix-run/react"@
}

pub fn nextjs_package(name: &str) -> (r: bool)
    ensures
        r == is_nextjs_package(name@),
{
    same(name, "next")
}

pub fn astro_package(name: &str) -> (r: bool)
    ensures
        r == is_astro_package(name@),
{
    same(name, "astro")
}

pub fn remix_package(name: &str) -> (r: bool)
    ensures
        r == is_remix_package(name@),
{
    same(name, "remix") || same(name, "@remix-run/dev") || same(name, "@remix-run/serve") || same(name, "@remix-run/node")
        || same(name, "@remix-run/express") || same(name, "@remix-run/cloudflare") || same(name, "@remix-run/deno") || same(
        name,
        "@remix-run/server-runtime",
    ) || same(name, "@remix-run/react")
}

/// Some label, lowercased, holds the word.
pub open spec fn mentions(labels: Seq<Seq<char>>, word: Seq<char>) -> bool {
    exists|i: int| 0 <= i < labels.len() && has_text(unicode_lowercase(#[trigger] labels[i]), word)
}

/// Some dependency, lowercased, is one of the packages.
pub open spec fn declares(names: Seq<Seq<char>>, package: spec_fn(Seq<char>) -> bool) -> bool {
    exists|i: int| 0 <= i < names.len() && package(unicode_lowercase(#[trigger] names[i]))
}

/// The conventions that frameworks and dependencies select. A label selects by
/// any mention, a dependency only by its exact name.
pub open spec fn selected_conventions(frameworks: Seq<Seq<char>>, dependencies: Seq<Seq<char>>) -> Seq<RoutingConventionModel> {
    let next = mentions(frameworks, "next"@) || declares(dependencies, |n: Seq<char>| is_nextjs_package(n));
    let astro = mentions(frameworks, "astro"@) || declares(dependencies, |n: Seq<char>| is_astro_package(n));
    let remix = mentions(frameworks, "remix"@) || declares(dependencies, |n: Seq<char>| is_remix_package(n));
    (if next {
        seq![nextjs_app_convention(), nextjs_pages_convention()]
    } else {
        Seq::empty()
    }) + (if astro {
        seq![astro_convention()]
    } else {
        Seq::empty()
    }) + (if remix {
        seq![flat_routes_convention()]
    } else {
        Seq::empty()
    })
}

fn any_mentions(labels: &Vec<String>, word: &str) -> (r: bool)
    ensures
        r == mentions(labels.deep_view(), word@),
{
    let ghost all = labels.deep_view();
    let mut i: usize = 0;
    while i < labels.len()
        invariant
            i <= labels.len(),
            all == labels.deep_view(),
            forall|j: int| 0 <= j < i ==> !has_text(unicode_lowercase(#[trigger] all[j]), word@),
        decreases labels.len() - i,
    {
        assert(all[i as int] == labels@[i as int]@);
        if contains(to_lowercase(labels[i].as_str()).as_str(), word) {
            return true;
        }
        i += 1;
    }
    false
}

/// Which of the file routers the dependencies declare: Next.js, Astro, Remix.
fn declared_routers(names: &Vec<String>) -> (r: (bool, bool, bool))
    ensures
        r.0 == declares(names.deep_view(), |n: Seq<char>| is_nextjs_package(n)),
        r.1 == declares(names.deep_view(), |n: Seq<char>| is_astro_package(n)),
        r.2 == declares(names.deep_view(), |n: Seq<char>| is_remix_package(n)),
{
    let ghost all = names.deep_view();
    let mut next: bool = false;
    let mut astro: bool = false;
    let mut remix: bool = false;
    let mut i: usize = 0;
    while i < names.len()
        invariant
            i <= names.len(),
            all == names.deep_view(),
            next == exists|j: int| 0 <= j < i && is_nextjs_package(unicode_lowercase(#[trigger] all[j])),
            astro == exists|j: int| 0 <= j < i && is_astro_package(unicode_lowercase(#[trigger] all[j])),
            remix == exists|j: int| 0 <= j < i && is_remix_package(unicode_lowercase(#[trigger] all[j])),
        decreases names.len() - i,
    {
        assert(all[i as int] == names@[i as int]@);
        let name = to_lowercase(names[i].as_str());
        next = next || nextjs_package(name.as_str());
        astro = astro || astro_package(name.as_str());
        remix = remix || remix_package(name.as_str());
        i += 1;
    }
    (next, astro, remix)
}

/// The bootstrap conventions of a service, selected from the frameworks that
/// detection reports and from the package names that the service declares.
pub fn builtin_conventions(frameworks: &Vec<String>, dependency_names: &Vec<String>) -> (out: Vec<RoutingConvention>)
    ensures
        out.deep_view() == selected_conventions(frameworks.deep_view(), dependency_names.deep_view()),
{
    let (next, astro, remix) = declared_routers(dependency_names);
    let mut out: Vec<RoutingConvention> = Vec::new();
    if any_mentions(frameworks, "next") || next {
        out.push(RoutingConvention::nextjs_app());
        out.push(RoutingConvention::nextjs_pages());
    }
    if any_mentions(frameworks, "astro") || astro {
        out.push(RoutingConvention::astro());
    }
    if any_mentions(frameworks, "remix") || remix {
        out.push(RoutingConvention::flat_routes());
    }
    assert(out.deep_view() =~= selected_conventions(frameworks.deep_view(), dependency_names.deep_view()));
    out
}


// ---------------------------------------------------------------------------
// Routes
// ---------------------------------------------------------------------------

/// What follows a root directory in a path under it. A root of nothing holds
/// every path.
pub open spec fn behind_root(rel: Seq<char>, root: Seq<char>) -> Option<Seq<char>> {
    let bare = trimmed_of(root, '/');
    if bare.len() == 0 {
        Some(rel)
    } else {
        match after_prefix(rel, bare) {
            Some(rest) => if rest.len() == 0 {
                Some(rest)
            } else {
                after_prefix(rest, "/"@)
            },
            None => None,
        }
    }
}

/// What follows the longest root that holds the path: the shortest remainder.
pub open spec fn behind_longest_root(rel: Seq<char>, roots: Seq<Seq<char>>) -> Option<Seq<char>>
    decreases roots.len(),
{
    if roots.len() == 0 {
        None
    } else {
        match (behind_longest_root(rel, roots.drop_last()), behind_root(rel, roots.last())) {
            (Some(a), Some(b)) => Some(if b.len() < a.len() {
                b
            } else {
                a
            }),
            (None, here) => here,
            (best, None) => best,
        }
    }
}

/// A param name without the space around it and without dots.
pub open spec fn param_name(name: Seq<char>) -> Seq<char> {
    with_char_replaced(trimmed(name), '.', Seq::empty())
}

/// A raw segment in its route form; a group segment has none.
pub open spec fn route_segment(c: RoutingConventionModel, raw: Seq<char>) -> Option<Seq<char>> {
    if c.group_open.len() > 0 && has_prefix(raw, c.group_open) && has_suffix(raw, c.group_close) {
        None
    } else if c.dynamic_close.len() > 0 && has_prefix(raw, c.dynamic_open + c.dynamic_open) && has_suffix(
        raw,
        c.dynamic_close + c.dynamic_close,
    ) {
        Some("**"@)
    } else if c.dynamic_open.len() > 0 && has_prefix(raw, c.dynamic_open) && has_suffix(raw, c.dynamic_close) && raw.len()
        >= c.dynamic_open.len() + c.dynamic_close.len() {
        let inner = raw.subrange(c.dynamic_open.len() as int, raw.len() - c.dynamic_close.len());
        let param = param_name(inner);
        if (c.catch_all_marker.len() > 0 && has_prefix(inner, c.catch_all_marker)) || param.len() == 0 {
            Some("**"@)
        } else {
            Some(":"@ + param)
        }
    } else {
        Some(raw)
    }
}

/// The segments of a file name's stem.
pub open spec fn stem_segments(stem: Seq<char>, separator: Option<Seq<char>>) -> Seq<Seq<char>> {
    match separator {
        Some(sep) => if sep.len() > 0 {
            nonempty(split_at_text(stem, sep))
        } else {
            seq![stem]
        },
        None => seq![stem],
    }
}

/// The segments without a trailing `index`, which collapses to its parent.
pub open spec fn without_index(segments: Seq<Seq<char>>) -> Seq<Seq<char>> {
    if segments.len() > 0 && segments.last() == "index"@ {
        segments.drop_last()
    } else {
        segments
    }
}

/// The raw segments of a path under a root, where it is a route file.
pub open spec fn segments_of(source: SegmentSourceModel, rest: Seq<char>) -> Option<Seq<Seq<char>>> {
    let components = nonempty(split_at_char(rest, '/'));
    if components.len() == 0 {
        None
    } else {
        let file = components.last();
        let dirs = components.drop_last();
        match source {
            SegmentSourceModel::DirectoryChain { terminal_files } => if terminal_files.contains(file) {
                Some(dirs)
            } else {
                None
            },
            SegmentSourceModel::FileName { extensions, segment_separator } => if has_prefix(file, "_"@) {
                None
            } else {
                match last_cut(file, '.') {
                    Some((stem, ext)) => if extensions.contains(ext) {
                        Some(dirs + without_index(stem_segments(stem, segment_separator)))
                    } else {
                        None
                    },
                    None => None,
                }
            },
        }
    }
}

/// The path that segments make: each in its route form behind a slash.
pub open spec fn route_path(c: RoutingConventionModel, segments: Seq<Seq<char>>) -> Seq<char>
    decreases segments.len(),
{
    if segments.len() == 0 {
        Seq::empty()
    } else {
        let before = route_path(c, segments.drop_last());
        match route_segment(c, segments.last()) {
            Some(segment) => before + "/"@ + segment,
            None => before,
        }
    }
}

/// A path with forward slashes, without leading `./` and slashes.
pub open spec fn normalized_rel(rel: Seq<char>) -> Seq<char> {
    trimmed_start_of(trimmed_start_text(with_char_replaced(rel, '\\', "/"@), "./"@), '/')
}

/// The route that one convention derives from a normalized path.
pub open spec fn route_under(c: RoutingConventionModel, rel: Seq<char>) -> Option<DerivedRouteModel> {
    match behind_longest_root(rel, c.root_globs) {
        None => None,
        Some(rest) => match segments_of(c.segment_source, rest) {
            None => None,
            Some(segments) => {
                let full = trimmed_end_of(c.path_prefix, '/') + route_path(c, segments);
                Some(
                    DerivedRouteModel {
                        path: if full.len() == 0 {
                            "/"@
                        } else {
                            full
                        },
                        method_source: c.method_source,
                        convention: c.name,
                        method_exports: c.method_exports,
                    },
                )
            },
        },
    }
}

/// The route that the first convention to claim a path derives from it.
pub open spec fn first_route(conventions: Seq<RoutingConventionModel>, rel: Seq<char>) -> Option<DerivedRouteModel>
    decreases conventions.len(),
{
    if conventions.len() == 0 {
        None
    } else {
        match first_route(conventions.drop_last(), rel) {
            Some(route) => Some(route),
            None => route_under(conventions.last(), rel),
        }
    }
}

fn rest_behind(rel: &str, root: &str) -> (r: Option<String>)
    ensures
        r.deep_view() == behind_root(rel@, root@),
{
    let bare = trim_char(root, '/');
    if bare.as_str().is_empty() {
        return Some(rel.to_owned());
    }
    match strip_prefix(rel, bare.as_str()) {
        Some(rest) => if rest.as_str().is_empty() {
            Some(rest)
        } else {
            strip_prefix(rest.as_str(), "/")
        },
        None => None,
    }
}

fn sanitize_param(name: &str) -> (r: String)
    ensures
        r@ == param_name(name@),
{
    let r = replace_char(trim(name).as_str(), '.', "");
    proof {
        reveal_strlit("");
        assert(""@ =~= Seq::<char>::empty());
    }
    r
}

fn stem_pieces(stem: &String, separator: &Option<String>) -> (r: Vec<String>)
    ensures
        r.deep_view() == stem_segments(stem@, separator.deep_view()),
{
    match separator {
        Some(sep) => if !sep.as_str().is_empty() {
            keep_nonempty(&split_text(stem.as_str(), sep.as_str()))
        } else {
            one_text(stem.clone())
        },
        None => one_text(stem.clone()),
    }
}

impl RoutingConvention {
    /// What follows the longest root of the convention that holds the path.
    pub fn strip_root(&self, rel: &str) -> (r: Option<String>)
        ensures
            r.deep_view() == behind_longest_root(rel@, self.root_globs.deep_view()),
    {
        let roots = &self.root_globs;
        let ghost all = self.root_globs.deep_view();
        let mut best: Option<String> = None;
        let mut i: usize = 0;
        while i < roots.len()
            invariant
                i <= roots.len(),
                roots == self.root_globs,
                all == self.root_globs.deep_view(),
                best.deep_view() == behind_longest_root(rel@, all.take(i as int)),
            decreases roots.len() - i,
        {
            assert(all.take(i + 1).drop_last() == all.take(i as int));
            assert(all.take(i + 1).last() == roots@[i as int]@);
            let here = rest_behind(rel, roots[i].as_str());
            best = match (best, here) {
                (Some(a), Some(b)) => {
                    if b.as_str().unicode_len() < a.as_str().unicode_len() {
                        Some(b)
                    } else {
                        Some(a)
                    }
                },
                (None, rest) => rest,
                (rest, None) => rest,
            };
            i += 1;
        }
        assert(all.take(all.len() as int) == all);
        best
    }

    /// A raw directory or file segment in its route form; a group segment adds
    /// nothing to the path.
    pub fn transform_segment(&self, raw: &str) -> (r: Option<String>)
        ensures
            r.deep_view() == route_segment(self.deep_view(), raw@),
    {
        if !self.group_open.as_str().is_empty() && starts_with(raw, self.group_open.as_str()) && ends_with(
            raw,
            self.group_close.as_str(),
        ) {
            return None;
        }
        let double_open = concat(self.dynamic_open.as_str(), self.dynamic_open.as_str());
        let double_close = concat(self.dynamic_close.as_str(), self.dynamic_close.as_str());
        if !self.dynamic_close.as_str().is_empty() && starts_with(raw, double_open.as_str()) && ends_with(
            raw,
            double_close.as_str(),
        ) {
            return Some("**".to_owned());
        }
        let v = chars_of(raw);
        let open = chars_of(self.dynamic_open.as_str());
        let close = chars_of(self.dynamic_close.as_str());
        if open.len() > 0 && starts_with(raw, self.dynamic_open.as_str()) && ends_with(raw, self.dynamic_close.as_str())
            && close.len() <= v.len() && open.len() <= v.len() - close.len() {
            let inner = text_of(&v, open.len(), v.len() - close.len());
            if !self.catch_all_marker.as_str().is_empty() && starts_with(inner.as_str(), self.catch_all_marker.as_str()) {
                return Some("**".to_owned());
            }
            let param = sanitize_param(inner.as_str());
            if param.as_str().is_empty() {
                return Some("**".to_owned());
            }
            return Some(concat(":", param.as_str()));
        }
        Some(raw.to_owned())
    }

    /// The raw segments of a path under a root, or nothing where the file is
    /// not a route file of this convention.
    pub fn raw_segments(&self, rel_after_root: &str) -> (r: Option<Vec<String>>)
        ensures
            r.deep_view() == segments_of(self.segment_source.deep_view(), rel_after_root@),
    {
        let mut components = keep_nonempty(&split_char(rel_after_root, '/'));
        let ghost all = components.deep_view();
        let file = match components.pop() {
            Some(file) => file,
            None => {
                return None;
            },
        };
        assert(components.deep_view() =~= all.drop_last());
        assert(file@ == all.last());
        match &self.segment_source {
            SegmentSource::DirectoryChain { terminal_files } => {
                if list_contains(terminal_files, file.as_str()) {
                    Some(components)
                } else {
                    None
                }
            },
            SegmentSource::FileName { extensions, segment_separator } => {
                if starts_with(file.as_str(), "_") {
                    return None;
                }
                match rsplit_once(file.as_str(), '.') {
                    Some((stem, ext)) => {
                        if !list_contains(extensions, ext.as_str()) {
                            return None;
                        }
                        let mut pieces = stem_pieces(&stem, segment_separator);
                        let ghost stems = pieces.deep_view();
                        let n: usize = pieces.len();
                        if n > 0 && same(pieces[n - 1].as_str(), "index") {
                            let _ = pieces.pop();
                            assert(pieces.deep_view() =~= stems.drop_last());
                        }
                        let ghost dirs = components.deep_view();
                        let ghost tail = pieces.deep_view();
                        components.append(&mut pieces);
                        assert(components.deep_view() =~= dirs + tail);
                        Some(components)
                    },
                    None => None,
                }
            },
        }
    }

    fn path_of(&self, segments: &Vec<String>) -> (path: String)
        ensures
            path@ == route_path(self.deep_view(), segments.deep_view()),
    {
        let ghost all = segments.deep_view();
        let mut path: String = String::new();
        let mut i: usize = 0;
        while i < segments.len()
            invariant
                i <= segments.len(),
                all == segments.deep_view(),
                path@ == route_path(self.deep_view(), all.take(i as int)),
            decreases segments.len() - i,
        {
            assert(all.take(i + 1).drop_last() == all.take(i as int));
            assert(all.take(i + 1).last() == segments@[i as int]@);
            match self.transform_segment(segments[i].as_str()) {
                Some(segment) => {
                    path.append("/");
                    path.append(segment.as_str());
                },
                None => {},
            }
            i += 1;
        }
        assert(all.take(all.len() as int) == all);
        path
    }

    fn derive(&self, rel: &str) -> (r: Option<DerivedRoute>)
        ensures
            r.deep_view() == route_under(self.deep_view(), rel@),
    {
        let rest = match self.strip_root(rel) {
            Some(rest) => rest,
            None => {
                return None;
            },
        };
        let segments = match self.raw_segments(rest.as_str()) {
            Some(segments) => segments,
            None => {
                return None;
            },
        };
        let path = self.path_of(&segments);
        let mut full = concat(trim_end_char(self.path_prefix.as_str(), '/').as_str(), path.as_str());
        if full.as_str().is_empty() {
            full = "/".to_owned();
        }
        Some(
            DerivedRoute {
                path: full,
                method_source: self.method_source,
                convention: self.name.clone(),
                method_exports: self.method_exports.duplicate(),
            },
        )
    }
}

fn normalize_rel(rel: &str) -> (r: String)
    ensures
        r@ == normalized_rel(rel@),
{
    let slashes = replace_char(rel, '\\', "/");
    proof {
        reveal_strlit("./");
    }
    let from_here = trim_start_text(slashes.as_str(), "./");
    trim_start_char(from_here.as_str(), '/')
}

/// Derives a route from a repository-relative file path with the first
/// convention that claims it, or nothing where none does.
pub fn derive_route(rel_path: &str, conventions: &Vec<RoutingConvention>) -> (r: Option<DerivedRoute>)
    ensures
        r.deep_view() == first_route(conventions.deep_view(), normalized_rel(rel_path@)),
{
    let rel = normalize_rel(rel_path);
    let ghost all = conventions.deep_view();
    let mut i: usize = 0;
    while i < conventions.len()
        invariant
            i <= conventions.len(),
            all == conventions.deep_view(),
            rel@ == normalized_rel(rel_path@),
            first_route(all.take(i as int), rel@) is None,
        decreases conventions.len() - i,
    {
        assert(all.take(i + 1).drop_last() == all.take(i as int));
        assert(all.take(i + 1).last() == conventions@[i as int].deep_view());
        match conventions[i].derive(rel.as_str()) {
            Some(route) => {
                proof {
                    first_claim_stands(all, rel@, i + 1);
                }
                return Some(route);
            },
            None => {},
        }
        i += 1;
    }
    assert(all.take(all.len() as int) == all);
    None
}

/// A route that the first conventions derive is the route of all of them: a
/// convention further on never changes it.
pub proof fn first_claim_stands(conventions: Seq<RoutingConventionModel>, rel: Seq<char>, n: int)
    requires
        0 <= n <= conventions.len(),
        first_route(conventions.take(n), rel) is Some,
    ensures
        first_route(conventions, rel) == first_route(conventions.take(n), rel),
    decreases conventions.len(),
{
    if n == conventions.len() {
        assert(conventions.take(n) =~= conventions);
    } else {
        assert(conventions.drop_last().take(n) =~= conventions.take(n));
        first_claim_stands(conventions.drop_last(), rel, n);
    }
}

/// The longest root wins: what is left of a path is left by some root that
/// holds it, and no root that holds it leaves less.
pub proof fn longest_root_wins(rel: Seq<char>, roots: Seq<Seq<char>>)
    ensures
        match behind_longest_root(rel, roots) {
            Some(rest) => {
                &&& exists|i: int| 0 <= i < roots.len() && behind_root(rel, #[trigger] roots[i]) == Some(rest)
                &&& forall|i: int|
                    0 <= i < roots.len() ==> (behind_root(rel, #[trigger] roots[i]) matches Some(other) ==> rest.len()
                        <= other.len())
            },
            None => forall|i: int| 0 <= i < roots.len() ==> behind_root(rel, #[trigger] roots[i]) is None,
        },
    decreases roots.len(),
{
    if roots.len() > 0 {
        let init = roots.drop_last();
        longest_root_wins(rel, init);
        assert(forall|i: int| 0 <= i < init.len() ==> init[i] == roots[i]);
        assert(roots[roots.len() - 1] == roots.last());
        if let Some(before) = behind_longest_root(rel, init) {
            let k = choose|k: int| 0 <= k < init.len() && behind_root(rel, #[trigger] init[k]) == Some(before);
            assert(behind_root(rel, roots[k]) == Some(before));
            assert forall|i: int| 0 <= i < roots.len() implies (behind_root(rel, #[trigger] roots[i]) matches Some(other)
                ==> behind_longest_root(rel, roots)->0.len() <= other.len()) by {
                if i < init.len() {
                    assert(init[i] == roots[i]);
                }
            }
        } else {
            assert forall|i: int| 0 <= i < init.len() implies behind_root(rel, #[trigger] roots[i]) is None by {
                assert(init[i] == roots[i]);
            }
        }
    }
}

/// A derived path begins with a slash, provided the convention's prefix is
/// empty or begins with one.
pub proof fn derived_paths_are_rooted(c: RoutingConventionModel, rel: Seq<char>)
    requires
        trimmed_end_of(c.path_prefix, '/').len() > 0 ==> trimmed_end_of(c.path_prefix, '/')[0] == '/',
    ensures
        route_under(c, rel) matches Some(route) ==> route.path.len() > 0 && route.path[0] == '/',
{
    reveal_strlit("/");
    if let Some(rest) = behind_longest_root(rel, c.root_globs) {
        if let Some(segments) = segments_of(c.segment_source, rest) {
            route_path_is_rooted(c, segments);
        }
    }
}

proof fn route_path_is_rooted(c: RoutingConventionModel, segments: Seq<Seq<char>>)
    ensures
        route_path(c, segments).len() > 0 ==> route_path(c, segments)[0] == '/',
    decreases segments.len(),
{
    reveal_strlit("/");
    if segments.len() > 0 {
        route_path_is_rooted(c, segments.drop_last());
    }
}

} // verus!
