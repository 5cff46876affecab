//! The calls of a workspace through external packages, and the share of them
//! that a service ships.

use crate::duplicate::Duplicate;
use crate::external_call_candidates::collect::{collect_facts, facts_of, Target, TargetMap, TargetModel};
use crate::external_call_candidates::facts::{
    chain_text, no_facts, CallSiteModel, FileFacts, FileFactsModel,
};
use crate::external_call_candidates::resolution::{
    chain_package, resolve_ownership, resolve_package, rounds, FileSlots, FileSlotsModel, MAX_FIXPOINT_ROUNDS,
};
use crate::external_call_candidates::{cap, listed, CallMechanism, ExternalCallCandidate, ExternalCallCandidateModel};
use crate::ordered::{map_of, map_of_next, TextMap};
use crate::parsing::{file_says, is_readable, parse_text, SourceText};
use crate::paths::{
    equal_paths, file_position, find_file, make_relative, order_paths, ordered_paths, relative_to, same_path,
};
use crate::sorting::{by_rank_once, place_once};
use crate::syntax::{module_nodes, nodes_of, refer_to, Module, ModuleItem, Node};
use crate::text::copy_option;
use vstd::prelude::*;

verus! {

/// What a workspace says of an import specifier.
#[derive(Debug, Clone, PartialEq, Eq)]
pub enum Resolution {
    External { package: String, subpath: Option<String> },
    Internal { path: String },
    Unresolved,
}

/// What a [`Resolution`] holds.
pub enum ResolutionModel {
    External { package: Seq<char>, subpath: Option<Seq<char>> },
    Internal { path: Seq<char> },
    Unresolved,
}

impl DeepView for Resolution {
    type V = ResolutionModel;

    open spec fn deep_view(&self) -> ResolutionModel {
        match self {
            Resolution::External { package, subpath } => ResolutionModel::External {
                package: package@,
                subpath: subpath.deep_view(),
            },
            Resolution::Internal { path } => ResolutionModel::Internal {
                path: path@,
            },
            Resolution::Unresolved => ResolutionModel::Unresolved,
        }
    }
}

impl Duplicate for Resolution {
    fn duplicate(&self) -> (r: Self) {
        match self {
            Resolution::External { package, subpath } => Resolution::External {
                package: package.clone(),
                subpath: copy_option(subpath),
            },
            Resolution::Internal { path } => Resolution::Internal {
                path: path.clone(),
            },
            Resolution::Unresolved => Resolution::Unresolved,
        }
    }
}

/// A source file of the workspace: where it is, its syntax where it can be
/// read, and what the specifiers in it are resolved to.
pub struct ParsedFile {
    pub path: String,
    pub module: Option<Module>,
    pub resolutions: TextMap<Resolution>,
}

/// A source file of the workspace with its text, where it could be read, and
/// what the specifiers in it are resolved to.
pub struct WorkspaceText {
    pub file: SourceText,
    pub resolutions: TextMap<Resolution>,
}

/// The files of a workspace with the syntax of their texts.
pub open spec fn are_read(texts: Seq<WorkspaceText>, parsed: Seq<ParsedFile>) -> bool {
    parsed.len() == texts.len() && forall|i: int| 0 <= i < texts.len() ==> is_read(texts[i], #[trigger] parsed[i])
}

pub open spec fn is_read(text: WorkspaceText, file: ParsedFile) -> bool {
    &&& file.path@ == text.file.path@
    &&& file_says(text.file, file.module)
    &&& file.resolutions == text.resolutions
}

/// The specifiers that the imports and exports of a module name.
pub open spec fn named_specifiers(items: Seq<ModuleItem>) -> Seq<Seq<char>>
    decreases items.len(),
{
    if items.len() == 0 {
        Seq::empty()
    } else {
        let before = named_specifiers(items.drop_last());
        match items.last() {
            ModuleItem::Import { source, .. } => before.push(source@),
            ModuleItem::ExportAll { source, .. } => before.push(source@),
            ModuleItem::ExportNamed { source: Some(source), .. } => before.push(source@),
            _ => before,
        }
    }
}

/// The specifier of a dynamic import, where it is written out.
pub open spec fn imported_at(node: Node) -> Option<Seq<char>> {
    match node {
        Node::ImportCall { args } => if args@.len() > 0 {
            match args@[0] {
                Node::Text(specifier) => Some(specifier@),
                Node::Spread(inner) => match *inner {
                    Node::Text(specifier) => Some(specifier@),
                    _ => None,
                },
                _ => None,
            }
        } else {
            None
        },
        _ => None,
    }
}

pub open spec fn imported_specifiers(nodes: Seq<Node>) -> Seq<Seq<char>>
    decreases nodes.len(),
{
    if nodes.len() == 0 {
        Seq::empty()
    } else {
        let before = imported_specifiers(nodes.drop_last());
        match imported_at(nodes.last()) {
            Some(specifier) => before.push(specifier),
            None => before,
        }
    }
}

/// The specifiers in a module: those of its imports and exports, then those of
/// its dynamic imports.
pub open spec fn specifiers_of(module: Module) -> Seq<Seq<char>> {
    named_specifiers(module.items@) + imported_specifiers(module_nodes(module))
}

fn find_imported(node: &Node) -> (r: Option<String>)
    ensures
        r.deep_view() == imported_at(*node),
{
    match node {
        Node::ImportCall { args } => if args.len() > 0 {
            match &args[0] {
                Node::Text(specifier) => Some(specifier.clone()),
                Node::Spread(inner) => match &**inner {
                    Node::Text(specifier) => Some(specifier.clone()),
                    _ => None,
                },
                _ => None,
            }
        } else {
            None
        },
        _ => None,
    }
}

pub fn specifiers(module: &Module) -> (r: Vec<String>)
    ensures
        r.deep_view() == specifiers_of(*module),
{
    let ghost items = module.items@;
    let ghost all = module_nodes(*module);
    let mut r: Vec<String> = Vec::new();
    let mut i: usize = 0;
    assert(r.deep_view() =~= named_specifiers(items.take(0)));
    while i < module.items.len()
        invariant
            i <= module.items.len(),
            items == module.items@,
            r.deep_view() == named_specifiers(items.take(i as int)),
        decreases module.items.len() - i,
    {
        let ghost before = r.deep_view();
        assert(items.take(i + 1).drop_last() =~= items.take(i as int));
        assert(items.take(i + 1).last() == items[i as int]);
        match &module.items[i] {
            ModuleItem::Import { source, .. } => {
                r.push(source.clone());
                assert(r.deep_view() =~= before.push(source@));
            },
            ModuleItem::ExportAll { source, .. } => {
                r.push(source.clone());
                assert(r.deep_view() =~= before.push(source@));
            },
            ModuleItem::ExportNamed { source: Some(source), .. } => {
                r.push(source.clone());
                assert(r.deep_view() =~= before.push(source@));
            },
            _ => {},
        }
        i += 1;
    }
    assert(items.take(items.len() as int) =~= items);
    let ghost named = r.deep_view();
    let nodes = nodes_of(module);
    let mut k: usize = 0;
    assert(named + imported_specifiers(all.take(0)) =~= named);
    while k < nodes.len()
        invariant
            k <= nodes.len(),
            refer_to(nodes@, all),
            r.deep_view() == named + imported_specifiers(all.take(k as int)),
        decreases nodes.len() - k,
    {
        let ghost before = r.deep_view();
        assert(all.take(k + 1).drop_last() =~= all.take(k as int));
        assert(all.take(k + 1).last() == *nodes@[k as int]);
        match find_imported(nodes[k]) {
            Some(specifier) => {
                r.push(specifier);
                assert(r.deep_view() =~= before.push(specifier@));
                assert(r.deep_view() =~= named + imported_specifiers(all.take(k + 1)));
            },
            None => {},
        }
        k += 1;
    }
    assert(all.take(all.len() as int) =~= all);
    r
}

/// The files of a workspace: those that were found and those of the service, in
/// order and each once.
pub open spec fn workspace_files(found: Seq<Seq<char>>, service_files: Seq<Seq<char>>) -> Seq<Seq<char>> {
    ordered_paths(found + service_files)
}

pub fn list_files(found: &Vec<String>, service_files: &Vec<String>) -> (r: Vec<String>)
    ensures
        r.deep_view() == workspace_files(found.deep_view(), service_files.deep_view()),
{
    let ghost all = found.deep_view() + service_files.deep_view();
    let mut list: Vec<String> = Vec::new();
    let mut i: usize = 0;
    assert(list.deep_view() =~= all.take(0));
    while i < found.len()
        invariant
            i <= found.len(),
            all == found.deep_view() + service_files.deep_view(),
            list.deep_view() == all.take(i as int),
        decreases found.len() - i,
    {
        let ghost before = list.deep_view();
        list.push(found[i].clone());
        assert(all[i as int] == found@[i as int]@);
        assert(list.deep_view() =~= before.push(found@[i as int]@));
        assert(all.take(i + 1) =~= all.take(i as int).push(all[i as int]));
        i += 1;
    }
    let mut k: usize = 0;
    while k < service_files.len()
        invariant
            k <= service_files.len(),
            all == found.deep_view() + service_files.deep_view(),
            list.deep_view() == all.take(found.len() + k),
        decreases service_files.len() - k,
    {
        let ghost before = list.deep_view();
        let ghost n = found.len() + k;
        list.push(service_files[k].clone());
        assert(all[n] == service_files@[k as int]@);
        assert(list.deep_view() =~= before.push(service_files@[k as int]@));
        assert(all.take(n + 1) =~= all.take(n).push(all[n]));
        k += 1;
    }
    assert(all.take(all.len() as int) =~= all);
    order_paths(&list)
}

/// What a resolution names among the files of the workspace. A file that is not
/// among them is nothing.
pub open spec fn target_at(resolution: ResolutionModel, files: Seq<Seq<char>>) -> Option<TargetModel> {
    match resolution {
        ResolutionModel::External { package, subpath } => Some(TargetModel::External { package, subpath }),
        ResolutionModel::Internal { path } => match file_position(files, path) {
            Some(file) => Some(TargetModel::Internal { file }),
            None => None,
        },
        ResolutionModel::Unresolved => None,
    }
}

fn resolve(resolution: &Resolution, files: &Vec<String>) -> (r: Option<Target>)
    ensures
        r.deep_view() == target_at(resolution.deep_view(), files.deep_view()),
{
    match resolution {
        Resolution::External { package, subpath } => Some(
            Target::External { package: package.clone(), subpath: copy_option(subpath) },
        ),
        Resolution::Internal { path } => match find_file(files, path.as_str()) {
            Some(file) => Some(Target::Internal { file }),
            None => None,
        },
        Resolution::Unresolved => None,
    }
}

pub open spec fn targets_of(resolutions: Map<Seq<char>, ResolutionModel>, files: Seq<Seq<char>>) -> Map<
    Seq<char>,
    TargetModel,
> {
    Map::new(
        |specifier: Seq<char>|
            resolutions.contains_key(specifier) && target_at(resolutions[specifier], files) is Some,
        |specifier: Seq<char>| target_at(resolutions[specifier], files)->0,
    )
}

spec fn first_resolutions(entries: Seq<(String, Resolution)>, n: int) -> Map<Seq<char>, ResolutionModel> {
    map_of(entries.take(n)).map_values(|v: Resolution| v.deep_view())
}

fn resolve_all(resolutions: &TextMap<Resolution>, files: &Vec<String>) -> (r: TargetMap)
    ensures
        r.deep_view() == targets_of(resolutions.deep_view(), files.deep_view()),
{
    let ghost entries = resolutions.listing();
    let ghost listed = files.deep_view();
    let n: usize = resolutions.len();
    let mut targets: TargetMap = TextMap::new();
    let mut i: usize = 0;
    assert(targets.deep_view() =~= targets_of(first_resolutions(entries, 0), listed));
    while i < n
        invariant
            i <= n,
            n == entries.len(),
            entries == resolutions.listing(),
            listed == files.deep_view(),
            targets.deep_view() == targets_of(first_resolutions(entries, i as int), listed),
        decreases n - i,
    {
        let ghost before = targets.deep_view();
        let (specifier, resolution) = resolutions.entry(i);
        proof {
            map_of_next(entries, i as int);
            assert(first_resolutions(entries, i + 1) =~= first_resolutions(entries, i as int).insert(
                specifier@,
                resolution.deep_view(),
            ));
        }
        match resolve(resolution, files) {
            Some(target) => {
                targets.insert(specifier.clone(), target);
                assert(targets.deep_view() =~= before.insert(specifier@, target.deep_view()));
            },
            None => {},
        }
        assert(targets.deep_view() =~= targets_of(first_resolutions(entries, i + 1), listed));
        i += 1;
    }
    assert(entries.take(n as int) =~= entries);
    assert(first_resolutions(entries, n as int) =~= resolutions.deep_view());
    targets
}

/// Every source file of a workspace and what is said in it.
pub struct Workspace {
    pub files: Vec<String>,
    pub facts: Vec<FileFacts>,
}

/// The files as they read from the repository root.
pub open spec fn relative_files(parsed: Seq<ParsedFile>, repo_root: Seq<char>) -> Seq<Seq<char>> {
    parsed.map_values(|file: ParsedFile| relative_to(file.path@, repo_root))
}

/// What is said in a file. A file that can not be read says nothing.
pub open spec fn said_in(file: ParsedFile, files: Seq<Seq<char>>) -> FileFactsModel {
    match file.module {
        Some(module) => facts_of(module, targets_of(file.resolutions.deep_view(), files)),
        None => no_facts(),
    }
}

pub open spec fn all_said(parsed: Seq<ParsedFile>, repo_root: Seq<char>) -> Seq<FileFactsModel> {
    parsed.map_values(|file: ParsedFile| said_in(file, relative_files(parsed, repo_root)))
}

impl Workspace {
    pub open spec fn well_formed(&self) -> bool {
        self.files@.len() == self.facts@.len()
    }

    pub fn parse(parsed: &Vec<ParsedFile>, repo_root: &str) -> (r: Self)
        ensures
            r.well_formed(),
            r.files.deep_view() == relative_files(parsed@, repo_root@),
            r.facts.deep_view() == all_said(parsed@, repo_root@),
    {
        let ghost paths = relative_files(parsed@, repo_root@);
        let ghost said = all_said(parsed@, repo_root@);
        let mut files: Vec<String> = Vec::new();
        let mut i: usize = 0;
        assert(files.deep_view() =~= paths.take(0));
        while i < parsed.len()
            invariant
                i <= parsed.len(),
                paths == relative_files(parsed@, repo_root@),
                files.deep_view() == paths.take(i as int),
            decreases parsed.len() - i,
        {
            let ghost before = files.deep_view();
            let file = make_relative(parsed[i].path.as_str(), repo_root);
            files.push(file);
            assert(paths[i as int] == file@);
            assert(files.deep_view() =~= before.push(file@));
            assert(paths.take(i + 1) =~= paths.take(i as int).push(paths[i as int]));
            i += 1;
        }
        assert(paths.take(paths.len() as int) =~= paths);
        let mut facts: Vec<FileFacts> = Vec::new();
        let mut k: usize = 0;
        assert(facts.deep_view() =~= said.take(0));
        while k < parsed.len()
            invariant
                k <= parsed.len(),
                paths == relative_files(parsed@, repo_root@),
                said == all_said(parsed@, repo_root@),
                files.deep_view() == paths,
                facts.deep_view() == said.take(k as int),
            decreases parsed.len() - k,
        {
            let ghost before = facts.deep_view();
            let fact = match &parsed[k].module {
                Some(module) => collect_facts(module, &resolve_all(&parsed[k].resolutions, &files)),
                None => FileFacts::default(),
            };
            facts.push(fact);
            assert(said[k as int] == said_in(parsed@[k as int], paths));
            assert(facts.deep_view() =~= before.push(fact.deep_view()));
            assert(said.take(k + 1) =~= said.take(k as int).push(said[k as int]));
            k += 1;
        }
        assert(said.take(said.len() as int) =~= said);
        assert(files.deep_view().len() == files@.len());
        assert(facts.deep_view().len() == facts@.len());
        Workspace { files, facts }
    }

    /// The workspace of files that are parsed here.
    pub fn parse_texts(texts: &Vec<WorkspaceText>, repo_root: &str) -> (r: Self)
        requires
            forall|i: int| 0 <= i < texts@.len() ==> is_readable((#[trigger] texts@[i]).file),
        ensures
            r.well_formed(),
            exists|parsed: Seq<ParsedFile>| #[trigger]
                are_read(texts@, parsed) && r.files.deep_view() == relative_files(parsed, repo_root@)
                    && r.facts.deep_view() == all_said(parsed, repo_root@),
    {
        let ghost paths = texts@.map_values(|text: WorkspaceText| relative_to(text.file.path@, repo_root@));
        let mut files: Vec<String> = Vec::new();
        let mut i: usize = 0;
        assert(files.deep_view() =~= paths.take(0));
        while i < texts.len()
            invariant
                i <= texts.len(),
                paths == texts@.map_values(|text: WorkspaceText| relative_to(text.file.path@, repo_root@)),
                files.deep_view() == paths.take(i as int),
            decreases texts.len() - i,
        {
            let ghost before = files.deep_view();
            let file = make_relative(texts[i].file.path.as_str(), repo_root);
            files.push(file);
            assert(paths[i as int] == file@);
            assert(files.deep_view() =~= before.push(file@));
            assert(paths.take(i + 1) =~= paths.take(i as int).push(paths[i as int]));
            i += 1;
        }
        assert(paths.take(paths.len() as int) =~= paths);
        let ghost mut parsed: Seq<ParsedFile> = Seq::empty();
        let mut facts: Vec<FileFacts> = Vec::new();
        let mut k: usize = 0;
        while k < texts.len()
            invariant
                k <= texts.len(),
                files.deep_view() == paths,
                parsed.len() == k,
                facts@.len() == k,
                forall|n: int| 0 <= n < texts@.len() ==> is_readable((#[trigger] texts@[n]).file),
                forall|n: int| 0 <= n < k ==> is_read(texts@[n], #[trigger] parsed[n]),
                forall|n: int| 0 <= n < k ==> (#[trigger] facts@[n]).deep_view() == said_in(parsed[n], paths),
            decreases texts.len() - k,
        {
            assert(is_readable(texts@[k as int].file));
            let module = parse_text(&texts[k].file);
            let fact = match &module {
                Some(module) => collect_facts(module, &resolve_all(&texts[k].resolutions, &files)),
                None => FileFacts::default(),
            };
            proof {
                let file = ParsedFile { path: texts@[k as int].file.path, module, resolutions: texts@[k as int].resolutions };
                assert(is_read(texts@[k as int], file));
                assert(fact.deep_view() == said_in(file, paths));
                parsed = parsed.push(file);
            }
            facts.push(fact);
            k += 1;
        }
        proof {
            assert(are_read(texts@, parsed));
            assert forall|n: int| 0 <= n < paths.len() implies paths[n] == relative_files(parsed, repo_root@)[n] by {
                assert(is_read(texts@[n], parsed[n]));
            }
            assert(paths =~= relative_files(parsed, repo_root@));
            assert(facts.deep_view() =~= all_said(parsed, repo_root@));
            assert(files.deep_view().len() == files@.len());
        }
        Workspace { files, facts }
    }
}

// ---------------------------------------------------------------------------
// Reachability
// ---------------------------------------------------------------------------

/// Is a file one of a service's own?
pub open spec fn is_own(files: Seq<Seq<char>>, service_files: Seq<Seq<char>>, repo_root: Seq<char>, i: int) -> bool {
    exists|k: int|
        0 <= k < service_files.len() && file_position(files, relative_to(#[trigger] service_files[k], repo_root))
            == Some(i as usize) && 0 <= i <= usize::MAX
}

/// Does one file import another?
pub open spec fn imports(facts: Seq<FileFactsModel>, i: int, j: int) -> bool {
    0 <= i < facts.len() && 0 <= j < facts.len() && facts[i].edges.contains(j as usize)
}

/// Is a file one of the service's own, or reached from them by no more than so
/// many imports?
pub open spec fn reached_in(
    files: Seq<Seq<char>>,
    facts: Seq<FileFactsModel>,
    service_files: Seq<Seq<char>>,
    repo_root: Seq<char>,
    n: nat,
    i: int,
) -> bool
    decreases n,
{
    if n == 0 {
        is_own(files, service_files, repo_root, i)
    } else {
        reached_in(files, facts, service_files, repo_root, (n - 1) as nat, i) || exists|j: int|
            reached_in(files, facts, service_files, repo_root, (n - 1) as nat, j) && #[trigger] imports(facts, j, i)
    }
}

/// Does a service ship a file: is it one of its own, or pulled in by them?
pub open spec fn reachable(
    files: Seq<Seq<char>>,
    facts: Seq<FileFactsModel>,
    service_files: Seq<Seq<char>>,
    repo_root: Seq<char>,
    i: int,
) -> bool {
    exists|n: nat| reached_in(files, facts, service_files, repo_root, n, i)
}

/// What a file that is shipped imports is shipped.
pub proof fn what_is_imported_is_shipped(
    files: Seq<Seq<char>>,
    facts: Seq<FileFactsModel>,
    service_files: Seq<Seq<char>>,
    repo_root: Seq<char>,
    i: int,
    j: int,
)
    requires
        reachable(files, facts, service_files, repo_root, i),
        imports(facts, i, j),
    ensures
        reachable(files, facts, service_files, repo_root, j),
{
    let n = choose|n: nat| reached_in(files, facts, service_files, repo_root, n, i);
    assert(reached_in(files, facts, service_files, repo_root, n + 1, j));
}

/// A service with more files ships no less.
pub proof fn more_files_reach_more(
    files: Seq<Seq<char>>,
    facts: Seq<FileFactsModel>,
    fewer: Seq<Seq<char>>,
    more: Seq<Seq<char>>,
    repo_root: Seq<char>,
    i: int,
)
    requires
        reachable(files, facts, fewer, repo_root, i),
        forall|k: int| 0 <= k < fewer.len() ==> more.contains(#[trigger] fewer[k]),
    ensures
        reachable(files, facts, more, repo_root, i),
{
    let n = choose|n: nat| reached_in(files, facts, fewer, repo_root, n, i);
    more_files_reach_within(files, facts, fewer, more, repo_root, n, i);
}

proof fn more_files_reach_within(
    files: Seq<Seq<char>>,
    facts: Seq<FileFactsModel>,
    fewer: Seq<Seq<char>>,
    more: Seq<Seq<char>>,
    repo_root: Seq<char>,
    n: nat,
    i: int,
)
    requires
        reached_in(files, facts, fewer, repo_root, n, i),
        forall|k: int| 0 <= k < fewer.len() ==> more.contains(#[trigger] fewer[k]),
    ensures
        reached_in(files, facts, more, repo_root, n, i),
    decreases n,
{
    if n == 0 {
        let k = choose|k: int|
            0 <= k < fewer.len() && file_position(files, relative_to(#[trigger] fewer[k], repo_root)) == Some(i as usize)
                && 0 <= i <= usize::MAX;
        assert(more.contains(fewer[k]));
        let m = choose|m: int| 0 <= m < more.len() && more[m] == fewer[k];
        assert(file_position(files, relative_to(more[m], repo_root)) == Some(i as usize));
    } else if reached_in(files, facts, fewer, repo_root, (n - 1) as nat, i) {
        more_files_reach_within(files, facts, fewer, more, repo_root, (n - 1) as nat, i);
    } else {
        let j = choose|j: int|
            reached_in(files, facts, fewer, repo_root, (n - 1) as nat, j) && #[trigger] imports(facts, j, i);
        more_files_reach_within(files, facts, fewer, more, repo_root, (n - 1) as nat, j);
    }
}

spec fn unseen(seen: Seq<bool>) -> nat
    decreases seen.len(),
{
    if seen.len() == 0 {
        0
    } else {
        unseen(seen.drop_last()) + if seen.last() {
            0nat
        } else {
            1nat
        }
    }
}

proof fn seeing_one(seen: Seq<bool>, i: int)
    requires
        0 <= i < seen.len(),
        !seen[i],
    ensures
        unseen(seen.update(i, true)) + 1 == unseen(seen),
    decreases seen.len(),
{
    let after = seen.update(i, true);
    if i == seen.len() - 1 {
        assert(after.drop_last() =~= seen.drop_last());
    } else {
        assert(after.drop_last() =~= seen.drop_last().update(i, true));
        seeing_one(seen.drop_last(), i);
    }
}

/// A set of files that holds the service's own and what they import holds
/// whatever is reached.
proof fn a_closed_set_holds_the_reached(
    files: Seq<Seq<char>>,
    facts: Seq<FileFactsModel>,
    service_files: Seq<Seq<char>>,
    repo_root: Seq<char>,
    seen: Seq<bool>,
    n: nat,
    i: int,
)
    requires
        seen.len() == facts.len(),
        seen.len() == files.len(),
        forall|k: int| #[trigger] is_own(files, service_files, repo_root, k) ==> 0 <= k < seen.len() && seen[k],
        forall|j: int, k: int| 0 <= j < seen.len() && seen[j] && #[trigger] imports(facts, j, k) ==> seen[k],
        reached_in(files, facts, service_files, repo_root, n, i),
    ensures
        0 <= i < seen.len(),
        seen[i],
    decreases n,
{
    if n > 0 {
        if reached_in(files, facts, service_files, repo_root, (n - 1) as nat, i) {
            a_closed_set_holds_the_reached(files, facts, service_files, repo_root, seen, (n - 1) as nat, i);
        } else {
            let j = choose|j: int|
                reached_in(files, facts, service_files, repo_root, (n - 1) as nat, j) && #[trigger] imports(facts, j, i);
            a_closed_set_holds_the_reached(files, facts, service_files, repo_root, seen, (n - 1) as nat, j);
        }
    }
}

/// The list of what was seen lists just that.
spec fn lists_seen(order: Seq<usize>, seen: Seq<bool>) -> bool {
    &&& forall|k: int| 0 <= k < order.len() ==> (#[trigger] order[k]) < seen.len() && seen[order[k] as int]
    &&& forall|i: int| 0 <= i < seen.len() && #[trigger] seen[i] ==> order.contains(i as usize)
}

proof fn listing_one_more(order: Seq<usize>, seen: Seq<bool>, i: usize)
    requires
        lists_seen(order, seen),
        i < seen.len(),
    ensures
        lists_seen(order.push(i), seen.update(i as int, true)),
{
    let longer = order.push(i);
    let more = seen.update(i as int, true);
    assert forall|k: int| 0 <= k < longer.len() implies (#[trigger] longer[k]) < more.len() && more[longer[k] as int] by {
        if k < order.len() {
            assert(order[k] == longer[k]);
        }
    }
    assert forall|j: int| 0 <= j < more.len() && #[trigger] more[j] implies longer.contains(j as usize) by {
        if j == i {
            assert(longer[order.len() as int] == i);
        } else {
            assert(seen[j]);
            assert(order.contains(j as usize));
            let k = choose|k: int| 0 <= k < order.len() && order[k] == j as usize;
            assert(longer[k] == j as usize);
        }
    }
}

impl Workspace {
    /// Which files a service ships.
    pub fn reachable_from(&self, service_files: &Vec<String>, repo_root: &str) -> (r: Vec<bool>)
        requires
            self.well_formed(),
        ensures
            r@.len() == self.files@.len(),
            forall|i: int|
                0 <= i < r@.len() ==> #[trigger] r@[i] == reachable(
                    self.files.deep_view(),
                    self.facts.deep_view(),
                    service_files.deep_view(),
                    repo_root@,
                    i,
                ),
    {
        let ghost files = self.files.deep_view();
        let ghost facts = self.facts.deep_view();
        let ghost own = service_files.deep_view();
        let n: usize = self.files.len();
        let mut seen: Vec<bool> = Vec::new();
        let mut order: Vec<usize> = Vec::new();
        let mut i: usize = 0;
        while i < n
            invariant
                i <= n,
                seen@.len() == i,
                forall|k: int| 0 <= k < i ==> !#[trigger] seen@[k],
            decreases n - i,
        {
            seen.push(false);
            i += 1;
        }
        let mut s: usize = 0;
        while s < service_files.len()
            invariant
                s <= service_files.len(),
                n == self.files@.len(),
                seen@.len() == n,
                files == self.files.deep_view(),
                facts == self.facts.deep_view(),
                own == service_files.deep_view(),
                lists_seen(order@, seen@),
                forall|k: int|
                    0 <= k < n && #[trigger] seen@[k] ==> reached_in(files, facts, own, repo_root@, 0, k),
                forall|k: int, j: int|
                    #![trigger own[k], seen@[j]]
                    0 <= k < s && 0 <= j < n && file_position(files, relative_to(own[k], repo_root@)) == Some(j as usize)
                        ==> seen@[j],
            decreases service_files.len() - s,
        {
            let relative = make_relative(service_files[s].as_str(), repo_root);
            assert(own[s as int] == service_files@[s as int]@);
            match find_file(&self.files, relative.as_str()) {
                Some(file) => {
                    assert(is_own(files, own, repo_root@, file as int));
                    if !seen[file] {
                        proof {
                            listing_one_more(order@, seen@, file);
                        }
                        seen.set(file, true);
                        order.push(file);
                    }
                },
                None => {},
            }
            s += 1;
        }
        assert forall|k: int| #[trigger] is_own(files, own, repo_root@, k) implies 0 <= k < n && seen@[k] by {
            let m = choose|m: int|
                0 <= m < own.len() && file_position(files, relative_to(#[trigger] own[m], repo_root@)) == Some(k as usize)
                    && 0 <= k <= usize::MAX;
            a_position_is_within(files, relative_to(own[m], repo_root@));
            assert(seen@[k] == seen@[k]);
        }
        let mut next: usize = 0;
        while next < order.len()
            invariant
                next <= order.len(),
                n == self.files@.len(),
                n == self.facts@.len(),
                seen@.len() == n,
                files == self.files.deep_view(),
                facts == self.facts.deep_view(),
                own == service_files.deep_view(),
                lists_seen(order@, seen@),
                forall|k: int| #[trigger] is_own(files, own, repo_root@, k) ==> 0 <= k < n && seen@[k],
                forall|k: int| 0 <= k < n && #[trigger] seen@[k] ==> reachable(files, facts, own, repo_root@, k),
                forall|k: int, j: int|
                    0 <= k < next && #[trigger] imports(facts, order@[k] as int, j) ==> seen@[j],
            decreases unseen(seen@) + (order.len() - next),
        {
            let file: usize = order[next];
            assert(seen@[file as int]);
            let ghost waiting = unseen(seen@) + (order@.len() - next);
            let ghost edges = facts[file as int].edges;
            assert(edges == self.facts@[file as int].edges@);
            let mut e: usize = 0;
            while e < self.facts[file].edges.len()
                invariant
                    e <= self.facts@[file as int].edges@.len(),
                    file < n,
                    next < order.len(),
                    order@[next as int] == file,
                    n == self.files@.len(),
                    n == self.facts@.len(),
                    seen@.len() == n,
                    files == self.files.deep_view(),
                    facts == self.facts.deep_view(),
                    own == service_files.deep_view(),
                    edges == facts[file as int].edges,
                    edges == self.facts@[file as int].edges@,
                    lists_seen(order@, seen@),
                    seen@[file as int],
                    unseen(seen@) + (order@.len() - next) == waiting,
                    forall|k: int| #[trigger] is_own(files, own, repo_root@, k) ==> 0 <= k < n && seen@[k],
                    forall|k: int| 0 <= k < n && #[trigger] seen@[k] ==> reachable(files, facts, own, repo_root@, k),
                    forall|k: int, j: int|
                        0 <= k < next && #[trigger] imports(facts, order@[k] as int, j) ==> seen@[j],
                    forall|k: int| 0 <= k < e && edges[k] < n ==> seen@[(#[trigger] edges[k]) as int],
                decreases self.facts@[file as int].edges@.len() - e,
            {
                let edge: usize = self.facts[file].edges[e];
                assert(edges[e as int] == edge);
                if edge < n && !seen[edge] {
                    proof {
                        assert(facts.len() == n);
                        assert(imports(facts, file as int, edge as int));
                        what_is_imported_is_shipped(files, facts, own, repo_root@, file as int, edge as int);
                        listing_one_more(order@, seen@, edge);
                        seeing_one(seen@, edge as int);
                    }
                    seen.set(edge, true);
                    order.push(edge);
                }
                e += 1;
            }
            assert forall|j: int| #[trigger] imports(facts, file as int, j) implies seen@[j] by {
                let k = choose|k: int| 0 <= k < edges.len() && edges[k] == j as usize;
                assert(edges[k] == j);
            }
            next += 1;
        }
        proof {
            assert(facts.len() == n && files.len() == n);
            assert forall|j: int, k: int| 0 <= j < n && seen@[j] && #[trigger] imports(facts, j, k) implies seen@[k] by {
                assert(order@.contains(j as usize));
                let m = choose|m: int| 0 <= m < order@.len() && order@[m] == j as usize;
                assert(imports(facts, order@[m] as int, k));
            }
            assert forall|k: int| 0 <= k < n implies #[trigger] seen@[k] == reachable(files, facts, own, repo_root@, k) by {
                if reachable(files, facts, own, repo_root@, k) {
                    let steps = choose|steps: nat| reached_in(files, facts, own, repo_root@, steps, k);
                    a_closed_set_holds_the_reached(files, facts, own, repo_root@, seen@, steps, k);
                }
            }
        }
        seen
    }
}

proof fn a_position_is_within(files: Seq<Seq<char>>, path: Seq<char>)
    ensures
        file_position(files, path) matches Some(i) ==> files.len() <= usize::MAX ==> i < files.len(),
    decreases files.len(),
{
    if files.len() > 0 {
        a_position_is_within(files.drop_last(), path);
    }
}

// ---------------------------------------------------------------------------
// Rows
// ---------------------------------------------------------------------------

/// The row of a call site, where what is called comes from an external package.
pub open spec fn site_row(
    files: Seq<Seq<char>>,
    state: Seq<FileSlotsModel>,
    file: int,
    site: CallSiteModel,
) -> Option<ExternalCallCandidateModel> {
    match chain_package(state, file, site.callee) {
        Some(package) => Some(
            ExternalCallCandidateModel {
                file: files[file],
                line: site.line,
                callee: chain_text(site.callee),
                package: package.package,
                mechanism: CallMechanism::Sdk,
                import_symbol: package.import_symbol,
                subpath: package.subpath,
            },
        ),
        None => None,
    }
}

pub open spec fn with_site_rows(
    rows: Seq<ExternalCallCandidateModel>,
    files: Seq<Seq<char>>,
    state: Seq<FileSlotsModel>,
    file: int,
    sites: Seq<CallSiteModel>,
) -> Seq<ExternalCallCandidateModel>
    decreases sites.len(),
{
    if sites.len() == 0 {
        rows
    } else {
        let before = with_site_rows(rows, files, state, file, sites.drop_last());
        match site_row(files, state, file, sites.last()) {
            Some(row) => before.push(row),
            None => before,
        }
    }
}

/// Is a file at a path that a service ships?
pub open spec fn is_shipped(
    files: Seq<Seq<char>>,
    facts: Seq<FileFactsModel>,
    service_files: Seq<Seq<char>>,
    repo_root: Seq<char>,
    i: int,
) -> bool {
    exists|j: int|
        0 <= j < files.len() && reachable(files, facts, service_files, repo_root, j) && same_path(
            #[trigger] files[j],
            files[i],
        )
}

/// The rows of the first files of a workspace, as far as a service ships them.
pub open spec fn shipped_rows(
    files: Seq<Seq<char>>,
    facts: Seq<FileFactsModel>,
    service_files: Seq<Seq<char>>,
    repo_root: Seq<char>,
    n: nat,
) -> Seq<ExternalCallCandidateModel>
    decreases n,
{
    if n == 0 || n > facts.len() {
        Seq::empty()
    } else {
        let before = shipped_rows(files, facts, service_files, repo_root, (n - 1) as nat);
        if is_shipped(files, facts, service_files, repo_root, n - 1) {
            with_site_rows(
                before,
                files,
                rounds(facts, MAX_FIXPOINT_ROUNDS as nat),
                n - 1,
                facts[n - 1].call_sites,
            )
        } else {
            before
        }
    }
}

proof fn site_rows_hold(
    rows: Seq<ExternalCallCandidateModel>,
    files: Seq<Seq<char>>,
    state: Seq<FileSlotsModel>,
    file: int,
    sites: Seq<CallSiteModel>,
    row: ExternalCallCandidateModel,
)
    ensures
        with_site_rows(rows, files, state, file, sites).contains(row) <==> rows.contains(row) || exists|k: int|
            0 <= k < sites.len() && site_row(files, state, file, #[trigger] sites[k]) == Some(row),
    decreases sites.len(),
{
    if sites.len() > 0 {
        let init = sites.drop_last();
        let before = with_site_rows(rows, files, state, file, init);
        let all = with_site_rows(rows, files, state, file, sites);
        site_rows_hold(rows, files, state, file, init, row);
        assert(sites[sites.len() - 1] == sites.last());
        assert(forall|k: int| 0 <= k < init.len() ==> init[k] == sites[k]);
        if before.contains(row) {
            let k = choose|k: int| 0 <= k < before.len() && before[k] == row;
            assert(all[k] == row);
            if !rows.contains(row) {
                let j = choose|j: int| 0 <= j < init.len() && site_row(files, state, file, #[trigger] init[j]) == Some(row);
                assert(site_row(files, state, file, sites[j]) == Some(row));
            }
        } else if all.contains(row) {
            let k = choose|k: int| 0 <= k < all.len() && all[k] == row;
            if k < before.len() {
                assert(before[k] == row);
            }
            assert(site_row(files, state, file, sites.last()) == Some(row));
        }
        if exists|k: int| 0 <= k < sites.len() && site_row(files, state, file, #[trigger] sites[k]) == Some(row) {
            let k = choose|k: int| 0 <= k < sites.len() && site_row(files, state, file, #[trigger] sites[k]) == Some(row);
            if k < init.len() {
                assert(site_row(files, state, file, init[k]) == Some(row));
            } else {
                assert(all[before.len() as int] == row);
            }
        }
    }
}

/// A call site of a file is the origin of a row.
pub open spec fn is_row_of(
    files: Seq<Seq<char>>,
    facts: Seq<FileFactsModel>,
    file: int,
    row: ExternalCallCandidateModel,
) -> bool {
    exists|k: int|
        0 <= k < facts[file].call_sites.len() && site_row(
            files,
            rounds(facts, MAX_FIXPOINT_ROUNDS as nat),
            file,
            #[trigger] facts[file].call_sites[k],
        ) == Some(row)
}

/// A service takes the rows of all files that it ships, and no others. So a file
/// that two services ship appears with both.
pub proof fn a_service_takes_the_rows_of_its_files(
    files: Seq<Seq<char>>,
    facts: Seq<FileFactsModel>,
    service_files: Seq<Seq<char>>,
    repo_root: Seq<char>,
    n: nat,
    row: ExternalCallCandidateModel,
)
    requires
        n <= facts.len(),
    ensures
        shipped_rows(files, facts, service_files, repo_root, n).contains(row) <==> exists|i: int|
            0 <= i < n && is_shipped(files, facts, service_files, repo_root, i) && #[trigger] is_row_of(
                files,
                facts,
                i,
                row,
            ),
    decreases n,
{
    let all = shipped_rows(files, facts, service_files, repo_root, n);
    if n == 0 {
        assert(all.len() == 0);
    } else {
        let m = (n - 1) as nat;
        let before = shipped_rows(files, facts, service_files, repo_root, m);
        let sites = facts[n - 1].call_sites;
        let state = rounds(facts, MAX_FIXPOINT_ROUNDS as nat);
        a_service_takes_the_rows_of_its_files(files, facts, service_files, repo_root, m, row);
        site_rows_hold(before, files, state, n - 1, sites, row);
        assert((exists|k: int| 0 <= k < sites.len() && site_row(files, state, n - 1, #[trigger] sites[k]) == Some(row))
            == is_row_of(files, facts, n - 1, row));
        if all.contains(row) {
            if before.contains(row) {
                let i = choose|i: int|
                    0 <= i < m && is_shipped(files, facts, service_files, repo_root, i) && #[trigger] is_row_of(
                        files,
                        facts,
                        i,
                        row,
                    );
                assert(is_row_of(files, facts, i, row));
            } else {
                assert(is_row_of(files, facts, n - 1, row));
            }
        } else {
            assert(!before.contains(row));
            assert forall|i: int| 0 <= i < n && #[trigger] is_row_of(files, facts, i, row) implies !is_shipped(
                files,
                facts,
                service_files,
                repo_root,
                i,
            ) by {
                if i < m && is_shipped(files, facts, service_files, repo_root, i) {
                    assert(before.contains(row));
                }
            }
        }
    }
}

fn ships(files: &Vec<String>, seen: &Vec<bool>, i: usize) -> (r: bool)
    requires
        seen@.len() == files@.len(),
        i < files@.len(),
    ensures
        r == exists|j: int|
            0 <= j < files.deep_view().len() && seen@[j] && same_path(
                #[trigger] files.deep_view()[j],
                files.deep_view()[i as int],
            ),
{
    let ghost all = files.deep_view();
    assert(all[i as int] == files@[i as int]@);
    if seen[i] {
        assert(same_path(all[i as int], all[i as int]));
        return true;
    }
    let mut j: usize = 0;
    while j < files.len()
        invariant
            j <= files.len(),
            i < files.len(),
            seen@.len() == files@.len(),
            all == files.deep_view(),
            forall|k: int| 0 <= k < j ==> !(seen@[k] && same_path(#[trigger] all[k], all[i as int])),
        decreases files.len() - j,
    {
        assert(all[j as int] == files@[j as int]@);
        assert(all[i as int] == files@[i as int]@);
        if seen[j] && equal_paths(files[j].as_str(), files[i].as_str()) {
            return true;
        }
        j += 1;
    }
    false
}

impl Workspace {
    /// Puts the rows of a file into a sorted list of rows.
    fn place_rows(
        &self,
        sorted: &mut Vec<ExternalCallCandidate>,
        state: &Vec<FileSlots>,
        file: usize,
        Ghost(before): Ghost<Seq<ExternalCallCandidateModel>>,
    )
        requires
            file < self.files@.len(),
            file < self.facts@.len(),
            old(sorted).deep_view() == by_rank_once(before),
        ensures
            final(sorted).deep_view() == by_rank_once(
                with_site_rows(
                    before,
                    self.files.deep_view(),
                    state.deep_view(),
                    file as int,
                    self.facts.deep_view()[file as int].call_sites,
                ),
            ),
    {
        let ghost files = self.files.deep_view();
        let ghost known = state.deep_view();
        let sites = &self.facts[file].call_sites;
        let ghost all = sites.deep_view();
        assert(self.facts.deep_view()[file as int].call_sites == all);
        assert(files[file as int] == self.files@[file as int]@);
        let mut i: usize = 0;
        while i < sites.len()
            invariant
                i <= sites.len(),
                file < self.files@.len(),
                files == self.files.deep_view(),
                files[file as int] == self.files@[file as int]@,
                known == state.deep_view(),
                all == sites.deep_view(),
                sorted.deep_view() == by_rank_once(
                    with_site_rows(before, files, known, file as int, all.take(i as int)),
                ),
            decreases sites.len() - i,
        {
            let ghost so_far = with_site_rows(before, files, known, file as int, all.take(i as int));
            assert(all.take(i + 1).drop_last() =~= all.take(i as int));
            assert(all.take(i + 1).last() == sites@[i as int].deep_view());
            match resolve_package(state, file, &sites[i].callee) {
                Some(package) => {
                    let row = ExternalCallCandidate {
                        file: self.files[file].clone(),
                        line: sites[i].line,
                        callee: sites[i].callee.text(),
                        package: package.package,
                        mechanism: CallMechanism::Sdk,
                        import_symbol: package.import_symbol,
                        subpath: package.subpath,
                    };
                    assert(so_far.push(row.deep_view()).drop_last() =~= so_far);
                    place_once(sorted, row);
                },
                None => {},
            }
            i += 1;
        }
        assert(all.take(all.len() as int) =~= all);
    }

    /// The rows that a service takes of a workspace.
    pub fn rows_of(&self, service_files: &Vec<String>, repo_root: &str) -> (r: Vec<ExternalCallCandidate>)
        requires
            self.well_formed(),
        ensures
            r.deep_view() == listed(
                shipped_rows(
                    self.files.deep_view(),
                    self.facts.deep_view(),
                    service_files.deep_view(),
                    repo_root@,
                    self.facts.deep_view().len(),
                ),
            ),
    {
        let ghost files = self.files.deep_view();
        let ghost facts = self.facts.deep_view();
        let ghost own = service_files.deep_view();
        let state = resolve_ownership(&self.facts);
        let seen = self.reachable_from(service_files, repo_root);
        let mut rows: Vec<ExternalCallCandidate> = Vec::new();
        let mut i: usize = 0;
        assert(rows.deep_view() =~= by_rank_once(shipped_rows(files, facts, own, repo_root@, 0)));
        assert(files.len() == self.files@.len() && facts.len() == self.facts@.len());
        while i < self.files.len()
            invariant
                i <= self.files.len(),
                self.files@.len() == self.facts@.len(),
                files == self.files.deep_view(),
                facts == self.facts.deep_view(),
                files.len() == self.files@.len(),
                facts.len() == self.facts@.len(),
                own == service_files.deep_view(),
                state.deep_view() == rounds(facts, MAX_FIXPOINT_ROUNDS as nat),
                seen@.len() == files.len(),
                forall|k: int|
                    0 <= k < seen@.len() ==> #[trigger] seen@[k] == reachable(files, facts, own, repo_root@, k),
                rows.deep_view() == by_rank_once(shipped_rows(files, facts, own, repo_root@, i as nat)),
            decreases self.files.len() - i,
        {
            let ghost before = shipped_rows(files, facts, own, repo_root@, i as nat);
            let shipped = ships(&self.files, &seen, i);
            proof {
                if shipped {
                    let j = choose|j: int| 0 <= j < files.len() && seen@[j] && same_path(#[trigger] files[j], files[i as int]);
                    assert(reachable(files, facts, own, repo_root@, j));
                    assert(is_shipped(files, facts, own, repo_root@, i as int));
                } else if is_shipped(files, facts, own, repo_root@, i as int) {
                    let j = choose|j: int|
                        0 <= j < files.len() && reachable(files, facts, own, repo_root@, j) && same_path(
                            #[trigger] files[j],
                            files[i as int],
                        );
                    assert(seen@[j]);
                }
            }
            if shipped {
                self.place_rows(&mut rows, &state, i, Ghost(before));
            }
            i += 1;
        }
        cap(rows)
    }
}

/// The calls through external packages that a service ships. Where the tree
/// declares no external package there are none.
pub fn scan_workspace(
    service_files: &Vec<String>,
    repo_root: &str,
    declares_packages: bool,
    parsed: &Vec<ParsedFile>,
) -> (r: Vec<ExternalCallCandidate>)
    ensures
        r.deep_view() == (if declares_packages {
            listed(
                shipped_rows(
                    relative_files(parsed@, repo_root@),
                    all_said(parsed@, repo_root@),
                    service_files.deep_view(),
                    repo_root@,
                    parsed@.len(),
                ),
            )
        } else {
            Seq::empty()
        }),
{
    if !declares_packages {
        let none: Vec<ExternalCallCandidate> = Vec::new();
        assert(none.deep_view() =~= Seq::<ExternalCallCandidateModel>::empty());
        return none;
    }
    Workspace::parse(parsed, repo_root).rows_of(service_files, repo_root)
}

/// The calls through external packages that a service ships, read off the texts
/// of its workspace.
pub fn scan_sources(
    service_files: &Vec<String>,
    repo_root: &str,
    declares_packages: bool,
    texts: &Vec<WorkspaceText>,
) -> (r: Vec<ExternalCallCandidate>)
    requires
        forall|i: int| 0 <= i < texts@.len() ==> is_readable((#[trigger] texts@[i]).file),
    ensures
        !declares_packages ==> r.deep_view() == Seq::<ExternalCallCandidateModel>::empty(),
        declares_packages ==> exists|parsed: Seq<ParsedFile>| #[trigger]
            are_read(texts@, parsed) && r.deep_view() == listed(
                shipped_rows(
                    relative_files(parsed, repo_root@),
                    all_said(parsed, repo_root@),
                    service_files.deep_view(),
                    repo_root@,
                    parsed.len(),
                ),
            ),
{
    if !declares_packages {
        let none: Vec<ExternalCallCandidate> = Vec::new();
        assert(none.deep_view() =~= Seq::<ExternalCallCandidateModel>::empty());
        return none;
    }
    let workspace = Workspace::parse_texts(texts, repo_root);
    let ghost parsed = choose|parsed: Seq<ParsedFile>| #[trigger]
        are_read(texts@, parsed) && workspace.files.deep_view() == relative_files(parsed, repo_root@)
            && workspace.facts.deep_view() == all_said(parsed, repo_root@);
    let r = workspace.rows_of(service_files, repo_root);
    assert(workspace.files.deep_view().len() == workspace.files@.len());
    assert(are_read(texts@, parsed));
    r
}

} // verus!
