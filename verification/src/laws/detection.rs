//! What the detection of frameworks goes by.

use crate::framework_detector::{
    all_dependencies, all_dev_dependencies, balances_at, first_char, import_statement, json_in, locals_from,
    object_ends, Extracted, ImportedSymbolModel, PackageJsonModel, SymbolKind,
};
use crate::laws::texts::{a_part_is_held, joined_holds_each};
use crate::text::{has_prefix, has_suffix, has_text, joined, sorted_distinct, sorted_distinct_sorts};
use vstd::prelude::*;

verus! {

/// A dependency has the version that the last manifest states which declares it.
pub proof fn the_last_manifest_states_the_version(manifests: Seq<PackageJsonModel>, name: Seq<char>, version: Seq<char>)
    ensures
        all_dependencies(manifests).contains_pair(name, version) <==> exists|i: int|
            0 <= i < manifests.len() && (#[trigger] manifests[i]).dependencies.contains_pair(name, version) && forall|j: int|
                i < j < manifests.len() ==> !(#[trigger] manifests[j]).dependencies.contains_key(name),
        all_dev_dependencies(manifests).contains_pair(name, version) <==> exists|i: int|
            0 <= i < manifests.len() && (#[trigger] manifests[i]).dev_dependencies.contains_pair(name, version) && forall|j: int|
                i < j < manifests.len() ==> !(#[trigger] manifests[j]).dev_dependencies.contains_key(name),
    decreases manifests.len(),
{
    if manifests.len() > 0 {
        let n = manifests.len() - 1;
        let init = manifests.drop_last();
        the_last_manifest_states_the_version(init, name, version);
        assert(manifests.last() == manifests[n]);
        assert forall|i: int| 0 <= i < n implies #[trigger] manifests[i] == init[i] by {}
        if !manifests[n].dependencies.contains_key(name) {
            if all_dependencies(init).contains_pair(name, version) {
                let i = choose|i: int|
                    0 <= i < init.len() && (#[trigger] init[i]).dependencies.contains_pair(name, version) && forall|j: int|
                        i < j < init.len() ==> !(#[trigger] init[j]).dependencies.contains_key(name);
                assert(manifests[i].dependencies.contains_pair(name, version));
                assert forall|j: int| i < j < manifests.len() implies !(#[trigger] manifests[j]).dependencies.contains_key(
                    name,
                ) by {
                    if j < n {
                        assert(init[j] == manifests[j]);
                    }
                }
            }
        }
        if exists|i: int|
            0 <= i < manifests.len() && (#[trigger] manifests[i]).dependencies.contains_pair(name, version) && forall|j: int|
                i < j < manifests.len() ==> !(#[trigger] manifests[j]).dependencies.contains_key(name) {
            let i = choose|i: int|
                0 <= i < manifests.len() && (#[trigger] manifests[i]).dependencies.contains_pair(name, version) && forall|j: int|
                    i < j < manifests.len() ==> !(#[trigger] manifests[j]).dependencies.contains_key(name);
            if i < n {
                assert(!manifests[n].dependencies.contains_key(name));
                assert(init[i].dependencies.contains_pair(name, version));
                assert forall|j: int| i < j < init.len() implies !(#[trigger] init[j]).dependencies.contains_key(name) by {
                    assert(init[j] == manifests[j]);
                }
            }
        }
        if manifests[n].dependencies.contains_pair(name, version) {
            assert(manifests[n].dependencies.contains_pair(name, version));
        }
        if !manifests[n].dev_dependencies.contains_key(name) {
            if all_dev_dependencies(init).contains_pair(name, version) {
                let i = choose|i: int|
                    0 <= i < init.len() && (#[trigger] init[i]).dev_dependencies.contains_pair(name, version) && forall|j: int|
                        i < j < init.len() ==> !(#[trigger] init[j]).dev_dependencies.contains_key(name);
                assert(manifests[i].dev_dependencies.contains_pair(name, version));
                assert forall|j: int| i < j < manifests.len() implies !(#[trigger] manifests[j]).dev_dependencies.contains_key(
                    name,
                ) by {
                    if j < n {
                        assert(init[j] == manifests[j]);
                    }
                }
            }
        }
        if exists|i: int|
            0 <= i < manifests.len() && (#[trigger] manifests[i]).dev_dependencies.contains_pair(name, version) && forall|j: int|
                i < j < manifests.len() ==> !(#[trigger] manifests[j]).dev_dependencies.contains_key(name) {
            let i = choose|i: int|
                0 <= i < manifests.len() && (#[trigger] manifests[i]).dev_dependencies.contains_pair(name, version)
                    && forall|j: int|
                    i < j < manifests.len() ==> !(#[trigger] manifests[j]).dev_dependencies.contains_key(name);
            if i < n {
                assert(!manifests[n].dev_dependencies.contains_key(name));
                assert(init[i].dev_dependencies.contains_pair(name, version));
                assert forall|j: int| i < j < init.len() implies !(#[trigger] init[j]).dev_dependencies.contains_key(name) by {
                    assert(init[j] == manifests[j]);
                }
            }
        }
    }
}

proof fn locals_are_those_imported(imports: Seq<ImportedSymbolModel>, source: Seq<char>, kind: SymbolKind, local: Seq<char>)
    ensures
        locals_from(imports, source, kind).contains(local) <==> exists|i: int|
            0 <= i < imports.len() && (#[trigger] imports[i]).local_name == local && imports[i].source == source
                && imports[i].kind == kind,
    decreases imports.len(),
{
    if imports.len() > 0 {
        let n = imports.len() - 1;
        let init = imports.drop_last();
        let before = locals_from(init, source, kind);
        let all = locals_from(imports, source, kind);
        locals_are_those_imported(init, source, kind, local);
        assert(imports.last() == imports[n]);
        if before.contains(local) {
            let k = choose|k: int| 0 <= k < before.len() && before[k] == local;
            assert(all[k] == local);
            let i = choose|i: int|
                0 <= i < init.len() && (#[trigger] init[i]).local_name == local && init[i].source == source && init[i].kind
                    == kind;
            assert(imports[i] == init[i]);
        }
        if all.contains(local) && !before.contains(local) {
            let k = choose|k: int| 0 <= k < all.len() && all[k] == local;
            if k < before.len() {
                assert(before[k] == local);
            }
            assert(imports[n].local_name == local);
        }
        if exists|i: int|
            0 <= i < imports.len() && (#[trigger] imports[i]).local_name == local && imports[i].source == source
                && imports[i].kind == kind {
            let i = choose|i: int|
                0 <= i < imports.len() && (#[trigger] imports[i]).local_name == local && imports[i].source == source
                    && imports[i].kind == kind;
            if i < n {
                assert(init[i] == imports[i]);
            } else {
                assert(all[all.len() - 1] == local);
            }
        }
    }
}

pub open spec fn imports_from(imports: Seq<ImportedSymbolModel>, source: Seq<char>, kind: SymbolKind) -> bool {
    exists|i: int| 0 <= i < imports.len() && (#[trigger] imports[i]).source == source && imports[i].kind == kind
}

proof fn something_is_imported(imports: Seq<ImportedSymbolModel>, source: Seq<char>, kind: SymbolKind)
    ensures
        sorted_distinct(locals_from(imports, source, kind)).len() > 0 <==> imports_from(imports, source, kind),
{
    let locals = locals_from(imports, source, kind);
    let sorted = sorted_distinct(locals);
    sorted_distinct_sorts(locals);
    if sorted.len() > 0 {
        assert(sorted.contains(sorted[0]));
        locals_are_those_imported(imports, source, kind, sorted[0]);
    }
    if imports_from(imports, source, kind) {
        let i = choose|i: int| 0 <= i < imports.len() && (#[trigger] imports[i]).source == source && imports[i].kind == kind;
        locals_are_those_imported(imports, source, kind, imports[i].local_name);
        assert(sorted.contains(imports[i].local_name));
    }
}

/// The sample line of a source states the source, and what is imported from it:
/// the default, or else every name, or else the namespace.
pub proof fn a_sample_line_states_its_source(imports: Seq<ImportedSymbolModel>, source: Seq<char>)
    ensures
        import_statement(imports, source) is Some <==> imports_from(imports, source, SymbolKind::Default) || imports_from(
            imports,
            source,
            SymbolKind::Named,
        ) || imports_from(imports, source, SymbolKind::Namespace),
        import_statement(imports, source) matches Some(line) ==> has_suffix(line, " from '"@ + source + "';"@),
        !imports_from(imports, source, SymbolKind::Default) ==> forall|i: int|
            0 <= i < imports.len() && (#[trigger] imports[i]).source == source && imports[i].kind == SymbolKind::Named
                ==> has_text(import_statement(imports, source)->0, imports[i].local_name),
{
    something_is_imported(imports, source, SymbolKind::Default);
    something_is_imported(imports, source, SymbolKind::Named);
    something_is_imported(imports, source, SymbolKind::Namespace);
    let named = sorted_distinct(locals_from(imports, source, SymbolKind::Named));
    let end = " from '"@ + source + "';"@;
    if import_statement(imports, source) is Some {
        let line = import_statement(imports, source)->0;
        let n = line.len() - end.len();
        reveal_strlit(" } from '");
        reveal_strlit(" from '");
        assert(line.subrange(n, line.len() as int) =~= end);
    }
    if !imports_from(imports, source, SymbolKind::Default) {
        assert forall|i: int|
            0 <= i < imports.len() && (#[trigger] imports[i]).source == source && imports[i].kind
                == SymbolKind::Named implies has_text(import_statement(imports, source)->0, imports[i].local_name) by {
            locals_are_those_imported(imports, source, SymbolKind::Named, imports[i].local_name);
            sorted_distinct_sorts(locals_from(imports, source, SymbolKind::Named));
            assert(named.contains(imports[i].local_name));
            let k = choose|k: int| 0 <= k < named.len() && named[k] == imports[i].local_name;
            joined_holds_each(named, ", "@, k);
            let tail = " } from '"@ + source + "';"@;
            a_part_is_held("import { "@, joined(named, ", "@), tail, named[k]);
            assert("import { "@ + joined(named, ", "@) + tail =~= "import { "@ + joined(named, ", "@) + " } from '"@ + source
                + "';"@);
        }
    }
}

/// An answer with text around an object gives the object: from the first brace
/// to the one that closes it.
pub proof fn an_object_is_found_in_an_answer(s: Seq<char>, start: int, end: int)
    requires
        0 <= start < end < s.len(),
        s[start] == '{',
        forall|i: int| 0 <= i < start ==> s[i] != '{',
        object_ends(s, end),
        !(has_prefix(s, "{"@) && has_suffix(s, "}"@)),
    ensures
        json_in(s) == Extracted::Json(s.subrange(start, end + 1)),
{
    assert(first_char(s, '{', start));
    assert(s.contains('{'));
    let found = choose|i: int| first_char(s, '{', i);
    assert(first_char(s, '{', found));
    assert(found == start) by {
        if found < start {
            assert(s[found] != '{');
        } else if start < found {
            assert(s[start] != '{');
        }
    }
    let e = choose|e: int| object_ends(s, e);
    assert(object_ends(s, e));
    assert(e == end) by {
        if e < end {
            assert(!balances_at(s, e));
        } else if end < e {
            assert(!balances_at(s, end));
        }
    }
}

/// An answer without a brace holds no object, and one that is an object is taken
/// whole.
pub proof fn an_answer_is_an_object_or_has_none(s: Seq<char>)
    ensures
        has_prefix(s, "{"@) && has_suffix(s, "}"@) ==> json_in(s) == Extracted::Json(s),
        !s.contains('{') ==> json_in(s) is NoObject,
{
    reveal_strlit("{");
    if has_prefix(s, "{"@) {
        assert(s.subrange(0, 1)[0] == s[0]);
        assert("{"@[0] == '{');
        assert(s.contains(s[0]));
    }
}

} // verus!
