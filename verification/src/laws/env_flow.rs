//! How bindings pass between modules, and into call targets.

use crate::env_alias::targets::{
    authority, env_target, host_of, is_loopback, leading_slot, literal_target, url_path, whole_name, whole_url,
    whole_url_target,
};
use crate::env_alias::{
    declared_names, default_properties, export_names, item_exports, named_exports, transparent, imported_bindings,
    own_bindings_win, put, renamed, with_exports, with_imports,
};
use crate::framework_detector::{ImportedSymbol, SymbolKind};
use crate::laws::env::{
    a_property_stays, a_scheme_is_taken_off, an_expression_is_one_thing, is_name, is_object, is_property, is_scheme, property_reads,
};
use crate::laws::texts::{a_cut_is_where_it_stands, a_prefix_is_taken_off, cut_at_a_character, prefix_and_rest};
use crate::ordered::TextMap;
use crate::syntax::{ExportName, ExportSpecifier, ModuleItem, Node, Pattern};
use crate::text::{
    after_prefix, first_cut, has_prefix, last_cut, last_cut_cuts_at_the_last, quotes, trim_front, trimmed,
    trimmed_end_of,
};
use vstd::prelude::*;

verus! {

// ---------------------------------------------------------------------------
// Names
// ---------------------------------------------------------------------------

/// What one name says of the environment, another says too: the other name has
/// what the first has, and each property of it what that property has.
pub open spec fn passes_on(
    from_map: Map<Seq<char>, Seq<char>>,
    from: Seq<char>,
    to: Seq<char>,
    key: Seq<char>,
    value: Seq<char>,
) -> bool {
    ||| key == to && from_map.contains_pair(from, value)
    ||| exists|property: Seq<char>|
        key == #[trigger] (to + "."@ + property) && from_map.contains_pair(from + "."@ + property, value)
}

proof fn a_renamed_map_passes_on(
    map: Map<Seq<char>, Seq<char>>,
    from: Seq<char>,
    to: Seq<char>,
    key: Seq<char>,
    value: Seq<char>,
)
    ensures
        renamed(map, from, to).contains_pair(key, value) <==> passes_on(map, from, to, key, value),
{
    reveal_strlit(".");
    let behind = to + "."@;
    prefix_and_rest(key, behind);
    if renamed(map, from, to).contains_pair(key, value) && key != to {
        let property = after_prefix(key, behind)->0;
        assert(key == to + "."@ + property);
        assert(map.contains_pair(from + "."@ + property, value));
    }
    if exists|property: Seq<char>|
        key == #[trigger] (to + "."@ + property) && map.contains_pair(from + "."@ + property, value) {
        let property = choose|property: Seq<char>|
            key == #[trigger] (to + "."@ + property) && map.contains_pair(from + "."@ + property, value);
        a_prefix_is_taken_off(behind, property);
        assert(key.len() > to.len());
    }
    if key == to {
        assert(after_prefix(key, behind) is None);
    }
}

/// The exported name says something of a key.
pub open spec fn names_key(name: Seq<char>, key: Seq<char>) -> bool {
    key == name || has_prefix(key, name + "."@)
}

proof fn what_is_passed_on_is_named(
    map: Map<Seq<char>, Seq<char>>,
    from: Seq<char>,
    to: Seq<char>,
    key: Seq<char>,
    value: Seq<char>,
)
    ensures
        passes_on(map, from, to, key, value) ==> names_key(to, key),
{
    if passes_on(map, from, to, key, value) && key != to {
        let property = choose|property: Seq<char>|
            key == #[trigger] (to + "."@ + property) && map.contains_pair(from + "."@ + property, value);
        a_prefix_is_taken_off(to + "."@, property);
    }
}

proof fn one_export(
    out: Map<Seq<char>, Seq<char>>,
    locals: Map<Seq<char>, Seq<char>>,
    exported: Seq<char>,
    local: Seq<char>,
    key: Seq<char>,
    value: Seq<char>,
)
    ensures
        passes_on(locals, local, exported, key, value) ==> put(out, renamed(locals, local, exported), true).contains_pair(
            key,
            value,
        ),
        put(out, renamed(locals, local, exported), true).contains_pair(key, value) ==> passes_on(
            locals,
            local,
            exported,
            key,
            value,
        ) || out.contains_pair(key, value),
        !names_key(exported, key) && out.contains_pair(key, value) ==> put(
            out,
            renamed(locals, local, exported),
            true,
        ).contains_pair(key, value),
{
    a_renamed_map_passes_on(locals, local, exported, key, value);
    let entries = renamed(locals, local, exported);
    if entries.contains_key(key) {
        a_renamed_map_passes_on(locals, local, exported, key, entries[key]);
        what_is_passed_on_is_named(locals, local, exported, key, entries[key]);
    }
}

/// A name that is exported as another says under that name what it says in its
/// module, it and its properties, unless a later export takes the name.
pub proof fn an_export_says_what_its_binding_says(
    out: Map<Seq<char>, Seq<char>>,
    names: Seq<(Seq<char>, Seq<char>)>,
    locals: Map<Seq<char>, Seq<char>>,
    k: int,
    key: Seq<char>,
    value: Seq<char>,
)
    requires
        0 <= k < names.len(),
        passes_on(locals, names[k].1, names[k].0, key, value),
        forall|m: int| k < m < names.len() ==> !names_key((#[trigger] names[m]).0, key),
    ensures
        with_exports(out, names, locals).contains_pair(key, value),
    decreases names.len(),
{
    let n = names.len() - 1;
    let init = names.drop_last();
    one_export(with_exports(out, init, locals), locals, names[n].0, names[n].1, key, value);
    if k < n {
        assert forall|m: int| k < m < init.len() implies !names_key((#[trigger] init[m]).0, key) by {
            assert(init[m] == names[m]);
        }
        assert(init[k] == names[k]);
        an_export_says_what_its_binding_says(out, init, locals, k, key, value);
    }
}

/// Nothing else is exported.
pub proof fn every_export_has_its_binding(
    out: Map<Seq<char>, Seq<char>>,
    names: Seq<(Seq<char>, Seq<char>)>,
    locals: Map<Seq<char>, Seq<char>>,
    key: Seq<char>,
    value: Seq<char>,
)
    requires
        with_exports(out, names, locals).contains_pair(key, value),
    ensures
        out.contains_pair(key, value) || exists|k: int|
            0 <= k < names.len() && passes_on(locals, (#[trigger] names[k]).1, names[k].0, key, value),
    decreases names.len(),
{
    if names.len() > 0 {
        let n = names.len() - 1;
        let init = names.drop_last();
        let before = with_exports(out, init, locals);
        one_export(before, locals, names[n].0, names[n].1, key, value);
        if !passes_on(locals, names[n].1, names[n].0, key, value) {
            every_export_has_its_binding(out, init, locals, key, value);
            if !out.contains_pair(key, value) {
                let k = choose|k: int|
                    0 <= k < init.len() && passes_on(locals, (#[trigger] init[k]).1, init[k].0, key, value);
                assert(names[k] == init[k]);
            }
        }
    }
}

/// An item exports a local name under a name.
pub open spec fn exports_as(item: ModuleItem, exported: Seq<char>, local: Seq<char>) -> bool {
    match item {
        ModuleItem::ExportDecl(Node::VarDecl(declarators)) => exported == local && exists|j: int|
            0 <= j < declarators@.len() && declares_name(#[trigger] declarators@[j], local),
        ModuleItem::ExportNamed { source: None, specifiers, .. } => exists|j: int|
            0 <= j < specifiers@.len() && specifies(#[trigger] specifiers@[j], exported, local),
        ModuleItem::ExportDefaultExpr(node) => exported == "default"@ && is_name(node, local),
        _ => false,
    }
}

pub open spec fn declares_name(declarator: Node, name: Seq<char>) -> bool {
    declarator matches Node::Declarator { pattern: Pattern::Name(bound), .. } && bound.symbol@ == name
}

/// The specifier is `local` or `local as exported`.
pub open spec fn specifies(specifier: ExportSpecifier, exported: Seq<char>, local: Seq<char>) -> bool {
    specifier matches ExportSpecifier::Named { original: ExportName::Ident(original), exported: renamed, .. } && local
        == original.symbol@ && exported == (match renamed {
        Some(name) => name@,
        None => local,
    })
}

proof fn declared_names_are_those_written(declarators: Seq<Node>, name: (Seq<char>, Seq<char>))
    ensures
        declared_names(declarators).contains(name) <==> name.0 == name.1 && exists|j: int|
            0 <= j < declarators.len() && declares_name(#[trigger] declarators[j], name.1),
    decreases declarators.len(),
{
    let all = declared_names(declarators);
    if declarators.len() > 0 {
        let n = declarators.len() - 1;
        let init = declarators.drop_last();
        let before = declared_names(init);
        declared_names_are_those_written(init, name);
        assert(declarators.last() == declarators[n]);
        assert forall|j: int| 0 <= j < n implies #[trigger] declarators[j] == init[j] by {}
        if before.contains(name) {
            let k = choose|k: int| 0 <= k < before.len() && before[k] == name;
            assert(all[k] == name);
            let j = choose|j: int| 0 <= j < init.len() && declares_name(#[trigger] init[j], name.1);
            assert(declares_name(declarators[j], name.1));
        }
        if all.contains(name) && !before.contains(name) {
            let k = choose|k: int| 0 <= k < all.len() && all[k] == name;
            if k < before.len() {
                assert(before[k] == name);
            }
            assert(declares_name(declarators[n], name.1));
        }
        if name.0 == name.1 && exists|j: int| 0 <= j < declarators.len() && declares_name(#[trigger] declarators[j], name.1) {
            let j = choose|j: int| 0 <= j < declarators.len() && declares_name(#[trigger] declarators[j], name.1);
            if j < n {
                assert(declares_name(init[j], name.1));
            } else {
                assert(all[all.len() - 1] == name);
            }
        }
    }
}

proof fn named_exports_are_those_written(specifiers: Seq<ExportSpecifier>, name: (Seq<char>, Seq<char>))
    ensures
        named_exports(specifiers).contains(name) <==> exists|j: int|
            0 <= j < specifiers.len() && specifies(#[trigger] specifiers[j], name.0, name.1),
    decreases specifiers.len(),
{
    let all = named_exports(specifiers);
    if specifiers.len() > 0 {
        let n = specifiers.len() - 1;
        let init = specifiers.drop_last();
        let before = named_exports(init);
        named_exports_are_those_written(init, name);
        assert(specifiers.last() == specifiers[n]);
        assert forall|j: int| 0 <= j < n implies #[trigger] specifiers[j] == init[j] by {}
        if before.contains(name) {
            let k = choose|k: int| 0 <= k < before.len() && before[k] == name;
            assert(all[k] == name);
            let j = choose|j: int| 0 <= j < init.len() && specifies(#[trigger] init[j], name.0, name.1);
            assert(specifies(specifiers[j], name.0, name.1));
        }
        if all.contains(name) && !before.contains(name) {
            let k = choose|k: int| 0 <= k < all.len() && all[k] == name;
            if k < before.len() {
                assert(before[k] == name);
            }
            assert(specifies(specifiers[n], name.0, name.1));
        }
        if exists|j: int| 0 <= j < specifiers.len() && specifies(#[trigger] specifiers[j], name.0, name.1) {
            let j = choose|j: int| 0 <= j < specifiers.len() && specifies(#[trigger] specifiers[j], name.0, name.1);
            if j < n {
                assert(specifies(init[j], name.0, name.1));
            } else {
                assert(all[all.len() - 1] == name);
            }
        }
    }
}

/// The exported names of a module are those that its items export.
pub proof fn exported_names_are_those_written(items: Seq<ModuleItem>, exported: Seq<char>, local: Seq<char>)
    ensures
        export_names(items).contains((exported, local)) <==> exists|i: int|
            0 <= i < items.len() && exports_as(#[trigger] items[i], exported, local),
    decreases items.len(),
{
    let name = (exported, local);
    let all = export_names(items);
    if items.len() > 0 {
        let n = items.len() - 1;
        let init = items.drop_last();
        let before = export_names(init);
        let own = item_exports(items[n]);
        exported_names_are_those_written(init, exported, local);
        assert(items.last() == items[n]);
        assert(own.contains(name) <==> exports_as(items[n], exported, local)) by {
            match items[n] {
                ModuleItem::ExportDecl(Node::VarDecl(declarators)) => {
                    declared_names_are_those_written(declarators@, name);
                },
                ModuleItem::ExportNamed { source: None, specifiers, .. } => {
                    named_exports_are_those_written(specifiers@, name);
                },
                ModuleItem::ExportDefaultExpr(node) => {
                    an_expression_is_one_thing(node);
                    if own.len() > 0 {
                        assert(own[0] == ("default"@, transparent(node)->Ident_0.symbol@));
                    }
                },
                _ => {},
            }
        }
        if before.contains(name) {
            let k = choose|k: int| 0 <= k < before.len() && before[k] == name;
            assert(all[k] == name);
            let i = choose|i: int| 0 <= i < init.len() && exports_as(#[trigger] init[i], exported, local);
            assert(exports_as(items[i], exported, local));
        }
        if own.contains(name) {
            let k = choose|k: int| 0 <= k < own.len() && own[k] == name;
            assert(all[before.len() + k] == name);
        }
        if all.contains(name) {
            let k = choose|k: int| 0 <= k < all.len() && all[k] == name;
            if k < before.len() {
                assert(before[k] == name);
            } else {
                assert(own[k - before.len()] == name);
            }
        }
        if exists|i: int| 0 <= i < items.len() && exports_as(#[trigger] items[i], exported, local) {
            let i = choose|i: int| 0 <= i < items.len() && exports_as(#[trigger] items[i], exported, local);
            if i < n {
                assert(exports_as(init[i], exported, local));
            }
        }
    }
}

/// An item exports an object literal as the default.
pub open spec fn exports_object(item: ModuleItem, props: Seq<Node>) -> bool {
    item matches ModuleItem::ExportDefaultExpr(node) && is_object(node, props)
}

/// A property of the object that a module exports as the default is exported
/// behind the name of the default, with the variable that it stands for, unless
/// a later property goes by the name.
pub proof fn a_property_of_the_default_is_exported(
    items: Seq<ModuleItem>,
    locals: Map<Seq<char>, Seq<char>>,
    i: int,
    props: Seq<Node>,
    j: int,
    property: Seq<char>,
    variable: Seq<char>,
)
    requires
        0 <= i < items.len(),
        exports_object(items[i], props),
        0 <= j < props.len(),
        is_property(props[j], property),
        property_reads(props[j], locals, variable),
        forall|m: int| j < m < props.len() ==> !is_property(#[trigger] props[m], property),
        forall|m: int| i < m < items.len() ==> !(#[trigger] items[m] is ExportDefaultExpr),
    ensures
        default_properties(items, locals).contains_pair("default"@ + "."@ + property, variable),
    decreases items.len(),
{
    let n = items.len() - 1;
    let init = items.drop_last();
    assert(items.last() == items[n]);
    if i == n {
        let node = items[n]->ExportDefaultExpr_0;
        an_expression_is_one_thing(node);
        a_property_stays(default_properties(init, locals), "default"@, props, locals, j, property, variable);
    } else {
        assert(!(items[n] is ExportDefaultExpr));
        assert(init[i] == items[i]);
        assert forall|m: int| i < m < init.len() implies !(#[trigger] init[m] is ExportDefaultExpr) by {
            assert(init[m] == items[m]);
        }
        a_property_of_the_default_is_exported(init, locals, i, props, j, property, variable);
    }
}

/// An import brings in what its module exports: under the local name what the
/// imported name has, or everything behind the name of a namespace.
pub open spec fn brings_in(
    local: Seq<char>,
    symbol: ImportedSymbol,
    exports: Map<Seq<char>, Seq<char>>,
    key: Seq<char>,
    value: Seq<char>,
) -> bool {
    match symbol.kind {
        SymbolKind::Named => passes_on(exports, symbol.imported_name@, local, key, value),
        SymbolKind::Default => passes_on(exports, "default"@, local, key, value),
        SymbolKind::Namespace => exists|name: Seq<char>|
            key == #[trigger] (local + "."@ + name) && exports.contains_pair(name, value),
    }
}

proof fn imports_bring_in(
    local: Seq<char>,
    symbol: ImportedSymbol,
    exports: Map<Seq<char>, Seq<char>>,
    key: Seq<char>,
    value: Seq<char>,
)
    ensures
        imported_bindings(symbol, local, exports).contains_pair(key, value) <==> brings_in(local, symbol, exports, key, value),
{
    match symbol.kind {
        SymbolKind::Named => {
            a_renamed_map_passes_on(exports, symbol.imported_name@, local, key, value);
        },
        SymbolKind::Default => {
            a_renamed_map_passes_on(exports, "default"@, local, key, value);
        },
        SymbolKind::Namespace => {
            let behind = local + "."@;
            prefix_and_rest(key, behind);
            if imported_bindings(symbol, local, exports).contains_pair(key, value) {
                let name = after_prefix(key, behind)->0;
                assert(key == local + "."@ + name);
            }
            if brings_in(local, symbol, exports, key, value) {
                let name = choose|name: Seq<char>|
                    key == #[trigger] (local + "."@ + name) && exports.contains_pair(name, value);
                a_prefix_is_taken_off(behind, name);
            }
        },
    }
}

pub open spec fn brings_key(
    local: Seq<char>,
    symbol: ImportedSymbol,
    modules: Map<Seq<char>, TextMap<String>>,
    key: Seq<char>,
) -> bool {
    modules.contains_key(symbol.source@) && exists|value: Seq<char>| #[trigger]
        brings_in(local, symbol, modules[symbol.source@].deep_view(), key, value)
}

/// The imports of a file: a key has what the file itself says of it, or else what
/// the first import brings in that brings it.
pub proof fn an_import_is_what_its_module_exports(
    aliases: Map<Seq<char>, Seq<char>>,
    symbols: Seq<(String, ImportedSymbol)>,
    modules: Map<Seq<char>, TextMap<String>>,
    key: Seq<char>,
    value: Seq<char>,
)
    ensures
        aliases.contains_key(key) ==> (with_imports(aliases, symbols, modules).contains_pair(key, value)
            <==> aliases.contains_pair(key, value)),
        !aliases.contains_key(key) ==> (with_imports(aliases, symbols, modules).contains_pair(key, value) <==> exists|k: int|
            0 <= k < symbols.len() && modules.contains_key((#[trigger] symbols[k]).1.source@) && brings_in(
                symbols[k].0@,
                symbols[k].1,
                modules[symbols[k].1.source@].deep_view(),
                key,
                value,
            ) && forall|j: int| 0 <= j < k ==> !brings_key((#[trigger] symbols[j]).0@, symbols[j].1, modules, key)),
        !aliases.contains_key(key) ==> (with_imports(aliases, symbols, modules).contains_key(key) <==> exists|k: int|
            0 <= k < symbols.len() && brings_key((#[trigger] symbols[k]).0@, symbols[k].1, modules, key)),
    decreases symbols.len(),
{
    let all = with_imports(aliases, symbols, modules);
    if symbols.len() > 0 {
        let n = symbols.len() - 1;
        let init = symbols.drop_last();
        let before = with_imports(aliases, init, modules);
        an_import_is_what_its_module_exports(aliases, init, modules, key, value);
        assert forall|j: int| 0 <= j < n implies #[trigger] symbols[j] == init[j] by {}
        let (local, symbol) = symbols[n];
        assert(symbols.last() == symbols[n]);
        if aliases.contains_key(key) {
            own_bindings_win(aliases, init, modules, key);
            own_bindings_win(aliases, symbols, modules, key);
        }
        if modules.contains_key(symbol.source@) {
            let exports = modules[symbol.source@].deep_view();
            let entries = imported_bindings(symbol, local@, exports);
            imports_bring_in(local@, symbol, exports, key, value);
            if entries.contains_key(key) {
                imports_bring_in(local@, symbol, exports, key, entries[key]);
                assert(brings_in(local@, symbol, exports, key, entries[key]));
            }
            if brings_key(local@, symbol, modules, key) {
                let v = choose|v: Seq<char>| #[trigger] brings_in(local@, symbol, exports, key, v);
                imports_bring_in(local@, symbol, exports, key, v);
            }
            assert(entries.contains_key(key) <==> brings_key(local@, symbol, modules, key));
        } else {
            assert(all == before);
            assert(!brings_key(local@, symbol, modules, key));
        }
        if !aliases.contains_key(key) {
            if before.contains_key(key) {
                let k = choose|k: int| 0 <= k < init.len() && brings_key((#[trigger] init[k]).0@, init[k].1, modules, key);
                assert(brings_key(symbols[k].0@, symbols[k].1, modules, key));
                assert(all.contains_pair(key, value) == before.contains_pair(key, value));
                if before.contains_pair(key, value) {
                    let m = choose|m: int|
                        0 <= m < init.len() && modules.contains_key((#[trigger] init[m]).1.source@) && brings_in(
                            init[m].0@,
                            init[m].1,
                            modules[init[m].1.source@].deep_view(),
                            key,
                            value,
                        ) && forall|j: int| 0 <= j < m ==> !brings_key((#[trigger] init[j]).0@, init[j].1, modules, key);
                    assert(modules.contains_key(symbols[m].1.source@));
                    assert forall|j: int| 0 <= j < m implies !brings_key((#[trigger] symbols[j]).0@, symbols[j].1, modules, key) by {
                        assert(init[j] == symbols[j]);
                    }
                }
            } else {
                assert forall|j: int| 0 <= j < n implies !brings_key((#[trigger] symbols[j]).0@, symbols[j].1, modules, key) by {
                    assert(init[j] == symbols[j]);
                }
            }
            if exists|k: int|
                0 <= k < symbols.len() && modules.contains_key((#[trigger] symbols[k]).1.source@) && brings_in(
                    symbols[k].0@,
                    symbols[k].1,
                    modules[symbols[k].1.source@].deep_view(),
                    key,
                    value,
                ) && forall|j: int| 0 <= j < k ==> !brings_key((#[trigger] symbols[j]).0@, symbols[j].1, modules, key) {
                let k = choose|k: int|
                    0 <= k < symbols.len() && modules.contains_key((#[trigger] symbols[k]).1.source@) && brings_in(
                        symbols[k].0@,
                        symbols[k].1,
                        modules[symbols[k].1.source@].deep_view(),
                        key,
                        value,
                    ) && forall|j: int| 0 <= j < k ==> !brings_key((#[trigger] symbols[j]).0@, symbols[j].1, modules, key);
                assert(brings_key(symbols[k].0@, symbols[k].1, modules, key));
                if k < n {
                    assert(init[k] == symbols[k]);
                    assert forall|j: int| 0 <= j < k implies !brings_key((#[trigger] init[j]).0@, init[j].1, modules, key) by {
                        assert(init[j] == symbols[j]);
                    }
                } else if before.contains_key(key) {
                    let m = choose|m: int| 0 <= m < init.len() && brings_key((#[trigger] init[m]).0@, init[m].1, modules, key);
                    assert(!brings_key(symbols[m].0@, symbols[m].1, modules, key));
                }
            }
            if exists|k: int| 0 <= k < symbols.len() && brings_key((#[trigger] symbols[k]).0@, symbols[k].1, modules, key) {
                let k = choose|k: int| 0 <= k < symbols.len() && brings_key((#[trigger] symbols[k]).0@, symbols[k].1, modules, key);
                if k < n {
                    assert(brings_key(init[k].0@, init[k].1, modules, key));
                }
            }
        }
    }
}

// ---------------------------------------------------------------------------
// Targets
// ---------------------------------------------------------------------------

/// Nothing but quotes.
pub open spec fn are_quotes(s: Seq<char>) -> bool {
    forall|i: int| 0 <= i < s.len() ==> #[trigger] s[i] == '`' || s[i] == '"' || s[i] == '\''
}

proof fn quotes_in_front_are_trimmed(front: Seq<char>, rest: Seq<char>)
    requires
        are_quotes(front),
        rest.len() > 0,
        !quotes()(rest[0]),
    ensures
        trim_front(front + rest, quotes()) == rest,
    decreases front.len(),
{
    let s = front + rest;
    if front.len() == 0 {
        assert(s =~= rest);
    } else {
        let tail = front.skip(1);
        assert(s[0] == front[0]);
        assert forall|i: int| 0 <= i < tail.len() implies #[trigger] tail[i] == '`' || tail[i] == '"' || tail[i] == '\'' by {
            assert(tail[i] == front[i + 1]);
        }
        quotes_in_front_are_trimmed(tail, rest);
        assert(s.skip(1) =~= tail + rest);
    }
}

proof fn a_slot_is_read(front: Seq<char>, name: Seq<char>, behind: Seq<char>)
    requires
        are_quotes(front),
        !name.contains('}'),
    ensures
        leading_slot(front + "${"@ + name + "}"@ + behind) == Some((front, name, behind)),
{
    reveal_strlit("${");
    reveal_strlit("}");
    assert("}"@ =~= seq!['}']);
    let rest = name + "}"@ + behind;
    let bare = "${"@ + rest;
    let target = front + "${"@ + name + "}"@ + behind;
    assert(target =~= front + bare);
    assert(bare[0] == '$');
    quotes_in_front_are_trimmed(front, bare);
    a_prefix_is_taken_off("${"@, rest);
    a_cut_is_where_it_stands(rest, '}', name, behind);
    assert(target.take(target.len() - bare.len()) =~= front);
}

/// A target that begins with a binding in an interpolation is written with the
/// variable that the binding reads, and all else as it is.
pub proof fn a_target_is_written_with_its_variable(
    front: Seq<char>,
    name: Seq<char>,
    behind: Seq<char>,
    aliases: Map<Seq<char>, Seq<char>>,
)
    requires
        are_quotes(front),
        !name.contains('}'),
    ensures
        aliases.contains_key(name) ==> env_target(front + "${"@ + name + "}"@ + behind, aliases) == Some(
            front + "${process.env."@ + aliases[name] + "}"@ + behind,
        ),
        !aliases.contains_key(name) ==> env_target(front + "${"@ + name + "}"@ + behind, aliases) is None,
{
    a_slot_is_read(front, name, behind);
}

/// A target that begins with a binding that holds a URL is written with the URL,
/// and what follows stands behind it as it is; where that begins with a slash,
/// the URL has none at its end.
pub proof fn a_target_is_written_with_its_url(
    front: Seq<char>,
    name: Seq<char>,
    behind: Seq<char>,
    bases: Map<Seq<char>, Seq<char>>,
)
    requires
        are_quotes(front),
        !name.contains('}'),
        bases.contains_key(name),
        bases[name].len() > 0,
        bases[name].last() != '/',
    ensures
        literal_target(front + "${"@ + name + "}"@ + behind, bases) == Some(front + bases[name] + behind),
        literal_target(front + "${"@ + name + "}"@ + behind, bases.insert(name, bases[name] + seq!['/'])) == Some(
            front + (if behind.len() > 0 && behind[0] == '/' {
                bases[name]
            } else {
                bases[name] + seq!['/']
            }) + behind,
        ),
{
    reveal_strlit("/");
    a_slot_is_read(front, name, behind);
    let base = bases[name];
    assert(has_prefix(behind, "/"@) <==> behind.len() > 0 && behind[0] == '/') by {
        if behind.len() > 0 && behind[0] == '/' {
            assert(behind.subrange(0, 1) =~= "/"@);
        }
        if has_prefix(behind, "/"@) {
            assert(behind.subrange(0, 1)[0] == behind[0]);
            assert("/"@[0] == '/');
        }
    }
    let slashed = base + seq!['/'];
    assert(slashed.drop_last() =~= base);
    assert(slashed.last() == '/');
    assert(trimmed_end_of(base, '/') == base);
    assert(trimmed_end_of(slashed, '/') == trimmed_end_of(base, '/'));
}

/// A target that begins otherwise is left alone.
pub proof fn a_target_without_a_binding_is_left(target: Seq<char>, map: Map<Seq<char>, Seq<char>>)
    requires
        target.len() > 0 ==> !quotes()(target[0]),
        !has_prefix(target, "${"@),
    ensures
        env_target(target, map) is None,
        literal_target(target, map) is None,
{
}

/// A name that stands alone: nothing to trim around it, and no interpolation.
pub open spec fn stands_alone(name: Seq<char>) -> bool {
    &&& name.len() > 0
    &&& trimmed(name) == name
    &&& !quotes()(name[0])
    &&& !quotes()(name.last())
    &&& !has_prefix(name, "${"@)
}

proof fn a_name_alone_is_read(name: Seq<char>)
    requires
        stands_alone(name),
    ensures
        whole_name(name) == name,
{
}

/// A call whose whole target is a binding goes to the variable that the binding
/// reads, with the path of the URL that is its default: the one kept for the
/// binding, or else the one kept for the variable.
pub proof fn a_whole_url_is_its_variable_and_its_path(
    name: Seq<char>,
    variable: Seq<char>,
    path: Seq<char>,
    aliases: Map<Seq<char>, Seq<char>>,
    fallbacks: Map<Seq<char>, Seq<char>>,
)
    requires
        stands_alone(name),
        !has_prefix(name, "process.env."@),
        aliases.contains_pair(name, variable),
        fallbacks.contains_key(name) ==> url_path(fallbacks[name]) == Some(path),
        !fallbacks.contains_key(name) && fallbacks.contains_key(variable) ==> url_path(fallbacks[variable]) == Some(path),
    ensures
        fallbacks.contains_key(name) || fallbacks.contains_key(variable) ==> whole_url_target(name, aliases, fallbacks) == Some(
            "${process.env."@ + variable + "}"@ + path,
        ),
        !fallbacks.contains_key(name) && !fallbacks.contains_key(variable) ==> whole_url_target(name, aliases, fallbacks) is None,
        fallbacks.contains_key(name) ==> whole_url(name, aliases, fallbacks) == Some((variable, fallbacks[name])),
{
    a_name_alone_is_read(name);
}

/// The characters that end a host.
pub open spec fn ends_host(c: char) -> bool {
    c == '/' || c == '?' || c == '#' || c == ':' || c == '@' || c == '['
}

proof fn an_authority_is_what_stands_before(s: Seq<char>, i: int)
    requires
        0 <= i <= s.len(),
        forall|j: int| 0 <= j < i ==> s[j] != '/' && s[j] != '?' && s[j] != '#',
        i < s.len() ==> s[i] == '/' || s[i] == '?' || s[i] == '#',
    ensures
        authority(s) == s.take(i),
    decreases i,
{
    if i == 0 {
        assert(s.take(0) =~= Seq::<char>::empty());
    } else {
        let t = s.skip(1);
        assert forall|j: int| 0 <= j < i - 1 implies t[j] != '/' && t[j] != '?' && t[j] != '#' by {
            assert(t[j] == s[j + 1]);
        }
        an_authority_is_what_stands_before(t, i - 1);
        assert(s.take(i) =~= seq![s[0]] + t.take(i - 1));
    }
}

/// A URL is on this machine exactly where its host is one of the machine's names,
/// whatever its port and its path.
pub proof fn a_url_is_on_this_machine_by_its_host(scheme: Seq<char>, host: Seq<char>, port: Seq<char>, path: Seq<char>)
    requires
        is_scheme(scheme),
        forall|i: int| 0 <= i < host.len() ==> !ends_host(#[trigger] host[i]),
        port.len() > 0 ==> port[0] == ':' && forall|i: int| 1 <= i < port.len() ==> !ends_host(#[trigger] port[i]),
        path.len() > 0 ==> path[0] == '/' || path[0] == '?' || path[0] == '#',
    ensures
        is_loopback(scheme + host + port + path) <==> host == "localhost"@ || host == "127.0.0.1"@ || host == "0.0.0.0"@
            || host == "::1"@,
{
    reveal_strlit(":");
    reveal_strlit("[");
    assert(":"@ =~= seq![':']);
    let spot = host + port;
    let rest = spot + path;
    let literal = scheme + host + port + path;
    assert(literal =~= scheme + rest);
    a_scheme_is_taken_off(literal, rest);
    assert forall|j: int| 0 <= j < spot.len() implies rest[j] != '/' && rest[j] != '?' && rest[j] != '#' by {
        if j < host.len() {
            assert(rest[j] == host[j]);
        } else {
            assert(rest[j] == port[j - host.len()]);
        }
    }
    an_authority_is_what_stands_before(rest, spot.len() as int);
    assert(rest.take(spot.len() as int) =~= spot);
    last_cut_cuts_at_the_last(spot, '@');
    if last_cut(spot, '@') is Some {
        let (before, behind) = last_cut(spot, '@')->0;
        let j = before.len() as int;
        assert(spot[j] == '@');
        if j < host.len() {
            assert(spot[j] == host[j]);
        } else {
            assert(spot[j] == port[j - host.len()]);
        }
    }
    if has_prefix(spot, "["@) {
        assert(spot.subrange(0, 1)[0] == spot[0]);
        assert("["@[0] == '[');
        if host.len() > 0 {
            assert(spot[0] == host[0]);
        } else {
            assert(spot[0] == port[0]);
        }
    }
    assert(!host.contains(':')) by {
        if host.contains(':') {
            let i = choose|i: int| 0 <= i < host.len() && host[i] == ':';
            assert(!ends_host(host[i]));
        }
    }
    if port.len() > 0 {
        assert(spot =~= host + seq![':'] + port.skip(1));
        a_cut_is_where_it_stands(spot, ':', host, port.skip(1));
    } else {
        assert(spot =~= host);
        cut_at_a_character(spot, ':');
        if first_cut(spot, ":"@) is Some {
            let (before, behind) = first_cut(spot, ":"@)->0;
            assert(spot[before.len() as int] == ':');
        }
    }
    assert(host_of(spot) == host);
}

} // verus!
