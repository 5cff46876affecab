//! What the operations behind one route are for.

use crate::config::{route_in, DeclaredOperationModel, DeclaredOperationsModel};
use crate::dispatch::{
    carried_row, declared_row, declared_rows, dispatch_json, dispatch_key, location_word, normal_table, not_serving, serves,
    serving, stamped, stated_values, switching_routes, table_json, tables_of, with_route_declared, DispatchLocation,
    DispatchModel, DispatchTable, DispatchTableModel, RouteNameModel,
};
use crate::json::JsonModel;
use crate::laws::findings::{has_field, lists_texts};
use crate::laws::pairs::{lowercase_words, same_word};
use crate::laws::texts::{a_cut_is_where_it_stands, a_last_cut_is_where_it_stands};
use crate::mount_graph::ResolvedEndpointModel;
use crate::operation::{canonical_key, EndpointProvenance, GraphqlKind, OperationKeyModel, SocketDirection, TypeVerdict};
use crate::text::{has_prefix, trimmed};
use vstd::prelude::*;

verus! {

/// The values of a table are those that say something, each once, in the order
/// in which they were first stated.
pub proof fn values_are_stated_once(values: Seq<Seq<char>>)
    ensures
        stated_values(values).no_duplicates(),
        forall|value: Seq<char>| #[trigger]
            stated_values(values).contains(value) <==> values.contains(value) && trimmed(value).len() > 0,
        forall|n: int| 0 <= n <= values.len() ==> stated_values(#[trigger] values.take(n)).len() <= stated_values(values).len()
            && stated_values(values).take(stated_values(values.take(n)).len() as int) == stated_values(values.take(n)),
    decreases values.len(),
{
    let all = stated_values(values);
    if values.len() == 0 {
        assert forall|n: int| 0 <= n <= values.len() implies stated_values(#[trigger] values.take(n)).len() <= all.len() && all.take(
            stated_values(values.take(n)).len() as int,
        ) == stated_values(values.take(n)) by {
            assert(values.take(n) =~= values);
            assert(all.take(all.len() as int) =~= all);
        }
    } else {
        let last = values[values.len() - 1];
        let init = values.drop_last();
        let before = stated_values(init);
        values_are_stated_once(init);
        assert(values.last() == last);
        assert forall|value: Seq<char>| #[trigger] all.contains(value) <==> values.contains(value) && trimmed(value).len() > 0 by {
            assert(before.contains(value) <==> init.contains(value) && trimmed(value).len() > 0);
            if all.contains(value) {
                let k = choose|k: int| 0 <= k < all.len() && all[k] == value;
                if k < before.len() {
                    assert(before[k] == value);
                    let j = choose|j: int| 0 <= j < init.len() && init[j] == value;
                    assert(values[j] == value);
                } else {
                    assert(values[values.len() - 1] == value);
                }
            }
            if values.contains(value) && trimmed(value).len() > 0 {
                let j = choose|j: int| 0 <= j < values.len() && values[j] == value;
                if j < init.len() {
                    assert(init[j] == value);
                    let k = choose|k: int| 0 <= k < before.len() && before[k] == value;
                    assert(all[k] == value);
                } else if before.contains(value) {
                    let k = choose|k: int| 0 <= k < before.len() && before[k] == value;
                    assert(all[k] == value);
                } else {
                    assert(all[all.len() - 1] == value);
                }
            }
        }
        assert forall|n: int| 0 <= n <= values.len() implies stated_values(#[trigger] values.take(n)).len() <= all.len() && all.take(
            stated_values(values.take(n)).len() as int,
        ) == stated_values(values.take(n)) by {
            if n == values.len() {
                assert(values.take(n) =~= values);
                assert(all.take(all.len() as int) =~= all);
            } else {
                assert(values.take(n) =~= init.take(n));
                let m = stated_values(init.take(n)).len() as int;
                assert(before.take(m) == stated_values(init.take(n)));
                assert(all.take(m) =~= before.take(m));
            }
        }
        if !before.contains(last) && trimmed(last).len() > 0 {
            assert forall|i: int, j: int| 0 <= i < all.len() && 0 <= j < all.len() && i != j implies all[i] != all[j] by {
                if i < before.len() && j < before.len() {
                    assert(before[i] != before[j]);
                } else if i < before.len() {
                    assert(before.contains(before[i]));
                } else {
                    assert(before.contains(before[j]));
                }
            }
        }
    }
}

/// A table that is kept names its field without the space around it, and keeps
/// all else; one without a field, or without a value that says something, is
/// dropped.
pub proof fn a_table_keeps_its_place(table: DispatchTableModel)
    ensures
        normal_table(table) is Some <==> trimmed(table.field).len() > 0 && exists|i: int|
            0 <= i < table.values.len() && trimmed(#[trigger] table.values[i]).len() > 0,
        normal_table(table) matches Some(kept) ==> {
            &&& kept.location == table.location
            &&& kept.field == trimmed(table.field)
            &&& kept.handler_name == table.handler_name
            &&& kept.file_path == table.file_path
            &&& kept.line_number == table.line_number
            &&& kept.service_name == table.service_name
            &&& kept.repo_name == table.repo_name
            &&& forall|value: Seq<char>| #[trigger]
                kept.values.contains(value) <==> table.values.contains(value) && trimmed(value).len() > 0
        },
{
    values_are_stated_once(table.values);
    let kept = stated_values(table.values);
    if kept.len() > 0 {
        assert(kept.contains(kept[0]));
        let i = choose|i: int| 0 <= i < table.values.len() && table.values[i] == kept[0];
        assert(trimmed(table.values[i]).len() > 0);
    }
    if exists|i: int| 0 <= i < table.values.len() && trimmed(#[trigger] table.values[i]).len() > 0 {
        let i = choose|i: int| 0 <= i < table.values.len() && trimmed(#[trigger] table.values[i]).len() > 0;
        assert(table.values.contains(table.values[i]));
        assert(kept.contains(table.values[i]));
    }
}

/// Every table of a file is listed, as it is, under the file.
pub proof fn a_table_is_listed_under_its_file(files: Seq<(String, Vec<DispatchTable>)>, i: int, j: int)
    requires
        0 <= i < files.len(),
        0 <= j < files[i].1.deep_view().len(),
    ensures
        exists|k: int|
            0 <= k < tables_of(files).len() && (#[trigger] tables_of(files)[k]) == (DispatchTableModel {
                file_path: files[i].0@,
                ..files[i].1.deep_view()[j]
            }),
    decreases files.len(),
{
    let all = tables_of(files);
    let before = tables_of(files.drop_last());
    if i == files.len() - 1 {
        assert(all[before.len() + j] == stamped(files[i].1.deep_view(), files[i].0@)[j]);
    } else {
        assert(files.drop_last()[i] == files[i]);
        a_table_is_listed_under_its_file(files.drop_last(), i, j);
        let k = choose|k: int|
            0 <= k < before.len() && (#[trigger] before[k]) == (DispatchTableModel {
                file_path: files[i].0@,
                ..files[i].1.deep_view()[j]
            });
        assert(all[k] == before[k]);
    }
}

/// A row is one of a route: the same method in either case, and the path.
pub open spec fn is_of_route(endpoint: ResolvedEndpointModel, route: RouteNameModel) -> bool {
    same_word(endpoint.method, route.method) && endpoint.full_path == route.path
}

proof fn rows_that_serve(endpoints: Seq<ResolvedEndpointModel>, route: RouteNameModel, row: ResolvedEndpointModel)
    ensures
        serves(row, route) <==> is_of_route(row, route),
        not_serving(endpoints, route).contains(row) <==> endpoints.contains(row) && !is_of_route(row, route),
        serving(endpoints, route).contains(row) <==> endpoints.contains(row) && is_of_route(row, route),
    decreases endpoints.len(),
{
    lowercase_words(row.method, route.method);
    if endpoints.len() > 0 {
        let n = endpoints.len() - 1;
        let last = endpoints[n];
        let init = endpoints.drop_last();
        rows_that_serve(init, route, row);
        lowercase_words(last.method, route.method);
        assert(endpoints =~= init.push(last));
        contains_after_push(init, last, row);
        contains_after_push(not_serving(init, route), last, row);
        contains_after_push(serving(init, route), last, row);
    }
}

proof fn contains_after_push<A>(s: Seq<A>, x: A, y: A)
    ensures
        s.push(x).contains(y) <==> s.contains(y) || x == y,
{
    let t = s.push(x);
    if s.contains(y) {
        let k = choose|k: int| 0 <= k < s.len() && s[k] == y;
        assert(t[k] == y);
    }
    if x == y {
        assert(t[s.len() as int] == y);
    }
    if t.contains(y) {
        let k = choose|k: int| 0 <= k < t.len() && t[k] == y;
        if k < s.len() {
            assert(s[k] == y);
        }
    }
}

/// A declared operation of a route, as a row: the route, the value on the block's
/// field, and where its handler stands.
pub open spec fn is_declared(
    row: ResolvedEndpointModel,
    block: DeclaredOperationsModel,
    route: RouteNameModel,
    operation: DeclaredOperationModel,
) -> bool {
    &&& row.method == route.method
    &&& row.path == route.path
    &&& row.full_path == route.path
    &&& row.dispatch == Some(
        DispatchModel { location: block.dispatch.location, field: block.dispatch.field, value: operation.value },
    )
    &&& operation.handler is Some ==> forall|file: Seq<char>, symbol: Seq<char>|
        operation.handler->0 == #[trigger] (file + seq![':'] + symbol) && !symbol.contains(':') && trimmed(file).len() > 0
            ==> row.handler == Some(symbol) && row.file_location == file + ":0"@
}

/// A declaration of a route replaces the rows of that route, in whatever case
/// their method is written, by one row for each declared operation, in order,
/// and leaves every other row. Where one row is replaced, its owner carries over.
pub proof fn a_declaration_replaces_the_rows_of_its_route(
    endpoints: Seq<ResolvedEndpointModel>,
    block: DeclaredOperationsModel,
    route: RouteNameModel,
)
    ensures
        ({
            let after = with_route_declared(endpoints, block, route);
            let kept = after.len() - block.operations.len();
            &&& kept >= 0
            &&& forall|row: ResolvedEndpointModel| #[trigger]
                after.take(kept).contains(row) <==> endpoints.contains(row) && !is_of_route(row, route)
            &&& forall|i: int|
                0 <= i < block.operations.len() ==> is_declared(
                    #[trigger] after[kept + i],
                    block,
                    route,
                    block.operations[i],
                )
            &&& forall|i: int, replaced: int|
                #![trigger after[kept + i], endpoints[replaced]]
                0 <= i < block.operations.len() && 0 <= replaced < endpoints.len() && is_of_route(endpoints[replaced], route) && (
                forall|other: int|
                    0 <= other < endpoints.len() && is_of_route(#[trigger] endpoints[other], route) ==> other == replaced)
                    ==> after[kept + i].owner == endpoints[replaced].owner && after[kept + i].provenance
                    == endpoints[replaced].provenance
        }),
{
    let after = with_route_declared(endpoints, block, route);
    let rest = not_serving(endpoints, route);
    let carried = carried_row(endpoints, route);
    let rows = declared_rows(block, route, carried);
    let kept = after.len() - block.operations.len();
    assert(rows.len() == block.operations.len());
    assert(after.take(kept) =~= rest);
    assert forall|row: ResolvedEndpointModel| #[trigger] after.take(kept).contains(row) <==> endpoints.contains(row)
        && !is_of_route(row, route) by {
        rows_that_serve(endpoints, route, row);
    }
    assert forall|i: int| 0 <= i < block.operations.len() implies is_declared(
        #[trigger] after[kept + i],
        block,
        route,
        block.operations[i],
    ) by {
        let operation = block.operations[i];
        assert(after[kept + i] == rows[i]);
        assert(rows[i] == declared_row(block, route, operation, carried));
        if operation.handler is Some {
            assert forall|file: Seq<char>, symbol: Seq<char>|
                operation.handler->0 == #[trigger] (file + seq![':'] + symbol) && !symbol.contains(':') && trimmed(file).len()
                    > 0 implies rows[i].handler == Some(symbol) && rows[i].file_location == file + ":0"@ by {
                a_last_cut_is_where_it_stands(file, ':', symbol);
            }
        }
    }
    assert forall|i: int, replaced: int|
        #![trigger after[kept + i], endpoints[replaced]]
        0 <= i < block.operations.len() && 0 <= replaced < endpoints.len() && is_of_route(endpoints[replaced], route) && (
        forall|other: int|
            0 <= other < endpoints.len() && is_of_route(#[trigger] endpoints[other], route) ==> other
                == replaced) implies after[kept + i].owner == endpoints[replaced].owner && after[kept + i].provenance
        == endpoints[replaced].provenance by {
        assert(after[kept + i] == rows[i]);
        one_row_serves(endpoints, route, replaced);
    }
}

proof fn one_row_serves(endpoints: Seq<ResolvedEndpointModel>, route: RouteNameModel, replaced: int)
    requires
        0 <= replaced < endpoints.len(),
        is_of_route(endpoints[replaced], route),
        forall|other: int| 0 <= other < endpoints.len() && is_of_route(#[trigger] endpoints[other], route) ==> other == replaced,
    ensures
        serving(endpoints, route) == seq![endpoints[replaced]],
    decreases endpoints.len(),
{
    let n = endpoints.len() - 1;
    let init = endpoints.drop_last();
    lowercase_words(endpoints[n].method, route.method);
    assert(endpoints.last() == endpoints[n]);
    if replaced == n {
        assert forall|other: int| 0 <= other < init.len() implies !is_of_route(#[trigger] init[other], route) by {
            assert(init[other] == endpoints[other]);
        }
        no_row_serves(init, route);
        assert(serving(endpoints, route) =~= seq![endpoints[replaced]]);
    } else {
        assert forall|other: int| 0 <= other < init.len() && is_of_route(#[trigger] init[other], route) implies other
            == replaced by {
            assert(init[other] == endpoints[other]);
        }
        assert(init[replaced] == endpoints[replaced]);
        one_row_serves(init, route, replaced);
        assert(!is_of_route(endpoints[n], route));
    }
}

proof fn no_row_serves(endpoints: Seq<ResolvedEndpointModel>, route: RouteNameModel)
    requires
        forall|other: int| 0 <= other < endpoints.len() ==> !is_of_route(#[trigger] endpoints[other], route),
    ensures
        serving(endpoints, route) == Seq::<ResolvedEndpointModel>::empty(),
    decreases endpoints.len(),
{
    if endpoints.len() > 0 {
        let init = endpoints.drop_last();
        lowercase_words(endpoints.last().method, route.method);
        assert(!is_of_route(endpoints[endpoints.len() - 1], route));
        assert forall|other: int| 0 <= other < init.len() implies !is_of_route(#[trigger] init[other], route) by {
            assert(init[other] == endpoints[other]);
        }
        no_row_serves(init, route);
    }
}

/// A block that names no route applies to the routes that switch on its field at
/// its place.
pub proof fn a_block_without_a_route_applies_where_its_field_is_switched_on(
    endpoints: Seq<ResolvedEndpointModel>,
    block: DeclaredOperationsModel,
    route: RouteNameModel,
)
    ensures
        switching_routes(endpoints, block).contains(route) <==> exists|i: int|
            0 <= i < endpoints.len() && (#[trigger] endpoints[i]).method == route.method && endpoints[i].full_path == route.path
                && (endpoints[i].dispatch matches Some(on) && on.location == block.dispatch.location && on.field
                == block.dispatch.field),
    decreases endpoints.len(),
{
    if endpoints.len() > 0 {
        let n = endpoints.len() - 1;
        let init = endpoints.drop_last();
        let before = switching_routes(init, block);
        a_block_without_a_route_applies_where_its_field_is_switched_on(init, block, route);
        assert(endpoints.last() == endpoints[n]);
        contains_after_push(before, RouteNameModel { method: endpoints[n].method, path: endpoints[n].full_path }, route);
        assert forall|i: int| 0 <= i < n implies #[trigger] endpoints[i] == init[i] by {}
        if before.contains(route) {
            let i = choose|i: int|
                0 <= i < init.len() && (#[trigger] init[i]).method == route.method && init[i].full_path == route.path && (
                init[i].dispatch matches Some(on) && on.location == block.dispatch.location && on.field == block.dispatch.field);
            assert(endpoints[i].method == route.method);
        }
        if exists|i: int|
            0 <= i < endpoints.len() && (#[trigger] endpoints[i]).method == route.method && endpoints[i].full_path == route.path
                && (endpoints[i].dispatch matches Some(on) && on.location == block.dispatch.location && on.field
                == block.dispatch.field) {
            let i = choose|i: int|
                0 <= i < endpoints.len() && (#[trigger] endpoints[i]).method == route.method && endpoints[i].full_path
                    == route.path && (endpoints[i].dispatch matches Some(on) && on.location == block.dispatch.location && on.field
                    == block.dispatch.field);
            if i < n {
                assert(init[i].method == route.method);
            }
        }
    }
}

/// A route is written as its method, a space and its path.
pub proof fn a_route_is_its_method_and_its_path(method: Seq<char>, path: Seq<char>)
    requires
        !method.contains(' '),
        trimmed(method + seq![' '] + path) == method + seq![' '] + path,
        trimmed(path) == path,
    ensures
        route_in(method + seq![' '] + path) == (if path.len() > 0 && path[0] == '/' {
            Some((method, path))
        } else {
            None
        }),
{
    reveal_strlit(" ");
    reveal_strlit("/");
    assert(" "@ =~= seq![' ']);
    a_cut_is_where_it_stands(method + seq![' '] + path, ' ', method, path);
    if path.len() > 0 && path[0] == '/' {
        assert(path.subrange(0, 1) =~= "/"@);
    }
    if has_prefix(path, "/"@) {
        assert(path.subrange(0, 1)[0] == path[0]);
        assert("/"@[0] == '/');
    }
}

/// Two operations have one key exactly where place, field and value are one, as
/// long as the field holds no equals sign.
pub proof fn operations_are_told_apart_by_their_keys(a: DispatchModel, b: DispatchModel)
    requires
        !a.field.contains('='),
        !b.field.contains('='),
        dispatch_key(a) == dispatch_key(b),
    ensures
        a == b,
{
    reveal_strlit("body");
    reveal_strlit("header");
    reveal_strlit(":");
    reveal_strlit("=");
    let x = dispatch_key(a);
    let y = dispatch_key(b);
    if a.location != b.location {
        assert(x[0] == location_word(a.location)[0]);
        assert(y[0] == location_word(b.location)[0]);
        assert("body"@[0] == 'b');
        assert("header"@[0] == 'h');
    }
    let head = location_word(a.location) + ":"@;
    let rest = a.field + "="@ + a.value;
    let other = b.field + "="@ + b.value;
    assert(x =~= head + rest);
    assert(y =~= head + other);
    assert(rest =~= x.skip(head.len() as int));
    assert(other =~= y.skip(head.len() as int));
    assert("="@ =~= seq!['=']);
    a_cut_is_where_it_stands(rest, '=', a.field, a.value);
    a_cut_is_where_it_stands(rest, '=', b.field, b.value);
}

// ---------------------------------------------------------------------------
// Words and texts
// ---------------------------------------------------------------------------

/// Two texts behind a word without a bar, and the bar, are told apart.
proof fn parted_alike(a: Seq<char>, rest_a: Seq<char>, b: Seq<char>, rest_b: Seq<char>)
    requires
        !a.contains('|'),
        !b.contains('|'),
        a + seq!['|'] + rest_a == b + seq!['|'] + rest_b,
    ensures
        a == b,
        rest_a == rest_b,
{
    let s = a + seq!['|'] + rest_a;
    a_cut_is_where_it_stands(s, '|', a, rest_a);
    a_cut_is_where_it_stands(s, '|', b, rest_b);
}

proof fn labels_differ(a: SocketDirection, b: SocketDirection)
    ensures
        !a.label_text().contains('|'),
        a.label_text() == b.label_text() ==> a == b,
{
    reveal_strlit("SERVER->CLIENT");
    reveal_strlit("CLIENT->SERVER");
    assert("SERVER->CLIENT"@[0] == 'S');
    assert("CLIENT->SERVER"@[0] == 'C');
}

proof fn kinds_differ(a: GraphqlKind, b: GraphqlKind)
    ensures
        !a.kind_text().contains('|'),
        a.kind_text() == b.kind_text() ==> a == b,
{
    reveal_strlit("query");
    reveal_strlit("mutation");
    reveal_strlit("subscription");
    assert("query"@[0] == 'q');
    assert("mutation"@[0] == 'm');
    assert("subscription"@[0] == 's');
}

/// A key whose method, where it has one, holds no bar.
pub open spec fn is_keyed(key: OperationKeyModel) -> bool {
    key matches OperationKeyModel::Http { method, path } ==> !method.contains('|')
}

/// Two operations that are not the same have different texts, whatever protocols
/// they belong to, where no method holds a bar.
pub proof fn operations_are_told_apart(a: OperationKeyModel, b: OperationKeyModel)
    requires
        is_keyed(a),
        is_keyed(b),
    ensures
        canonical_key(a) == canonical_key(b) ==> a == b,
{
    reveal_strlit("http|");
    reveal_strlit("socket|");
    reveal_strlit("graphql|");
    reveal_strlit("pubsub|");
    reveal_strlit("|");
    assert("|"@ =~= seq!['|']);
    let s = canonical_key(a);
    let t = canonical_key(b);
    assert(a is Http ==> s[0] == 'h');
    assert(a is Socket ==> s[0] == 's');
    assert(a is Graphql ==> s[0] == 'g');
    assert(a is Pubsub ==> s[0] == 'p');
    assert(b is Http ==> t[0] == 'h');
    assert(b is Socket ==> t[0] == 's');
    assert(b is Graphql ==> t[0] == 'g');
    assert(b is Pubsub ==> t[0] == 'p');
    if s == t {
        match (a, b) {
            (OperationKeyModel::Http { method, path }, OperationKeyModel::Http { method: other, path: place }) => {
                assert(s.skip(5) =~= method + seq!['|'] + path);
                assert(t.skip(5) =~= other + seq!['|'] + place);
                parted_alike(method, path, other, place);
            },
            (OperationKeyModel::Socket { event, direction }, OperationKeyModel::Socket { event: other, direction: way }) => {
                labels_differ(direction, way);
                labels_differ(way, direction);
                assert(s.skip(7) =~= direction.label_text() + seq!['|'] + event);
                assert(t.skip(7) =~= way.label_text() + seq!['|'] + other);
                parted_alike(direction.label_text(), event, way.label_text(), other);
            },
            (OperationKeyModel::Graphql { kind, field }, OperationKeyModel::Graphql { kind: sort, field: other }) => {
                kinds_differ(kind, sort);
                kinds_differ(sort, kind);
                assert(s.skip(8) =~= kind.kind_text() + seq!['|'] + field);
                assert(t.skip(8) =~= sort.kind_text() + seq!['|'] + other);
                parted_alike(kind.kind_text(), field, sort.kind_text(), other);
            },
            (OperationKeyModel::Pubsub { topic }, OperationKeyModel::Pubsub { topic: other }) => {
                assert(s.skip(7) =~= topic);
                assert(t.skip(7) =~= other);
            },
            _ => {},
        }
    }
}

/// Different things have different words on the wire.
pub proof fn words_are_told_apart(
    provenances: (EndpointProvenance, EndpointProvenance),
    verdicts: (TypeVerdict, TypeVerdict),
    places: (DispatchLocation, DispatchLocation),
)
    ensures
        provenances.0.wire_text() == provenances.1.wire_text() ==> provenances.0 == provenances.1,
        verdicts.0.wire_text() == verdicts.1.wire_text() ==> verdicts.0 == verdicts.1,
        location_word(places.0) == location_word(places.1) ==> places.0 == places.1,
{
    reveal_strlit("route");
    reveal_strlit("mock");
    reveal_strlit("compatible");
    reveal_strlit("incompatible");
    reveal_strlit("unverifiable");
    reveal_strlit("body");
    reveal_strlit("header");
    assert("route"@.len() == 5);
    assert("mock"@.len() == 4);
    assert("compatible"@[0] == 'c');
    assert("incompatible"@[0] == 'i');
    assert("unverifiable"@[0] == 'u');
    assert("body"@.len() == 4);
    assert("header"@.len() == 6);
}

/// A table says on the wire all that it holds, each under its own name.
pub proof fn a_table_says_all_it_holds(table: DispatchTableModel)
    ensures
        table_json(table) matches JsonModel::Object(fields) && {
            &&& has_field(fields, "location"@, JsonModel::Text(location_word(table.location)))
            &&& has_field(fields, "field"@, JsonModel::Text(table.field))
            &&& lists_texts(fields, "values"@, table.values)
            &&& table.handler_name matches Some(said) ==> has_field(fields, "handler_name"@, JsonModel::Text(said))
            &&& table.file_path.len() > 0 ==> has_field(fields, "file_path"@, JsonModel::Text(table.file_path))
            &&& table.line_number matches Some(line) ==> has_field(fields, "line_number"@, JsonModel::Number(line as u64))
            &&& table.service_name matches Some(said) ==> has_field(fields, "service_name"@, JsonModel::Text(said))
            &&& table.repo_name matches Some(said) ==> has_field(fields, "repo_name"@, JsonModel::Text(said))
        },
{
    let fields = table_json(table)->Object_0;
    assert(fields[0].0 == "location"@);
    assert(fields[1].0 == "field"@);
    assert(fields[2].0 == "values"@);
    let a: int = 3;
    let b: int = if table.handler_name is Some {
        a + 1
    } else {
        a
    };
    let c: int = if table.file_path.len() > 0 {
        b + 1
    } else {
        b
    };
    let d: int = if table.line_number is Some {
        c + 1
    } else {
        c
    };
    let e: int = if table.service_name is Some {
        d + 1
    } else {
        d
    };
    if table.handler_name is Some {
        assert(fields[a].0 == "handler_name"@);
    }
    if table.file_path.len() > 0 {
        assert(fields[b].0 == "file_path"@);
    }
    if table.line_number is Some {
        assert(fields[c].0 == "line_number"@);
    }
    if table.service_name is Some {
        assert(fields[d].0 == "service_name"@);
    }
    if table.repo_name is Some {
        assert(fields[e].0 == "repo_name"@);
    }
}

/// A dispatch says on the wire where its field is read, the field and the value.
pub proof fn a_dispatch_says_all_it_holds(dispatch: DispatchModel)
    ensures
        dispatch_json(dispatch) matches JsonModel::Object(fields) && {
            &&& has_field(fields, "location"@, JsonModel::Text(location_word(dispatch.location)))
            &&& has_field(fields, "field"@, JsonModel::Text(dispatch.field))
            &&& has_field(fields, "value"@, JsonModel::Text(dispatch.value))
        },
{
    let fields = dispatch_json(dispatch)->Object_0;
    assert(fields[0].0 == "location"@);
    assert(fields[1].0 == "field"@);
    assert(fields[2].0 == "value"@);
}

} // verus!
