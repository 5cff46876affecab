//! Body dispatch: one route, many operations.
//!
//! A handler that reads a field of the request and switches on it serves several
//! operations behind one method and path. A [`Dispatch`] on a row that serves
//! names the field and the value that this operation answers; on a row that
//! calls, the value that the call sends. A [`DispatchTable`] is a fact about a
//! handler: the field it switches on and the values it answers. A row without a
//! dispatch is a plain route.

use crate::config::{
    route_in, Config, DeclaredOperation, DeclaredOperationModel, DeclaredOperations, DeclaredOperationsModel,
};
use crate::duplicate::Duplicate;
use crate::findings::ResolutionSource;
use crate::json::{fields_model, json_model, push_field, push_text, text_list, texts, Json, JsonModel};
use crate::mount_graph::{MatchEvidence, MountGraph, ResolvedEndpoint, ResolvedEndpointModel};
use crate::operation::EndpointProvenance;
use crate::ordered::{keys_ascend, listing_is_determined, map_of, TextMap};
use crate::sorting::{by_rank_once, place_once, Ranked, Sortable};
use crate::text::{
    ascii_lowercase, concat, concat3, copy_list, copy_option, counted, last_cut, less, list_contains, rsplit_once, same,
    same_ignoring_case, text_less, text_less_irreflexive, text_less_total, text_less_transitive, trim, trimmed, trimmed_stays,
};
use vstd::prelude::*;

verus! {

/// Where the dispatch field is read from.
#[derive(Debug, Clone, Copy, PartialEq, Eq, Structural)]
pub enum DispatchLocation {
    /// A field of the request body.
    Body,
    /// A request header.
    Header,
}

pub open spec fn location_word(location: DispatchLocation) -> Seq<char> {
    match location {
        DispatchLocation::Body => "body"@,
        DispatchLocation::Header => "header"@,
    }
}

impl DispatchLocation {
    pub fn as_str(&self) -> (r: &'static str)
        ensures
            r@ == location_word(*self),
    {
        match self {
            DispatchLocation::Body => "body",
            DispatchLocation::Header => "header",
        }
    }

    /// The location that a word on the wire names.
    pub fn from_word(word: &str) -> (r: Option<DispatchLocation>)
        ensures
            match r {
                Some(location) => word@ == location_word(location),
                None => word@ != "body"@ && word@ != "header"@,
            },
    {
        if same(word, "body") {
            Some(DispatchLocation::Body)
        } else if same(word, "header") {
            Some(DispatchLocation::Header)
        } else {
            None
        }
    }
}

/// One dispatch case: the field that a handler switches on, and the value that
/// this side states for it.
#[derive(Debug, Clone, PartialEq, Eq)]
pub struct Dispatch {
    pub location: DispatchLocation,
    /// The field as the source writes it.
    pub field: String,
    /// The value, verbatim.
    pub value: String,
}

/// What a [`Dispatch`] holds.
pub struct DispatchModel {
    pub location: DispatchLocation,
    pub field: Seq<char>,
    pub value: Seq<char>,
}

impl DeepView for Dispatch {
    type V = DispatchModel;

    open spec fn deep_view(&self) -> DispatchModel {
        DispatchModel {
            location: self.location,
            field: self.field@,
            value: self.value@,
        }
    }
}

impl Duplicate for Dispatch {
    fn duplicate(&self) -> (r: Self) {
        Dispatch {
            location: self.location,
            field: self.field.clone(),
            value: self.value.clone(),
        }
    }
}

/// The key of a case: it tells the operations behind one route apart.
pub open spec fn dispatch_key(dispatch: DispatchModel) -> Seq<char> {
    location_word(dispatch.location) + ":"@ + dispatch.field + "="@ + dispatch.value
}

impl Dispatch {
    pub fn key(&self) -> (r: String)
        ensures
            r@ == dispatch_key(self.deep_view()),
    {
        let mut r = concat3(self.location.as_str(), ":", self.field.as_str());
        r.append("=");
        r.append(self.value.as_str());
        r
    }

    /// The key of a case, where there is one.
    pub fn key_of(dispatch: Option<&Dispatch>) -> (r: Option<String>)
        ensures
            r.deep_view() == (match dispatch {
                Some(d) => Some(dispatch_key(d.deep_view())),
                None => None,
            }),
    {
        match dispatch {
            Some(d) => Some(d.key()),
            None => None,
        }
    }

    /// What the key of a route needs behind it so that the cases of one route
    /// stay apart. Nothing for a plain route.
    pub fn key_suffix(dispatch: Option<&Dispatch>) -> (r: String)
        ensures
            r@ == (match dispatch {
                Some(d) => "#"@ + dispatch_key(d.deep_view()),
                None => Seq::empty(),
            }),
    {
        match dispatch {
            Some(d) => concat("#", d.key().as_str()),
            None => String::new(),
        }
    }

    /// The case on the wire.
    pub fn serialize(&self) -> (r: Json)
        ensures
            json_model(r) == dispatch_json(self.deep_view()),
    {
        let mut fields: Vec<(String, Json)> = Vec::new();
        push_text(&mut fields, "location", self.location.as_str());
        push_text(&mut fields, "field", self.field.as_str());
        push_text(&mut fields, "value", self.value.as_str());
        assert(fields_model(fields@) =~= dispatch_json(self.deep_view())->Object_0);
        Json::Object(fields)
    }
}

pub open spec fn dispatch_json(dispatch: DispatchModel) -> JsonModel {
    JsonModel::Object(
        seq![
            ("location"@, JsonModel::Text(location_word(dispatch.location))),
            ("field"@, JsonModel::Text(dispatch.field)),
            ("value"@, JsonModel::Text(dispatch.value)),
        ],
    )
}

/// What one handler switches on, and every value that it answers.
#[derive(Debug, Clone, PartialEq, Eq)]
pub struct DispatchTable {
    pub location: DispatchLocation,
    pub field: String,
    /// The values, in the order in which they were stated.
    pub values: Vec<String>,
    pub handler_name: Option<String>,
    pub file_path: String,
    pub line_number: Option<u32>,
    pub service_name: Option<String>,
    pub repo_name: Option<String>,
}

/// What a [`DispatchTable`] holds.
pub struct DispatchTableModel {
    pub location: DispatchLocation,
    pub field: Seq<char>,
    pub values: Seq<Seq<char>>,
    pub handler_name: Option<Seq<char>>,
    pub file_path: Seq<char>,
    pub line_number: Option<u32>,
    pub service_name: Option<Seq<char>>,
    pub repo_name: Option<Seq<char>>,
}

impl DeepView for DispatchTable {
    type V = DispatchTableModel;

    open spec fn deep_view(&self) -> DispatchTableModel {
        DispatchTableModel {
            location: self.location,
            field: self.field@,
            values: self.values.deep_view(),
            handler_name: self.handler_name.deep_view(),
            file_path: self.file_path@,
            line_number: self.line_number,
            service_name: self.service_name.deep_view(),
            repo_name: self.repo_name.deep_view(),
        }
    }
}

impl Duplicate for DispatchTable {
    fn duplicate(&self) -> (r: Self) {
        DispatchTable {
            location: self.location,
            field: self.field.clone(),
            values: copy_list(&self.values),
            handler_name: copy_option(&self.handler_name),
            file_path: self.file_path.clone(),
            line_number: self.line_number,
            service_name: copy_option(&self.service_name),
            repo_name: copy_option(&self.repo_name),
        }
    }
}

/// The values that state something, each once, in their order.
pub open spec fn stated_values(values: Seq<Seq<char>>) -> Seq<Seq<char>>
    decreases values.len(),
{
    if values.len() == 0 {
        Seq::empty()
    } else {
        let before = stated_values(values.drop_last());
        if trimmed(values.last()).len() == 0 || before.contains(values.last()) {
            before
        } else {
            before.push(values.last())
        }
    }
}

fn keep_stated(values: &Vec<String>) -> (r: Vec<String>)
    ensures
        r.deep_view() == stated_values(values.deep_view()),
{
    let ghost all = values.deep_view();
    let mut r: Vec<String> = Vec::new();
    let mut i: usize = 0;
    assert(r.deep_view() =~= stated_values(all.take(0)));
    while i < values.len()
        invariant
            i <= values.len(),
            all == values.deep_view(),
            r.deep_view() == stated_values(all.take(i as int)),
        decreases values.len() - i,
    {
        let ghost before = r.deep_view();
        assert(all.take(i + 1).drop_last() == all.take(i as int));
        assert(all.take(i + 1).last() == values@[i as int]@);
        if !trim(values[i].as_str()).as_str().is_empty() && !list_contains(&r, values[i].as_str()) {
            r.push(values[i].clone());
            assert(r.deep_view() =~= before.push(values@[i as int]@));
        }
        i += 1;
    }
    assert(all.take(all.len() as int) == all);
    r
}

/// A table worth carrying: one that states a field and a value.
pub open spec fn normal_table(table: DispatchTableModel) -> Option<DispatchTableModel> {
    if trimmed(table.field).len() == 0 || stated_values(table.values).len() == 0 {
        None
    } else {
        Some(DispatchTableModel { field: trimmed(table.field), values: stated_values(table.values), ..table })
    }
}

pub open spec fn optional_field(key: Seq<char>, value: Option<Seq<char>>) -> Seq<(Seq<char>, JsonModel)> {
    match value {
        Some(value) => seq![(key, JsonModel::Text(value))],
        None => Seq::empty(),
    }
}

/// The table on the wire. What is absent is left out.
pub open spec fn table_json(table: DispatchTableModel) -> JsonModel {
    JsonModel::Object(
        seq![
            ("location"@, JsonModel::Text(location_word(table.location))),
            ("field"@, JsonModel::Text(table.field)),
            ("values"@, texts(table.values)),
        ] + optional_field("handler_name"@, table.handler_name) + optional_field(
            "file_path"@,
            if table.file_path.len() == 0 {
                None
            } else {
                Some(table.file_path)
            },
        ) + (match table.line_number {
            Some(line) => seq![("line_number"@, JsonModel::Number(line as u64))],
            None => Seq::empty(),
        }) + optional_field("service_name"@, table.service_name) + optional_field("repo_name"@, table.repo_name),
    )
}

fn push_stated(fields: &mut Vec<(String, Json)>, key: &str, value: &Option<String>)
    ensures
        fields_model(final(fields)@) == fields_model(old(fields)@) + optional_field(key@, value.deep_view()),
{
    match value {
        Some(value) => push_text(fields, key, value.as_str()),
        None => {},
    }
    assert(fields_model(fields@) =~= fields_model(old(fields)@) + optional_field(key@, value.deep_view()));
}

impl DispatchTable {
    /// Drops blank and repeated values, and a table that then states no field
    /// or no value.
    pub fn normalized(self) -> (r: Option<Self>)
        ensures
            r.deep_view() == normal_table(self.deep_view()),
    {
        let field = trim(self.field.as_str());
        if field.as_str().is_empty() {
            return None;
        }
        let values = keep_stated(&self.values);
        assert(values.deep_view().len() == values@.len());
        if values.len() == 0 {
            return None;
        }
        Some(
            DispatchTable {
                location: self.location,
                field,
                values,
                handler_name: self.handler_name,
                file_path: self.file_path,
                line_number: self.line_number,
                service_name: self.service_name,
                repo_name: self.repo_name,
            },
        )
    }

    pub fn serialize(&self) -> (r: Json)
        ensures
            json_model(r) == table_json(self.deep_view()),
    {
        let mut fields: Vec<(String, Json)> = Vec::new();
        push_text(&mut fields, "location", self.location.as_str());
        push_text(&mut fields, "field", self.field.as_str());
        push_field(&mut fields, "values", text_list(&self.values, self.values.len()));
        let ghost all = self.values.deep_view();
        assert(all.take(all.len() as int) =~= all);
        assert(fields_model(fields@) =~= seq![
            ("location"@, JsonModel::Text(location_word(self.location))),
            ("field"@, JsonModel::Text(self.field@)),
            ("values"@, texts(all)),
        ]);
        push_stated(&mut fields, "handler_name", &self.handler_name);
        if !self.file_path.as_str().is_empty() {
            push_text(&mut fields, "file_path", self.file_path.as_str());
        }
        let ghost path: Option<Seq<char>> = if self.file_path@.len() == 0 {
            None
        } else {
            Some(self.file_path@)
        };
        assert(fields_model(fields@) =~= seq![
            ("location"@, JsonModel::Text(location_word(self.location))),
            ("field"@, JsonModel::Text(self.field@)),
            ("values"@, texts(all)),
        ] + optional_field("handler_name"@, self.handler_name.deep_view()) + optional_field("file_path"@, path));
        let ghost before = fields_model(fields@);
        let ghost line: Seq<(Seq<char>, JsonModel)> = match self.line_number {
            Some(line) => seq![("line_number"@, JsonModel::Number(line as u64))],
            None => Seq::empty(),
        };
        match self.line_number {
            Some(line) => push_field(&mut fields, "line_number", Json::Number(line as u64)),
            None => {},
        }
        assert(fields_model(fields@) =~= before + line);
        push_stated(&mut fields, "service_name", &self.service_name);
        push_stated(&mut fields, "repo_name", &self.repo_name);
        Json::Object(fields)
    }
}

/// Normalizing a table a second time changes nothing.
pub proof fn normal_tables_stay(table: DispatchTableModel)
    requires
        normal_table(table) is Some,
    ensures
        normal_table(normal_table(table)->0) == normal_table(table),
{
    let once = stated_values(table.values);
    stated_values_stay(table.values);
    trimmed_stays(table.field);
    assert(stated_values(once) == once);
}

proof fn stated_values_stay(values: Seq<Seq<char>>)
    ensures
        stated_values(stated_values(values)) == stated_values(values),
    decreases values.len(),
{
    if values.len() > 0 {
        stated_values_stay(values.drop_last());
        let before = stated_values(values.drop_last());
        if !(trimmed(values.last()).len() == 0 || before.contains(values.last())) {
            let now = before.push(values.last());
            assert(now.drop_last() =~= before);
            assert(stated_values(now) =~= now);
        }
    }
}

// ---------------------------------------------------------------------------
// The tables of a scan
// ---------------------------------------------------------------------------

pub open spec fn stamped(tables: Seq<DispatchTableModel>, file: Seq<char>) -> Seq<DispatchTableModel> {
    tables.map_values(|table: DispatchTableModel| DispatchTableModel { file_path: file, ..table })
}

/// The tables of each file, stamped with it, file by file.
pub open spec fn tables_of(files: Seq<(String, Vec<DispatchTable>)>) -> Seq<DispatchTableModel>
    decreases files.len(),
{
    if files.len() == 0 {
        Seq::empty()
    } else {
        tables_of(files.drop_last()) + stamped(files.last().1.deep_view(), files.last().0@)
    }
}

/// Every table that the analysis stated, stamped with the file that it was
/// found in, in the order of the file names; nothing when there is none.
pub fn collect_dispatch_tables(file_results: &TextMap<Vec<DispatchTable>>) -> (r: Option<Vec<DispatchTable>>)
    ensures
        keys_ascend(file_results.listing()),
        file_results@ == map_of(file_results.listing()),
        r.deep_view() == (if tables_of(file_results.listing()).len() == 0 {
            None
        } else {
            Some(tables_of(file_results.listing()))
        }),
{
    let ghost files = file_results.listing();
    let count: usize = file_results.len();
    let mut tables: Vec<DispatchTable> = Vec::new();
    let mut i: usize = 0;
    assert(tables.deep_view() =~= tables_of(files.take(0)));
    while i < count
        invariant
            i <= count,
            files == file_results.listing(),
            count == files.len(),
            tables.deep_view() == tables_of(files.take(i as int)),
        decreases count - i,
    {
        let (file, found) = file_results.entry(i);
        let ghost before = tables.deep_view();
        let ghost more = stamped(found.deep_view(), file@);
        proof {
            assert(files.take(i + 1).drop_last() =~= files.take(i as int));
            assert(files.take(i + 1).last() == files[i as int]);
            assert(before + more.take(0) =~= before);
        }
        let mut j: usize = 0;
        while j < found.len()
            invariant
                j <= found.len(),
                more == stamped(found.deep_view(), file@),
                tables.deep_view() == before + more.take(j as int),
            decreases found.len() - j,
        {
            let ghost so_far = tables.deep_view();
            let copy = found[j].duplicate();
            let table = DispatchTable { file_path: file.clone(), ..copy };
            proof {
                assert(found.deep_view()[j as int] == found@[j as int].deep_view());
                assert(more[j as int] == table.deep_view());
                assert(more.take(j + 1) =~= more.take(j as int).push(more[j as int]));
                assert(before + more.take(j as int).push(more[j as int]) =~= (before + more.take(j as int)).push(
                    more[j as int],
                ));
            }
            tables.push(table);
            assert(tables.deep_view() =~= so_far.push(table.deep_view()));
            j += 1;
        }
        assert(more.take(more.len() as int) =~= more);
        i += 1;
    }
    assert(files.take(files.len() as int) =~= files);
    assert(tables.deep_view().len() == tables@.len());
    if tables.len() == 0 {
        None
    } else {
        Some(tables)
    }
}

/// Two analyses that state the same tables for the same files give the same
/// list, whatever the order in which the files came.
pub proof fn tables_ignore_walk_order(
    a: Seq<(String, Vec<DispatchTable>)>,
    b: Seq<(String, Vec<DispatchTable>)>,
)
    requires
        keys_ascend(a),
        keys_ascend(b),
        map_of(a) == map_of(b),
    ensures
        tables_of(a) == tables_of(b),
{
    listing_is_determined(a, b);
    same_files_same_tables(a, b);
}

proof fn same_files_same_tables(a: Seq<(String, Vec<DispatchTable>)>, b: Seq<(String, Vec<DispatchTable>)>)
    requires
        a.len() == b.len(),
        forall|i: int| 0 <= i < a.len() ==> (#[trigger] a[i]).0@ == b[i].0@ && a[i].1 == b[i].1,
    ensures
        tables_of(a) == tables_of(b),
    decreases a.len(),
{
    if a.len() > 0 {
        let p = a.drop_last();
        let q = b.drop_last();
        assert forall|i: int| 0 <= i < p.len() implies (#[trigger] p[i]).0@ == q[i].0@ && p[i].1 == q[i].1 by {
            assert(p[i] == a[i]);
        }
        same_files_same_tables(p, q);
        assert(a[a.len() - 1].0@ == b[a.len() - 1].0@);
    }
}

// ---------------------------------------------------------------------------
// Declared operations
// ---------------------------------------------------------------------------

/// A method and a path.
#[derive(Debug, Clone, PartialEq, Eq)]
pub struct RouteName {
    pub method: String,
    pub path: String,
}

/// What a [`RouteName`] holds.
pub struct RouteNameModel {
    pub method: Seq<char>,
    pub path: Seq<char>,
}

impl DeepView for RouteName {
    type V = RouteNameModel;

    open spec fn deep_view(&self) -> RouteNameModel {
        RouteNameModel {
            method: self.method@,
            path: self.path@,
        }
    }
}

impl Duplicate for RouteName {
    fn duplicate(&self) -> (r: Self) {
        RouteName {
            method: self.method.clone(),
            path: self.path.clone(),
        }
    }
}

impl Ranked for RouteNameModel {
    open spec fn precedes(self, other: Self) -> bool {
        text_less(self.method, other.method) || self.method == other.method && text_less(self.path, other.path)
    }

    proof fn precedes_irreflexive(a: Self) {
        text_less_irreflexive(a.method);
        text_less_irreflexive(a.path);
    }

    proof fn precedes_transitive(a: Self, b: Self, c: Self) {
        if text_less(a.method, b.method) && text_less(b.method, c.method) {
            text_less_transitive(a.method, b.method, c.method);
        }
        if text_less(a.path, b.path) && text_less(b.path, c.path) {
            text_less_transitive(a.path, b.path, c.path);
        }
    }

    proof fn precedes_weakly(a: Self, b: Self, c: Self) {
        text_less_total(a.method, b.method);
        text_less_total(b.method, c.method);
        text_less_total(a.path, b.path);
        text_less_total(b.path, c.path);
        if a.precedes(c) {
            if b.precedes(a) {
                Self::precedes_transitive(b, a, c);
            } else {
                assert(a.method == b.method && a.path == b.path);
            }
        }
    }
}

impl Sortable for RouteName {
    fn before(&self, other: &Self) -> (r: bool) {
        less(self.method.as_str(), other.method.as_str()) || same(self.method.as_str(), other.method.as_str()) && less(
            self.path.as_str(),
            other.path.as_str(),
        )
    }
}

/// The row switches on the field of the block, read from the same place.
pub open spec fn switches_on(endpoint: ResolvedEndpointModel, block: DeclaredOperationsModel) -> bool {
    endpoint.dispatch matches Some(d) && d.location == block.dispatch.location && d.field == block.dispatch.field
}

/// The routes of the rows that switch on the block's field.
pub open spec fn switching_routes(endpoints: Seq<ResolvedEndpointModel>, block: DeclaredOperationsModel) -> Seq<RouteNameModel>
    decreases endpoints.len(),
{
    if endpoints.len() == 0 {
        Seq::empty()
    } else {
        let before = switching_routes(endpoints.drop_last(), block);
        if switches_on(endpoints.last(), block) {
            before.push(RouteNameModel { method: endpoints.last().method, path: endpoints.last().full_path })
        } else {
            before
        }
    }
}

/// The routes that a block speaks of: the one it names, or else every route
/// that was inferred to switch on its field, in order and each once.
pub open spec fn block_routes(endpoints: Seq<ResolvedEndpointModel>, block: DeclaredOperationsModel) -> Seq<RouteNameModel> {
    match named_route(block) {
        Some((method, path)) => seq![RouteNameModel { method, path }],
        None => by_rank_once(switching_routes(endpoints, block)),
    }
}

pub open spec fn named_route(block: DeclaredOperationsModel) -> Option<(Seq<char>, Seq<char>)> {
    match block.route {
        Some(route) => route_in(route),
        None => None,
    }
}

/// The row serves the route. The case of the method does not count.
pub open spec fn serves(endpoint: ResolvedEndpointModel, route: RouteNameModel) -> bool {
    ascii_lowercase(endpoint.method) == ascii_lowercase(route.method) && endpoint.full_path == route.path
}

pub open spec fn serving(endpoints: Seq<ResolvedEndpointModel>, route: RouteNameModel) -> Seq<ResolvedEndpointModel>
    decreases endpoints.len(),
{
    if endpoints.len() == 0 {
        Seq::empty()
    } else {
        let before = serving(endpoints.drop_last(), route);
        if serves(endpoints.last(), route) {
            before.push(endpoints.last())
        } else {
            before
        }
    }
}

pub open spec fn not_serving(endpoints: Seq<ResolvedEndpointModel>, route: RouteNameModel) -> Seq<ResolvedEndpointModel>
    decreases endpoints.len(),
{
    if endpoints.len() == 0 {
        Seq::empty()
    } else {
        let before = not_serving(endpoints.drop_last(), route);
        if serves(endpoints.last(), route) {
            before
        } else {
            before.push(endpoints.last())
        }
    }
}

/// The row whose anchors the declared rows of a route take over: the one that
/// served it, where there was exactly one.
pub open spec fn carried_row(endpoints: Seq<ResolvedEndpointModel>, route: RouteNameModel) -> Option<ResolvedEndpointModel> {
    let replaced = serving(endpoints, route);
    if replaced.len() == 1 {
        Some(replaced[0])
    } else {
        None
    }
}

/// Where a declared operation points: at the file and symbol that it names,
/// else at what the replaced row pointed at, else nowhere. A named file has the
/// line zero, and its symbol is the handler.
pub open spec fn operation_location(
    operation: DeclaredOperationModel,
    carried: Option<ResolvedEndpointModel>,
) -> (Seq<char>, Option<Seq<char>>) {
    if operation.handler matches Some(handler) && last_cut(handler, ':') matches Some((file, symbol)) && trimmed(file).len()
        > 0 {
        let (file, symbol) = last_cut(operation.handler->0, ':')->0;
        (file + ":0"@, Some(symbol))
    } else {
        match carried {
            Some(row) => (row.file_location, row.handler),
            None => (Seq::empty(), operation.handler),
        }
    }
}

fn declared_location(operation: &DeclaredOperation, carried: &Option<ResolvedEndpoint>) -> (r: (String, Option<String>))
    ensures
        r.0@ == operation_location(operation.deep_view(), carried.deep_view()).0,
        r.1.deep_view() == operation_location(operation.deep_view(), carried.deep_view()).1,
{
    match &operation.handler {
        Some(handler) => match rsplit_once(handler.as_str(), ':') {
            Some((file, symbol)) => {
                if !trim(file.as_str()).as_str().is_empty() {
                    return (concat(file.as_str(), ":0"), Some(symbol));
                }
            },
            None => {},
        },
        None => {},
    }
    match carried {
        Some(row) => (row.file_location.clone(), copy_option(&row.handler)),
        None => (String::new(), copy_option(&operation.handler)),
    }
}

/// The row of a declared operation: the route of the block, the block's field
/// with the operation's value, and what the replaced row anchored.
pub open spec fn declared_row(
    block: DeclaredOperationsModel,
    route: RouteNameModel,
    operation: DeclaredOperationModel,
    carried: Option<ResolvedEndpointModel>,
) -> ResolvedEndpointModel {
    ResolvedEndpointModel {
        method: route.method,
        path: route.path,
        full_path: route.path,
        handler: operation_location(operation, carried).1,
        owner: match carried {
            Some(row) => row.owner,
            None => block.service,
        },
        file_location: operation_location(operation, carried).0,
        middleware_chain: Seq::empty(),
        repo_name: None,
        service_name: None,
        provenance: match carried {
            Some(row) => row.provenance,
            None => EndpointProvenance::Route,
        },
        evidence: MatchEvidence::RouteDefinition,
        resolution_source: Some(ResolutionSource::DeclaredOperation),
        view_module: carried matches Some(row) && row.view_module,
        dispatch: Some(
            DispatchModel { location: block.dispatch.location, field: block.dispatch.field, value: operation.value },
        ),
    }
}

pub open spec fn declared_rows(
    block: DeclaredOperationsModel,
    route: RouteNameModel,
    carried: Option<ResolvedEndpointModel>,
) -> Seq<ResolvedEndpointModel> {
    block.operations.map_values(|operation: DeclaredOperationModel| declared_row(block, route, operation, carried))
}

/// The rows once a block has stated what a route serves.
pub open spec fn with_route_declared(
    endpoints: Seq<ResolvedEndpointModel>,
    block: DeclaredOperationsModel,
    route: RouteNameModel,
) -> Seq<ResolvedEndpointModel> {
    not_serving(endpoints, route) + declared_rows(block, route, carried_row(endpoints, route))
}

pub open spec fn with_routes_declared(
    endpoints: Seq<ResolvedEndpointModel>,
    block: DeclaredOperationsModel,
    routes: Seq<RouteNameModel>,
) -> Seq<ResolvedEndpointModel>
    decreases routes.len(),
{
    if routes.len() == 0 {
        endpoints
    } else {
        with_route_declared(with_routes_declared(endpoints, block, routes.drop_last()), block, routes.last())
    }
}

/// The rows once every block has been applied, one after the other.
pub open spec fn with_blocks_declared(
    endpoints: Seq<ResolvedEndpointModel>,
    blocks: Seq<DeclaredOperationsModel>,
) -> Seq<ResolvedEndpointModel>
    decreases blocks.len(),
{
    if blocks.len() == 0 {
        endpoints
    } else {
        let before = with_blocks_declared(endpoints, blocks.drop_last());
        with_routes_declared(before, blocks.last(), block_routes(before, blocks.last()))
    }
}

/// How many rows the blocks write: one for each route and operation.
pub open spec fn rows_written(endpoints: Seq<ResolvedEndpointModel>, blocks: Seq<DeclaredOperationsModel>) -> nat
    decreases blocks.len(),
{
    if blocks.len() == 0 {
        0
    } else {
        let before = with_blocks_declared(endpoints, blocks.drop_last());
        rows_written(endpoints, blocks.drop_last()) + block_routes(before, blocks.last()).len()
            * blocks.last().operations.len()
    }
}

pub open spec fn unmatched_warning(block: DeclaredOperationsModel) -> Seq<char> {
    "carrick.json declares operations on '"@ + block.service + "' for field '"@ + block.dispatch.field
        + "', and no route in this scan dispatches on it. Add a `route` to the block, or remove it."@
}

/// The warnings about blocks that name no route and match none.
pub open spec fn warnings_of(endpoints: Seq<ResolvedEndpointModel>, blocks: Seq<DeclaredOperationsModel>) -> Seq<Seq<char>>
    decreases blocks.len(),
{
    if blocks.len() == 0 {
        Seq::empty()
    } else {
        let before = with_blocks_declared(endpoints, blocks.drop_last());
        let warnings = warnings_of(endpoints, blocks.drop_last());
        if block_routes(before, blocks.last()).len() == 0 {
            warnings.push(unmatched_warning(blocks.last()))
        } else {
            warnings
        }
    }
}

fn inferred_routes(endpoints: &Vec<ResolvedEndpoint>, block: &DeclaredOperations) -> (r: Vec<RouteName>)
    ensures
        r.deep_view() == by_rank_once(switching_routes(endpoints.deep_view(), block.deep_view())),
{
    let ghost all = endpoints.deep_view();
    let ghost b = block.deep_view();
    let mut r: Vec<RouteName> = Vec::new();
    let mut i: usize = 0;
    assert(r.deep_view() =~= by_rank_once(switching_routes(all.take(0), b)));
    while i < endpoints.len()
        invariant
            i <= endpoints.len(),
            all == endpoints.deep_view(),
            b == block.deep_view(),
            r.deep_view() == by_rank_once(switching_routes(all.take(i as int), b)),
        decreases endpoints.len() - i,
    {
        let endpoint = &endpoints[i];
        let ghost before = switching_routes(all.take(i as int), b);
        assert(all.take(i + 1).drop_last() == all.take(i as int));
        assert(all.take(i + 1).last() == endpoint.deep_view());
        let switching = match &endpoint.dispatch {
            Some(d) => d.location == block.dispatch.location && same(d.field.as_str(), block.dispatch.field.as_str()),
            None => false,
        };
        assert(switching == switches_on(endpoint.deep_view(), b));
        if switching {
            let route = RouteName { method: endpoint.method.clone(), path: endpoint.full_path.clone() };
            assert(before.push(route.deep_view()).drop_last() =~= before);
            place_once(&mut r, route);
        }
        i += 1;
    }
    assert(all.take(all.len() as int) == all);
    r
}

fn routes_of(endpoints: &Vec<ResolvedEndpoint>, block: &DeclaredOperations) -> (r: Vec<RouteName>)
    ensures
        r.deep_view() == block_routes(endpoints.deep_view(), block.deep_view()),
{
    match block.parsed_route() {
        Some((method, path)) => {
            let mut r: Vec<RouteName> = Vec::new();
            r.push(RouteName { method, path });
            assert(r.deep_view() =~= seq![RouteNameModel { method: method@, path: path@ }]);
            r
        },
        None => inferred_routes(endpoints, block),
    }
}

/// Puts the declared rows of a route in the place of those that served it.
fn declare_route(endpoints: &mut Vec<ResolvedEndpoint>, block: &DeclaredOperations, route: &RouteName)
    ensures
        final(endpoints).deep_view() == with_route_declared(old(endpoints).deep_view(), block.deep_view(), route.deep_view()),
{
    let ghost all = endpoints.deep_view();
    let ghost name = route.deep_view();
    let mut kept: Vec<ResolvedEndpoint> = Vec::new();
    let mut carried: Option<ResolvedEndpoint> = None;
    let mut replaced: usize = 0;
    let mut i: usize = 0;
    assert(kept.deep_view() =~= not_serving(all.take(0), name));
    assert(serving(all.take(0), name).len() == 0);
    while i < endpoints.len()
        invariant
            i <= endpoints.len(),
            all == endpoints.deep_view(),
            name == route.deep_view(),
            kept.deep_view() == not_serving(all.take(i as int), name),
            replaced == serving(all.take(i as int), name).len(),
            replaced <= i,
            replaced == 1 ==> carried.deep_view() == Some(serving(all.take(i as int), name)[0]),
        decreases endpoints.len() - i,
    {
        let ghost before = kept.deep_view();
        let ghost found = serving(all.take(i as int), name);
        let endpoint = &endpoints[i];
        assert(all.take(i + 1).drop_last() == all.take(i as int));
        assert(all.take(i + 1).last() == endpoint.deep_view());
        if same_ignoring_case(endpoint.method.as_str(), route.method.as_str()) && same(
            endpoint.full_path.as_str(),
            route.path.as_str(),
        ) {
            assert(found.push(endpoint.deep_view()).len() == found.len() + 1);
            if replaced == 0 {
                carried = Some(endpoint.duplicate());
            }
            replaced += 1;
        } else {
            kept.push(endpoint.duplicate());
            assert(kept.deep_view() =~= before.push(endpoint.deep_view()));
        }
        i += 1;
    }
    assert(all.take(all.len() as int) == all);
    if replaced != 1 {
        carried = None;
    }
    assert(carried.deep_view() == carried_row(all, name));
    let ghost rest = kept.deep_view();
    let ghost rows = declared_rows(block.deep_view(), name, carried.deep_view());
    let ghost operations = block.operations.deep_view();
    let mut k: usize = 0;
    assert(rest + rows.take(0) =~= rest);
    while k < block.operations.len()
        invariant
            k <= block.operations.len(),
            name == route.deep_view(),
            operations == block.operations.deep_view(),
            rows == declared_rows(block.deep_view(), name, carried.deep_view()),
            kept.deep_view() == rest + rows.take(k as int),
        decreases block.operations.len() - k,
    {
        let ghost before = kept.deep_view();
        let operation = &block.operations[k];
        let (file_location, handler) = declared_location(operation, &carried);
        let (owner, provenance, view_module) = match &carried {
            Some(row) => (row.owner.clone(), row.provenance, row.view_module),
            None => (block.service.clone(), EndpointProvenance::default(), false),
        };
        let row = ResolvedEndpoint {
            method: route.method.clone(),
            path: route.path.clone(),
            full_path: route.path.clone(),
            handler,
            owner,
            file_location,
            middleware_chain: Vec::new(),
            repo_name: None,
            service_name: None,
            provenance,
            evidence: MatchEvidence::RouteDefinition,
            resolution_source: Some(ResolutionSource::DeclaredOperation),
            view_module,
            dispatch: Some(
                Dispatch {
                    location: block.dispatch.location,
                    field: block.dispatch.field.clone(),
                    value: operation.value.clone(),
                },
            ),
        };
        proof {
            assert(operations[k as int] == operation.deep_view());
            assert(row.middleware_chain.deep_view() =~= Seq::<Seq<char>>::empty());
            assert(row.file_location@ == operation_location(operation.deep_view(), carried.deep_view()).0);
            assert(rows[k as int] == row.deep_view());
            assert(rows.take(k + 1) =~= rows.take(k as int).push(rows[k as int]));
            assert(rest + rows.take(k as int).push(rows[k as int]) =~= (rest + rows.take(k as int)).push(rows[k as int]));
        }
        kept.push(row);
        assert(kept.deep_view() =~= before.push(row.deep_view()));
        k += 1;
    }
    assert(rows.take(rows.len() as int) =~= rows);
    *endpoints = kept;
}

/// Applies the operations that a service declares to its rows. Declared rows
/// replace: what served the same route is gone. Also gives the number of rows
/// written, which stops at the largest number that fits, and the warnings about
/// blocks that name no route and match none.
pub fn apply_with_warnings(graph: &mut MountGraph, config: &Config) -> (r: (usize, Vec<String>))
    ensures
        final(graph).endpoints.deep_view() == with_blocks_declared(
            old(graph).endpoints.deep_view(),
            config.deep_view().declared_operations,
        ),
        r.0 == counted(rows_written(old(graph).endpoints.deep_view(), config.deep_view().declared_operations)),
        r.1.deep_view() == warnings_of(old(graph).endpoints.deep_view(), config.deep_view().declared_operations),
{
    let ghost first = graph.endpoints.deep_view();
    let ghost blocks = config.declared_operations.deep_view();
    let mut written: usize = 0;
    let mut warnings: Vec<String> = Vec::new();
    let mut i: usize = 0;
    assert(warnings.deep_view() =~= warnings_of(first, blocks.take(0)));
    while i < config.declared_operations.len()
        invariant
            i <= config.declared_operations.len(),
            first == old(graph).endpoints.deep_view(),
            blocks == config.declared_operations.deep_view(),
            graph.endpoints.deep_view() == with_blocks_declared(first, blocks.take(i as int)),
            written == counted(rows_written(first, blocks.take(i as int))),
            warnings.deep_view() == warnings_of(first, blocks.take(i as int)),
        decreases config.declared_operations.len() - i,
    {
        let block = &config.declared_operations[i];
        let ghost before = graph.endpoints.deep_view();
        let ghost said = warnings.deep_view();
        let ghost b = block.deep_view();
        let ghost done = rows_written(first, blocks.take(i as int));
        let ghost n = b.operations.len();
        proof {
            assert(blocks.take(i + 1).drop_last() == blocks.take(i as int));
            assert(blocks.take(i + 1).last() == b);
            assert(b.operations.len() == block.operations@.len());
        }
        let routes = routes_of(&graph.endpoints, block);
        let ghost names = routes.deep_view();
        assert(names.len() == routes@.len());
        if routes.len() == 0 {
            let mut warning = concat3(
                "carrick.json declares operations on '",
                block.service.as_str(),
                "' for field '",
            );
            warning.append(block.dispatch.field.as_str());
            warning.append("', and no route in this scan dispatches on it. Add a `route` to the block, or remove it.");
            assert(warning@ == unmatched_warning(b));
            warnings.push(warning);
            assert(warnings.deep_view() =~= said.push(unmatched_warning(b)));
        }
        let mut k: usize = 0;
        assert(done + 0 * n == done);
        while k < routes.len()
            invariant
                k <= routes.len(),
                names == routes.deep_view(),
                b == block.deep_view(),
                n == block.operations@.len(),
                graph.endpoints.deep_view() == with_routes_declared(before, b, names.take(k as int)),
                written == counted((done + k * n) as nat),
            decreases routes.len() - k,
        {
            proof {
                assert(names.take(k + 1).drop_last() == names.take(k as int));
                assert(names.take(k + 1).last() == routes@[k as int].deep_view());
                assert((k + 1) * n == k * n + n) by (nonlinear_arith);
                assert(k * n >= 0) by (nonlinear_arith);
            }
            declare_route(&mut graph.endpoints, block, &routes[k]);
            written = written.saturating_add(block.operations.len());
            k += 1;
        }
        assert(names.take(names.len() as int) == names);
        i += 1;
    }
    assert(blocks.take(blocks.len() as int) == blocks);
    (written, warnings)
}

/// Applies the operations that a service declares to its rows, and gives the
/// number of rows written.
pub fn apply_declared_operations(graph: &mut MountGraph, config: &Config) -> (r: usize)
    ensures
        final(graph).endpoints.deep_view() == with_blocks_declared(
            old(graph).endpoints.deep_view(),
            config.deep_view().declared_operations,
        ),
        r == counted(rows_written(old(graph).endpoints.deep_view(), config.deep_view().declared_operations)),
{
    let (written, _) = apply_with_warnings(graph, config);
    written
}

proof fn serving_of_concat(a: Seq<ResolvedEndpointModel>, b: Seq<ResolvedEndpointModel>, route: RouteNameModel)
    ensures
        serving(a + b, route) == serving(a, route) + serving(b, route),
        not_serving(a + b, route) == not_serving(a, route) + not_serving(b, route),
    decreases b.len(),
{
    if b.len() == 0 {
        assert(a + b =~= a);
        assert(serving(a, route) + serving(b, route) =~= serving(a, route));
        assert(not_serving(a, route) + not_serving(b, route) =~= not_serving(a, route));
    } else {
        assert((a + b).drop_last() =~= a + b.drop_last());
        assert((a + b).last() == b.last());
        serving_of_concat(a, b.drop_last(), route);
        assert(serving(a + b, route) =~= serving(a, route) + serving(b, route));
        assert(not_serving(a + b, route) =~= not_serving(a, route) + not_serving(b, route));
    }
}

proof fn the_rest_serves_not(endpoints: Seq<ResolvedEndpointModel>, route: RouteNameModel)
    ensures
        serving(not_serving(endpoints, route), route).len() == 0,
        not_serving(not_serving(endpoints, route), route) == not_serving(endpoints, route),
    decreases endpoints.len(),
{
    if endpoints.len() > 0 {
        the_rest_serves_not(endpoints.drop_last(), route);
        let before = not_serving(endpoints.drop_last(), route);
        if !serves(endpoints.last(), route) {
            assert(before.push(endpoints.last()).drop_last() =~= before);
        }
    }
}

proof fn all_of_them_serve(rows: Seq<ResolvedEndpointModel>, route: RouteNameModel)
    requires
        forall|i: int| 0 <= i < rows.len() ==> serves(#[trigger] rows[i], route),
    ensures
        serving(rows, route) == rows,
        not_serving(rows, route).len() == 0,
    decreases rows.len(),
{
    if rows.len() > 0 {
        let init = rows.drop_last();
        assert forall|i: int| 0 <= i < init.len() implies serves(#[trigger] init[i], route) by {
            assert(init[i] == rows[i]);
        }
        all_of_them_serve(init, route);
        assert(serves(rows[rows.len() - 1], route));
        assert(init.push(rows.last()) =~= rows);
    }
}

/// A declaration is the whole truth of its route: the rows that serve the route
/// are the declared ones, in their order, and no other row is touched.
pub proof fn a_declaration_is_the_whole_set(
    endpoints: Seq<ResolvedEndpointModel>,
    block: DeclaredOperationsModel,
    route: RouteNameModel,
)
    ensures
        serving(with_route_declared(endpoints, block, route), route) == declared_rows(
            block,
            route,
            carried_row(endpoints, route),
        ),
        not_serving(with_route_declared(endpoints, block, route), route) == not_serving(endpoints, route),
{
    let rows = declared_rows(block, route, carried_row(endpoints, route));
    let rest = not_serving(endpoints, route);
    serving_of_concat(rest, rows, route);
    the_rest_serves_not(endpoints, route);
    all_of_them_serve(rows, route);
    assert(serving(rest, route) + rows =~= rows);
    assert(rest + not_serving(rows, route) =~= rest);
}

/// Every row that a declaration writes is the service's own statement of a
/// route that it serves, on the block's field, one for each declared value.
pub proof fn declared_rows_state_their_values(
    block: DeclaredOperationsModel,
    route: RouteNameModel,
    carried: Option<ResolvedEndpointModel>,
    i: int,
)
    requires
        0 <= i < block.operations.len(),
    ensures
        declared_rows(block, route, carried).len() == block.operations.len(),
        declared_rows(block, route, carried)[i].resolution_source == Some(ResolutionSource::DeclaredOperation),
        declared_rows(block, route, carried)[i].evidence == MatchEvidence::RouteDefinition,
        declared_rows(block, route, carried)[i].dispatch == Some(
            DispatchModel {
                location: block.dispatch.location,
                field: block.dispatch.field,
                value: block.operations[i].value,
            },
        ),
{
}

} // verus!
