//! The calls by which a service leaves itself.
//!
//! Calls through a client that an external package supplies are found in the
//! syntax of the whole workspace. Requests that were extracted and classified
//! before are put into the same rows. The rows of a service are one sorted list
//! without duplicates, of a bounded length.

use crate::config::{Config, ConfigModel};
use crate::duplicate::Duplicate;
use crate::json::{
    fields_model, get_member, json_model, member, push_field, push_text, Json, JsonModel,
};
use crate::laws::calls::{every_row_is_of_a_request, is_raised, tells_of, uppercase_is_raised};
use crate::mount_graph::{DataFetchingCall, DataFetchingCallModel};
use crate::paths::{make_relative, relative_to};
use crate::sorting::{by_rank_once, by_rank_once_sorts, in_strict_order, place_once, same_members_rank_alike, same_rank, Ranked, Sortable};
use crate::text::{
    copy_option, is_ascii_text, last_cut, less, number_in, parse_number, rsplit_once, same, text_less, text_less_asymmetric,
    text_less_irreflexive, text_less_total, text_less_transitive, to_uppercase, trim_start_text, trimmed_start_text,
    unicode_uppercase,
};
use crate::url_normalizer::{env_var_base, in_some_domain, read_env_var_base, UrlNormalizer};
use vstd::prelude::*;

pub mod collect;
pub mod facts;
pub mod ownership;
pub mod resolution;
pub mod slots;
pub mod workspace;

pub use workspace::scan_workspace;

verus! {

/// The most rows that one service contributes. Rows are sorted before the rest
/// is cut off, so what stays is a stable prefix.
pub const MAX_CANDIDATES_PER_SERVICE: usize = 20000;

/// How a call site was found to leave the service.
#[derive(Debug, Clone, Copy, PartialEq, Eq, Structural)]
pub enum CallMechanism {
    /// What is called comes from a declared package.
    Sdk,
    /// The request names a host that is declared to be somebody else's.
    ExternalHttp,
    /// The base of the request is an environment variable that is declared to
    /// hold somebody else's address.
    EnvVarUrl,
}

/// The word for a mechanism.
pub open spec fn mechanism_word(mechanism: CallMechanism) -> Seq<char> {
    match mechanism {
        CallMechanism::Sdk => "sdk"@,
        CallMechanism::ExternalHttp => "external_http"@,
        CallMechanism::EnvVarUrl => "env_var_url"@,
    }
}

/// The mechanism that a word stands for.
pub open spec fn mechanism_in(word: Seq<char>) -> Option<CallMechanism> {
    if word == "sdk"@ {
        Some(CallMechanism::Sdk)
    } else if word == "external_http"@ {
        Some(CallMechanism::ExternalHttp)
    } else if word == "env_var_url"@ {
        Some(CallMechanism::EnvVarUrl)
    } else {
        None
    }
}

proof fn words_are_read_back(mechanism: CallMechanism)
    ensures
        mechanism_in(mechanism_word(mechanism)) == Some(mechanism),
{
    reveal_strlit("sdk");
    reveal_strlit("external_http");
    reveal_strlit("env_var_url");
    assert("external_http"@[0] == 'e');
    assert("env_var_url"@.len() == 11);
    assert("external_http"@.len() == 13);
}

impl CallMechanism {
    pub fn as_str(&self) -> (r: &'static str)
        ensures
            r@ == mechanism_word(*self),
    {
        match self {
            CallMechanism::Sdk => "sdk",
            CallMechanism::ExternalHttp => "external_http",
            CallMechanism::EnvVarUrl => "env_var_url",
        }
    }

    pub fn from_word(word: &str) -> (r: Option<CallMechanism>)
        ensures
            r == mechanism_in(word@),
    {
        if same(word, "sdk") {
            Some(CallMechanism::Sdk)
        } else if same(word, "external_http") {
            Some(CallMechanism::ExternalHttp)
        } else if same(word, "env_var_url") {
            Some(CallMechanism::EnvVarUrl)
        } else {
            None
        }
    }
}

/// One call that may leave the service.
#[derive(Debug, Clone, PartialEq, Eq)]
pub struct ExternalCallCandidate {
    /// The file of the call, as it reads from the repository root.
    pub file: String,
    /// The line of the call.
    pub line: usize,
    /// What is called as it is written, or the method of a request.
    pub callee: String,
    /// Where the call goes: a package, a host or an environment variable.
    pub package: String,
    pub mechanism: CallMechanism,
    /// The export of the package through which it is called.
    pub import_symbol: Option<String>,
    /// What the import names below the package.
    pub subpath: Option<String>,
}

/// What an [`ExternalCallCandidate`] holds.
pub struct ExternalCallCandidateModel {
    pub file: Seq<char>,
    pub line: usize,
    pub callee: Seq<char>,
    pub package: Seq<char>,
    pub mechanism: CallMechanism,
    pub import_symbol: Option<Seq<char>>,
    pub subpath: Option<Seq<char>>,
}

impl DeepView for ExternalCallCandidate {
    type V = ExternalCallCandidateModel;

    open spec fn deep_view(&self) -> ExternalCallCandidateModel {
        ExternalCallCandidateModel {
            file: self.file@,
            line: self.line,
            callee: self.callee@,
            package: self.package@,
            mechanism: self.mechanism,
            import_symbol: self.import_symbol.deep_view(),
            subpath: self.subpath.deep_view(),
        }
    }
}

impl Duplicate for ExternalCallCandidate {
    fn duplicate(&self) -> (r: Self) {
        ExternalCallCandidate {
            file: self.file.clone(),
            line: self.line,
            callee: self.callee.clone(),
            package: self.package.clone(),
            mechanism: self.mechanism,
            import_symbol: copy_option(&self.import_symbol),
            subpath: copy_option(&self.subpath),
        }
    }
}

// ---------------------------------------------------------------------------
// The order of rows
// ---------------------------------------------------------------------------

/// -1, 0 or 1, as the first text ranks before, with or behind the second.
pub open spec fn text_rank(a: Seq<char>, b: Seq<char>) -> int {
    if text_less(a, b) {
        -1
    } else if a == b {
        0
    } else {
        1
    }
}

/// The same of texts that may be absent: nothing ranks before any text.
pub open spec fn option_rank(a: Option<Seq<char>>, b: Option<Seq<char>>) -> int {
    match (a, b) {
        (None, None) => 0,
        (None, Some(_)) => -1,
        (Some(_), None) => 1,
        (Some(a), Some(b)) => text_rank(a, b),
    }
}

pub open spec fn mechanism_number(mechanism: CallMechanism) -> int {
    match mechanism {
        CallMechanism::Sdk => 0,
        CallMechanism::ExternalHttp => 1,
        CallMechanism::EnvVarUrl => 2,
    }
}

/// The rank by one thing, and where that does not tell, by the next.
pub open spec fn and_next(first: int, next: int) -> int {
    if first != 0 {
        first
    } else {
        next
    }
}

/// Rows rank by file, line, callee, package, mechanism, and last by the
/// anchors.
pub open spec fn row_rank(a: ExternalCallCandidateModel, b: ExternalCallCandidateModel) -> int {
    and_next(
        text_rank(a.file, b.file),
        and_next(
            a.line - b.line,
            and_next(
                text_rank(a.callee, b.callee),
                and_next(
                    text_rank(a.package, b.package),
                    and_next(
                        mechanism_number(a.mechanism) - mechanism_number(b.mechanism),
                        and_next(option_rank(a.import_symbol, b.import_symbol), option_rank(a.subpath, b.subpath)),
                    ),
                ),
            ),
        ),
    )
}

/// The rank of a first value before a third follows from the ranks of a second
/// one between them.
spec fn ranks_chain(ab: int, bc: int, ac: int) -> bool {
    &&& ab == 0 && bc == 0 ==> ac == 0
    &&& ab <= 0 && bc <= 0 && (ab < 0 || bc < 0) ==> ac < 0
    &&& ab >= 0 && bc >= 0 && (ab > 0 || bc > 0) ==> ac > 0
}

proof fn text_ranks_chain(a: Seq<char>, b: Seq<char>, c: Seq<char>)
    ensures
        ranks_chain(text_rank(a, b), text_rank(b, c), text_rank(a, c)),
{
    text_less_total(a, b);
    text_less_total(b, c);
    text_less_total(a, c);
    text_less_irreflexive(a);
    text_less_irreflexive(c);
    if text_less(a, b) && text_less(b, c) {
        text_less_transitive(a, b, c);
    }
    if text_less(b, a) {
        text_less_asymmetric(b, a);
    }
    if text_less(c, b) {
        text_less_asymmetric(c, b);
    }
    if text_less(c, b) && text_less(b, a) {
        text_less_transitive(c, b, a);
        text_less_asymmetric(c, a);
    }
}

proof fn option_ranks_chain(a: Option<Seq<char>>, b: Option<Seq<char>>, c: Option<Seq<char>>)
    ensures
        ranks_chain(option_rank(a, b), option_rank(b, c), option_rank(a, c)),
{
    if a is Some && b is Some && c is Some {
        text_ranks_chain(a->0, b->0, c->0);
    }
}

proof fn next_ranks_chain(x: (int, int, int), y: (int, int, int))
    requires
        ranks_chain(x.0, x.1, x.2),
        ranks_chain(y.0, y.1, y.2),
    ensures
        ranks_chain(and_next(x.0, y.0), and_next(x.1, y.1), and_next(x.2, y.2)),
{
}

proof fn row_ranks_chain(
    a: ExternalCallCandidateModel,
    b: ExternalCallCandidateModel,
    c: ExternalCallCandidateModel,
)
    ensures
        ranks_chain(row_rank(a, b), row_rank(b, c), row_rank(a, c)),
{
    let file = (text_rank(a.file, b.file), text_rank(b.file, c.file), text_rank(a.file, c.file));
    let line: (int, int, int) = (a.line - b.line, b.line - c.line, a.line - c.line);
    let callee = (text_rank(a.callee, b.callee), text_rank(b.callee, c.callee), text_rank(a.callee, c.callee));
    let package = (
        text_rank(a.package, b.package),
        text_rank(b.package, c.package),
        text_rank(a.package, c.package),
    );
    let (i, j, k) = (mechanism_number(a.mechanism), mechanism_number(b.mechanism), mechanism_number(c.mechanism));
    let mechanism: (int, int, int) = (i - j, j - k, i - k);
    let symbol = (
        option_rank(a.import_symbol, b.import_symbol),
        option_rank(b.import_symbol, c.import_symbol),
        option_rank(a.import_symbol, c.import_symbol),
    );
    let subpath = (
        option_rank(a.subpath, b.subpath),
        option_rank(b.subpath, c.subpath),
        option_rank(a.subpath, c.subpath),
    );
    text_ranks_chain(a.file, b.file, c.file);
    text_ranks_chain(a.callee, b.callee, c.callee);
    text_ranks_chain(a.package, b.package, c.package);
    option_ranks_chain(a.import_symbol, b.import_symbol, c.import_symbol);
    option_ranks_chain(a.subpath, b.subpath, c.subpath);
    next_ranks_chain(symbol, subpath);
    let anchors = (and_next(symbol.0, subpath.0), and_next(symbol.1, subpath.1), and_next(symbol.2, subpath.2));
    next_ranks_chain(mechanism, anchors);
    let ways = (
        and_next(mechanism.0, anchors.0),
        and_next(mechanism.1, anchors.1),
        and_next(mechanism.2, anchors.2),
    );
    next_ranks_chain(package, ways);
    let goals = (and_next(package.0, ways.0), and_next(package.1, ways.1), and_next(package.2, ways.2));
    next_ranks_chain(callee, goals);
    let calls = (and_next(callee.0, goals.0), and_next(callee.1, goals.1), and_next(callee.2, goals.2));
    next_ranks_chain(line, calls);
    let lines = (and_next(line.0, calls.0), and_next(line.1, calls.1), and_next(line.2, calls.2));
    next_ranks_chain(file, lines);
}

proof fn text_rank_turns(a: Seq<char>, b: Seq<char>)
    ensures
        text_rank(a, b) == -text_rank(b, a),
        text_rank(a, b) == 0 <==> a == b,
{
    text_less_total(a, b);
    text_less_irreflexive(a);
    if text_less(a, b) {
        text_less_asymmetric(a, b);
    }
}

proof fn row_rank_turns(a: ExternalCallCandidateModel, b: ExternalCallCandidateModel)
    ensures
        row_rank(a, b) == -row_rank(b, a),
        row_rank(a, b) == 0 <==> a == b,
{
    text_rank_turns(a.file, b.file);
    text_rank_turns(a.callee, b.callee);
    text_rank_turns(a.package, b.package);
    if a.import_symbol is Some && b.import_symbol is Some {
        text_rank_turns(a.import_symbol->0, b.import_symbol->0);
    }
    if a.subpath is Some && b.subpath is Some {
        text_rank_turns(a.subpath->0, b.subpath->0);
    }
}

impl Ranked for ExternalCallCandidateModel {
    open spec fn precedes(self, other: Self) -> bool {
        row_rank(self, other) < 0
    }

    proof fn precedes_irreflexive(a: Self) {
        row_rank_turns(a, a);
    }

    proof fn precedes_transitive(a: Self, b: Self, c: Self) {
        row_ranks_chain(a, b, c);
    }

    proof fn precedes_weakly(a: Self, b: Self, c: Self) {
        row_ranks_chain(a, b, c);
    }
}

/// Two rows of one rank are the same row.
pub proof fn rows_of_one_rank_are_the_same(a: ExternalCallCandidateModel, b: ExternalCallCandidateModel)
    ensures
        same_rank(a, b) == (a == b),
{
    row_rank_turns(a, b);
}

fn rank_texts(a: &str, b: &str) -> (r: i8)
    ensures
        r == text_rank(a@, b@),
{
    if less(a, b) {
        -1
    } else if same(a, b) {
        0
    } else {
        1
    }
}

fn rank_options(a: &Option<String>, b: &Option<String>) -> (r: i8)
    ensures
        r == option_rank(a.deep_view(), b.deep_view()),
{
    match (a, b) {
        (None, None) => 0,
        (None, Some(_)) => -1,
        (Some(_), None) => 1,
        (Some(a), Some(b)) => rank_texts(a.as_str(), b.as_str()),
    }
}

fn number_mechanism(mechanism: CallMechanism) -> (r: i8)
    ensures
        r == mechanism_number(mechanism),
        0 <= r <= 2,
{
    match mechanism {
        CallMechanism::Sdk => 0,
        CallMechanism::ExternalHttp => 1,
        CallMechanism::EnvVarUrl => 2,
    }
}

impl Sortable for ExternalCallCandidate {
    fn before(&self, other: &Self) -> (r: bool) {
        let file: i8 = rank_texts(self.file.as_str(), other.file.as_str());
        if file != 0 {
            return file < 0;
        }
        if self.line != other.line {
            return self.line < other.line;
        }
        let callee: i8 = rank_texts(self.callee.as_str(), other.callee.as_str());
        if callee != 0 {
            return callee < 0;
        }
        let package: i8 = rank_texts(self.package.as_str(), other.package.as_str());
        if package != 0 {
            return package < 0;
        }
        let mechanism: i8 = number_mechanism(self.mechanism) - number_mechanism(other.mechanism);
        if mechanism != 0 {
            return mechanism < 0;
        }
        let symbol: i8 = rank_options(&self.import_symbol, &other.import_symbol);
        if symbol != 0 {
            return symbol < 0;
        }
        rank_options(&self.subpath, &other.subpath) < 0
    }
}

// ---------------------------------------------------------------------------
// The form of a row
// ---------------------------------------------------------------------------

pub open spec fn stated(key: Seq<char>, value: Option<Seq<char>>) -> Seq<(Seq<char>, JsonModel)> {
    match value {
        Some(text) => seq![(key, JsonModel::Text(text))],
        None => Seq::empty(),
    }
}

/// A row as an object; an anchor that it does not have is left out.
pub open spec fn row_json(row: ExternalCallCandidateModel) -> JsonModel {
    JsonModel::Object(
        seq![
            ("file"@, JsonModel::Text(row.file)),
            ("line"@, JsonModel::Number(row.line as u64)),
            ("callee"@, JsonModel::Text(row.callee)),
            ("package"@, JsonModel::Text(row.package)),
            ("mechanism"@, JsonModel::Text(mechanism_word(row.mechanism))),
        ] + stated("import_symbol"@, row.import_symbol) + stated("subpath"@, row.subpath),
    )
}

pub open spec fn text_member(value: JsonModel, name: Seq<char>) -> Option<Seq<char>> {
    match member(value, name) {
        Some(JsonModel::Text(text)) => Some(text),
        _ => None,
    }
}

/// A member that is a text, or is absent or null; of anything else nothing is
/// made.
pub open spec fn anchor_member(value: JsonModel, name: Seq<char>) -> Option<Option<Seq<char>>> {
    match member(value, name) {
        Some(JsonModel::Text(text)) => Some(Some(text)),
        Some(JsonModel::Null) => Some(None),
        None => Some(None),
        _ => None,
    }
}

pub open spec fn line_member(value: JsonModel) -> Option<usize> {
    match member(value, "line"@) {
        Some(JsonModel::Number(n)) => if n <= usize::MAX {
            Some(n as usize)
        } else {
            None
        },
        _ => None,
    }
}

/// The row that an object describes. The anchors may be absent.
pub open spec fn row_in(value: JsonModel) -> Option<ExternalCallCandidateModel> {
    match (
        (text_member(value, "file"@), line_member(value), text_member(value, "callee"@)),
        (text_member(value, "package"@), text_member(value, "mechanism"@)),
        (anchor_member(value, "import_symbol"@), anchor_member(value, "subpath"@)),
    ) {
        (
            (Some(file), Some(line), Some(callee)),
            (Some(package), Some(word)),
            (Some(import_symbol), Some(subpath)),
        ) => match mechanism_in(word) {
            Some(mechanism) => Some(
                ExternalCallCandidateModel { file, line, callee, package, mechanism, import_symbol, subpath },
            ),
            None => None,
        },
        _ => None,
    }
}

fn read_text(value: &Json, name: &str) -> (r: Option<String>)
    ensures
        r.deep_view() == text_member(json_model(*value), name@),
{
    match get_member(value, name) {
        Some(Json::Text(text)) => Some(text.clone()),
        _ => None,
    }
}

fn read_anchor(value: &Json, name: &str) -> (r: Option<Option<String>>)
    ensures
        r.deep_view() == anchor_member(json_model(*value), name@),
{
    match get_member(value, name) {
        Some(Json::Text(text)) => Some(Some(text.clone())),
        Some(Json::Null) => Some(None),
        None => Some(None),
        _ => None,
    }
}

fn read_line(value: &Json) -> (r: Option<usize>)
    ensures
        r == line_member(json_model(*value)),
{
    match get_member(value, "line") {
        Some(Json::Number(n)) => {
            if *n <= usize::MAX as u64 {
                Some(*n as usize)
            } else {
                None
            }
        },
        _ => None,
    }
}

fn push_anchor(fields: &mut Vec<(String, Json)>, key: &str, value: &Option<String>)
    ensures
        fields_model(final(fields)@) == fields_model(old(fields)@) + stated(key@, value.deep_view()),
{
    let ghost before = fields_model(fields@);
    match value {
        Some(text) => push_text(fields, key, text.as_str()),
        None => {},
    }
    assert(fields_model(fields@) =~= before + stated(key@, value.deep_view()));
}

impl ExternalCallCandidate {
    /// The row in the form in which it is sent.
    pub fn serialize(&self) -> (r: Json)
        ensures
            json_model(r) == row_json(self.deep_view()),
    {
        let mut fields: Vec<(String, Json)> = Vec::new();
        push_text(&mut fields, "file", self.file.as_str());
        push_field(&mut fields, "line", Json::Number(self.line as u64));
        push_text(&mut fields, "callee", self.callee.as_str());
        push_text(&mut fields, "package", self.package.as_str());
        push_text(&mut fields, "mechanism", self.mechanism.as_str());
        assert(fields_model(fields@) =~= seq![
            ("file"@, JsonModel::Text(self.file@)),
            ("line"@, JsonModel::Number(self.line as u64)),
            ("callee"@, JsonModel::Text(self.callee@)),
            ("package"@, JsonModel::Text(self.package@)),
            ("mechanism"@, JsonModel::Text(mechanism_word(self.mechanism))),
        ]);
        push_anchor(&mut fields, "import_symbol", &self.import_symbol);
        push_anchor(&mut fields, "subpath", &self.subpath);
        Json::Object(fields)
    }

    /// Reads a row back.
    pub fn deserialize(value: &Json) -> (r: Option<Self>)
        ensures
            r.deep_view() == row_in(json_model(*value)),
    {
        let file = read_text(value, "file");
        let line = read_line(value);
        let callee = read_text(value, "callee");
        let package = read_text(value, "package");
        let mechanism = match read_text(value, "mechanism") {
            Some(word) => CallMechanism::from_word(word.as_str()),
            None => None,
        };
        let import_symbol = read_anchor(value, "import_symbol");
        let subpath = read_anchor(value, "subpath");
        match ((file, line, callee), (package, mechanism), (import_symbol, subpath)) {
            (
                (Some(file), Some(line), Some(callee)),
                (Some(package), Some(mechanism)),
                (Some(import_symbol), Some(subpath)),
            ) => Some(ExternalCallCandidate { file, line, callee, package, mechanism, import_symbol, subpath }),
            _ => None,
        }
    }
}

/// Reading gives back the row that was written.
pub proof fn a_row_is_read_back(row: ExternalCallCandidateModel)
    ensures
        row_in(row_json(row)) == Some(row),
{
    words_are_read_back(row.mechanism);
    reveal_strlit("file");
    reveal_strlit("line");
    reveal_strlit("callee");
    reveal_strlit("package");
    reveal_strlit("mechanism");
    reveal_strlit("import_symbol");
    reveal_strlit("subpath");
    let fields = row_json(row)->Object_0;
    assert("file"@[0] == 'f' && "line"@[0] == 'l' && "callee"@[0] == 'c' && "package"@[0] == 'p');
    assert("mechanism"@[0] == 'm' && "import_symbol"@[0] == 'i' && "subpath"@[0] == 's');
    reveal_with_fuel(crate::json::field_named, 9);
    let five = fields.take(5);
    assert(fields[0] == ("file"@, JsonModel::Text(row.file)));
    assert(fields[1] == ("line"@, JsonModel::Number(row.line as u64)));
    assert(fields[2] == ("callee"@, JsonModel::Text(row.callee)));
    assert(fields[3] == ("package"@, JsonModel::Text(row.package)));
    assert(fields[4] == ("mechanism"@, JsonModel::Text(mechanism_word(row.mechanism))));
}

// ---------------------------------------------------------------------------
// The list of rows
// ---------------------------------------------------------------------------

/// The rows that stay of a sorted list.
pub open spec fn capped(rows: Seq<ExternalCallCandidateModel>) -> Seq<ExternalCallCandidateModel> {
    if rows.len() > MAX_CANDIDATES_PER_SERVICE {
        rows.take(MAX_CANDIDATES_PER_SERVICE as int)
    } else {
        rows
    }
}

pub(crate) fn cap(rows: Vec<ExternalCallCandidate>) -> (r: Vec<ExternalCallCandidate>)
    ensures
        r.deep_view() == capped(rows.deep_view()),
{
    let mut rows = rows;
    let ghost all = rows.deep_view();
    if rows.len() > MAX_CANDIDATES_PER_SERVICE {
        rows.truncate(MAX_CANDIDATES_PER_SERVICE);
        assert(rows.deep_view() =~= all.take(MAX_CANDIDATES_PER_SERVICE as int));
    }
    rows
}

/// Rows in their order, each once, as many as may be sent.
pub open spec fn listed(rows: Seq<ExternalCallCandidateModel>) -> Seq<ExternalCallCandidateModel> {
    capped(by_rank_once(rows))
}

/// A list that is sent is in strict order, is no longer than the bound, holds
/// nothing but what went into it, and is whole unless there are more rows than
/// the bound.
pub proof fn a_list_is_sorted_and_bounded(rows: Seq<ExternalCallCandidateModel>)
    ensures
        in_strict_order(listed(rows)),
        listed(rows).len() <= MAX_CANDIDATES_PER_SERVICE,
        forall|row: ExternalCallCandidateModel| #[trigger] listed(rows).contains(row) ==> rows.contains(row),
        rows.to_set().len() <= MAX_CANDIDATES_PER_SERVICE ==> forall|row: ExternalCallCandidateModel|
            #[trigger] rows.contains(row) ==> listed(rows).contains(row),
{
    let sorted = by_rank_once(rows);
    by_rank_once_sorts(rows);
    assert forall|row: ExternalCallCandidateModel| #[trigger] listed(rows).contains(row) implies rows.contains(row) by {
        let k = choose|k: int| 0 <= k < listed(rows).len() && listed(rows)[k] == row;
        assert(sorted[k] == row);
        assert(sorted.contains(row));
    }
    if rows.to_set().len() <= MAX_CANDIDATES_PER_SERVICE {
        rows_are_no_more_than_given(rows);
        assert(listed(rows) == sorted);
        assert forall|row: ExternalCallCandidateModel| #[trigger] rows.contains(row) implies listed(rows).contains(row) by {
            let y = choose|y: ExternalCallCandidateModel| #[trigger] sorted.contains(y) && same_rank(y, row);
            rows_of_one_rank_are_the_same(y, row);
        }
    }
}

/// Rows in strict order are no more than the different rows among those given.
proof fn rows_are_no_more_than_given(rows: Seq<ExternalCallCandidateModel>)
    ensures
        by_rank_once(rows).len() <= rows.to_set().len(),
{
    let sorted = by_rank_once(rows);
    by_rank_once_sorts(rows);
    assert(sorted.no_duplicates()) by {
        assert forall|i: int, j: int| 0 <= i < j < sorted.len() implies sorted[i] != sorted[j] by {
            ExternalCallCandidateModel::precedes_irreflexive(sorted[i]);
            assert(sorted[i].precedes(sorted[j]));
        }
    }
    sorted.unique_seq_to_set();
    assert(sorted.to_set().subset_of(rows.to_set())) by {
        assert forall|row: ExternalCallCandidateModel| sorted.to_set().contains(row) implies rows.to_set().contains(row) by {
            assert(sorted.contains(row));
            assert(rows.contains(row));
        }
    }
    vstd::set_lib::lemma_len_subset(sorted.to_set(), rows.to_set());
}

/// The rows of both sources in one list.
pub fn merge(sdk_rows: Vec<ExternalCallCandidate>, http_rows: Vec<ExternalCallCandidate>) -> (r: Vec<
    ExternalCallCandidate,
>)
    ensures
        r.deep_view() == listed(sdk_rows.deep_view() + http_rows.deep_view()),
{
    let ghost all = sdk_rows.deep_view() + http_rows.deep_view();
    let mut merged: Vec<ExternalCallCandidate> = Vec::new();
    assert(merged.deep_view() =~= Seq::<ExternalCallCandidateModel>::empty());
    place_all(&mut merged, &sdk_rows, Ghost(Seq::empty()));
    assert(Seq::<ExternalCallCandidateModel>::empty() + sdk_rows.deep_view() =~= sdk_rows.deep_view());
    place_all(&mut merged, &http_rows, Ghost(sdk_rows.deep_view()));
    cap(merged)
}

/// Puts rows into a sorted list.
pub(crate) fn place_all(
    sorted: &mut Vec<ExternalCallCandidate>,
    rows: &Vec<ExternalCallCandidate>,
    Ghost(before): Ghost<Seq<ExternalCallCandidateModel>>,
)
    requires
        old(sorted).deep_view() == by_rank_once(before),
    ensures
        final(sorted).deep_view() == by_rank_once(before + rows.deep_view()),
{
    let ghost all = rows.deep_view();
    let mut i: usize = 0;
    assert(before + all.take(0) =~= before);
    while i < rows.len()
        invariant
            i <= rows.len(),
            all == rows.deep_view(),
            sorted.deep_view() == by_rank_once(before + all.take(i as int)),
        decreases rows.len() - i,
    {
        let ghost next = before + all.take(i + 1);
        assert(next.drop_last() =~= before + all.take(i as int));
        assert(next.last() == rows@[i as int].deep_view());
        place_once(sorted, rows[i].duplicate());
        i += 1;
    }
    assert(all.take(all.len() as int) =~= all);
}

/// The same rows give the same list, in whatever order and from whichever
/// source they come.
pub proof fn the_list_is_determined_by_its_rows(a: Seq<ExternalCallCandidateModel>, b: Seq<ExternalCallCandidateModel>)
    requires
        forall|row: ExternalCallCandidateModel| #[trigger] a.contains(row) == b.contains(row),
    ensures
        listed(a) == listed(b),
{
    let p = by_rank_once(a);
    let q = by_rank_once(b);
    same_members_rank_alike(a, b);
    assert forall|i: int| 0 <= i < p.len() implies p[i] == q[i] by {
        assert(same_rank(p[i], q[i]));
        rows_of_one_rank_are_the_same(p[i], q[i]);
    }
    assert(p =~= q);
}

// ---------------------------------------------------------------------------
// Requests
// ---------------------------------------------------------------------------

/// Where a request goes and how that is known, where it is declared to go to
/// somebody else. A request that names a host is told by the host.
pub open spec fn data_call_target(
    call: DataFetchingCallModel,
    config: ConfigModel,
    external_domains: Seq<Seq<char>>,
) -> Option<(Seq<char>, CallMechanism)> {
    match call.host {
        Some(host) => if in_some_domain(host, external_domains) {
            Some((host, CallMechanism::ExternalHttp))
        } else {
            None
        },
        None => match env_var_base(call.canonical_path) {
            Some(name) => if config.external_env_vars.contains(name) {
                Some((name, CallMechanism::EnvVarUrl))
            } else {
                None
            },
            None => None,
        },
    }
}

fn classify_data_call(call: &DataFetchingCall, config: &Config, normalizer: &UrlNormalizer) -> (r: Option<
    (String, CallMechanism),
>)
    ensures
        match (r, data_call_target(call.deep_view(), config.deep_view(), normalizer.external_domains.deep_view())) {
            (Some(r), Some(target)) => r.0@ == target.0 && r.1 == target.1,
            (None, None) => true,
            _ => false,
        },
{
    match &call.host {
        Some(host) => {
            if normalizer.is_external_host(host.as_str()) {
                Some((host.clone(), CallMechanism::ExternalHttp))
            } else {
                None
            }
        },
        None => match read_env_var_base(call.canonical_path.as_str()) {
            Some(name) => {
                if config.is_external_env_var(name.as_str()) {
                    Some((name, CallMechanism::EnvVarUrl))
                } else {
                    None
                }
            },
            None => None,
        },
    }
}

/// The file of a location that ends in a line.
pub open spec fn located_file(location: Seq<char>) -> Seq<char> {
    match last_cut(location, ':') {
        Some((file, line)) => if number_in(line) is Some {
            file
        } else {
            location
        },
        None => location,
    }
}

fn read_located_file(location: &str) -> (r: String)
    ensures
        r@ == located_file(location@),
{
    match rsplit_once(location, ':') {
        Some((file, line)) => {
            if parse_number(line.as_str()).is_some() {
                file
            } else {
                location.to_owned()
            }
        },
        None => location.to_owned(),
    }
}

/// A file as it reads from the repository root.
pub open spec fn row_file(file: Seq<char>, repo_root: Seq<char>) -> Seq<char> {
    trimmed_start_text(relative_to(file, repo_root), "./"@)
}

/// The row of a request, where there is one: its target is declared to be
/// somebody else's, and its line is known. Lines count from one.
pub open spec fn data_call_row(
    call: DataFetchingCallModel,
    repo_root: Seq<char>,
    config: ConfigModel,
    external_domains: Seq<Seq<char>>,
) -> Option<ExternalCallCandidateModel> {
    match (data_call_target(call, config, external_domains), call.line) {
        (Some((package, mechanism)), Some(line)) if line > 0 => Some(
            ExternalCallCandidateModel {
                file: row_file(located_file(call.file_location), repo_root),
                line: line as usize,
                callee: unicode_uppercase(call.method),
                package,
                mechanism,
                import_symbol: None,
                subpath: None,
            },
        ),
        _ => None,
    }
}

pub open spec fn data_call_rows(
    calls: Seq<DataFetchingCallModel>,
    repo_root: Seq<char>,
    config: ConfigModel,
    external_domains: Seq<Seq<char>>,
) -> Seq<ExternalCallCandidateModel>
    decreases calls.len(),
{
    if calls.len() == 0 {
        Seq::empty()
    } else {
        let before = data_call_rows(calls.drop_last(), repo_root, config, external_domains);
        match data_call_row(calls.last(), repo_root, config, external_domains) {
            Some(row) => before.push(row),
            None => before,
        }
    }
}

/// The rows of the requests of a service that are declared to leave it.
pub fn from_data_calls(
    data_calls: &Vec<DataFetchingCall>,
    repo_root: &str,
    config: &Config,
    normalizer: &UrlNormalizer,
) -> (r: Vec<ExternalCallCandidate>)
    ensures
        r.deep_view() == listed(
            data_call_rows(
                data_calls.deep_view(),
                repo_root@,
                config.deep_view(),
                normalizer.external_domains.deep_view(),
            ),
        ),
        forall|k: int|
            #![trigger r.deep_view()[k]]
            0 <= k < r.deep_view().len() ==> exists|i: int|
                0 <= i < data_calls.deep_view().len() && tells_of(
                    r.deep_view()[k],
                    #[trigger] data_calls.deep_view()[i],
                    repo_root@,
                    config.deep_view(),
                    normalizer.external_domains.deep_view(),
                ) && (is_ascii_text(data_calls.deep_view()[i].method) ==> is_raised(
                    data_calls.deep_view()[i].method,
                    r.deep_view()[k].callee,
                )),
{
    let ghost calls = data_calls.deep_view();
    let ghost settings = config.deep_view();
    let ghost domains = normalizer.external_domains.deep_view();
    let mut rows: Vec<ExternalCallCandidate> = Vec::new();
    let mut i: usize = 0;
    assert(rows.deep_view() =~= by_rank_once(data_call_rows(calls.take(0), repo_root@, settings, domains)));
    while i < data_calls.len()
        invariant
            i <= data_calls.len(),
            calls == data_calls.deep_view(),
            settings == config.deep_view(),
            domains == normalizer.external_domains.deep_view(),
            rows.deep_view() == by_rank_once(data_call_rows(calls.take(i as int), repo_root@, settings, domains)),
            forall|j: int|
                0 <= j < i && data_call_row(#[trigger] calls[j], repo_root@, settings, domains) is Some && is_ascii_text(
                    calls[j].method,
                ) ==> is_raised(calls[j].method, unicode_uppercase(calls[j].method)),
        decreases data_calls.len() - i,
    {
        let ghost so_far = data_call_rows(calls.take(i as int), repo_root@, settings, domains);
        let call = &data_calls[i];
        assert(calls.take(i + 1).drop_last() =~= calls.take(i as int));
        assert(calls.take(i + 1).last() == call.deep_view());
        match classify_data_call(call, config, normalizer) {
            Some((package, mechanism)) => match call.line {
                Some(line) if line > 0 => {
                    let file = read_located_file(call.file_location.as_str());
                    let relative = make_relative(file.as_str(), repo_root);
                    proof {
                        reveal_strlit("./");
                    }
                    let row = ExternalCallCandidate {
                        file: trim_start_text(relative.as_str(), "./"),
                        line: line as usize,
                        callee: to_uppercase(call.method.as_str()),
                        package,
                        mechanism,
                        import_symbol: None,
                        subpath: None,
                    };
                    assert(so_far.push(row.deep_view()).drop_last() =~= so_far);
                    proof {
                        uppercase_is_raised(call.method@);
                    }
                    place_once(&mut rows, row);
                },
                _ => {},
            },
            None => {},
        }
        i += 1;
    }
    assert(calls.take(calls.len() as int) =~= calls);
    proof {
        let all = listed(data_call_rows(calls, repo_root@, settings, domains));
        assert forall|k: int| 0 <= k < all.len() implies exists|i: int|
            0 <= i < calls.len() && tells_of(#[trigger] all[k], #[trigger] calls[i], repo_root@, settings, domains) && (
            is_ascii_text(calls[i].method) ==> is_raised(calls[i].method, all[k].callee)) by {
            let i = every_row_is_of_a_request(calls, repo_root@, settings, domains, k);
            assert(tells_of(all[k], calls[i], repo_root@, settings, domains));
        }
    }
    cap(rows)
}

} // verus!
