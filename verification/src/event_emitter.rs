//! The contracts of in-process event buses.
//!
//! A subscription registers a handler for an event and is the producing side of
//! a contract; an emission sends and is the consuming side. The pass matches the
//! shape of the call, never a library: any receiver that answers the protocol of
//! an emitter counts. Only literal event names have an identity. What the
//! runtime itself emits is no contract between two parts of a codebase, and a
//! site that is already recorded as a socket operation is left there.

use crate::duplicate::{duplicate_all, Duplicate};
use crate::operation::{OperationKey, OperationKeyModel};
use crate::parsing::{file_says, is_readable, parse_text, SourceText};
use crate::paths::{equal_paths, file_name, name_of, same_path};
use crate::syntax::{module_nodes, nodes_of, refer_to, Module, Node};
use crate::text::{last_cut, rsplit_once, same};
use vstd::prelude::*;

verus! {

/// A socket operation, with its place.
#[derive(Debug, Clone, PartialEq, Eq)]
pub struct SocketOp {
    pub key: OperationKey,
    pub file_path: String,
    pub line: u32,
}

/// What a [`SocketOp`] holds.
pub struct SocketOpModel {
    pub key: OperationKeyModel,
    pub file_path: Seq<char>,
    pub line: u32,
}

impl DeepView for SocketOp {
    type V = SocketOpModel;

    open spec fn deep_view(&self) -> SocketOpModel {
        SocketOpModel {
            key: self.key.deep_view(),
            file_path: self.file_path@,
            line: self.line,
        }
    }
}

impl Duplicate for SocketOp {
    fn duplicate(&self) -> (r: Self) {
        SocketOp {
            key: self.key.duplicate(),
            file_path: self.file_path.clone(),
            line: self.line,
        }
    }
}

/// The socket operations of a file set.
#[derive(Debug, Clone, PartialEq, Eq)]
pub struct SocketExtraction {
    pub listeners: Vec<SocketOp>,
    pub emitters: Vec<SocketOp>,
}

/// What a [`SocketExtraction`] holds.
pub struct SocketExtractionModel {
    pub listeners: Seq<SocketOpModel>,
    pub emitters: Seq<SocketOpModel>,
}

impl DeepView for SocketExtraction {
    type V = SocketExtractionModel;

    open spec fn deep_view(&self) -> SocketExtractionModel {
        SocketExtractionModel {
            listeners: self.listeners.deep_view(),
            emitters: self.emitters.deep_view(),
        }
    }
}

impl Duplicate for SocketExtraction {
    fn duplicate(&self) -> (r: Self) {
        SocketExtraction {
            listeners: duplicate_all(&self.listeners),
            emitters: duplicate_all(&self.emitters),
        }
    }
}

/// One side of an in-process event contract, with its place.
#[derive(Debug, Clone, PartialEq, Eq)]
pub struct BusOp {
    /// The event on the pub/sub channel.
    pub key: OperationKey,
    pub event: String,
    pub file_path: String,
    pub line: u32,
}

/// What a [`BusOp`] holds.
pub struct BusOpModel {
    pub key: OperationKeyModel,
    pub event: Seq<char>,
    pub file_path: Seq<char>,
    pub line: u32,
}

impl DeepView for BusOp {
    type V = BusOpModel;

    open spec fn deep_view(&self) -> BusOpModel {
        BusOpModel {
            key: self.key.deep_view(),
            event: self.event@,
            file_path: self.file_path@,
            line: self.line,
        }
    }
}

impl Duplicate for BusOp {
    fn duplicate(&self) -> (r: Self) {
        BusOp {
            key: self.key.duplicate(),
            event: self.event.clone(),
            file_path: self.file_path.clone(),
            line: self.line,
        }
    }
}

/// The two sides of the event contracts of a file set.
#[derive(Debug, Clone, PartialEq, Eq)]
pub struct BusExtraction {
    /// Registrations: the producing side.
    pub subscribers: Vec<BusOp>,
    /// Emissions: the consuming side.
    pub publishers: Vec<BusOp>,
}

/// What a [`BusExtraction`] holds.
pub struct BusExtractionModel {
    pub subscribers: Seq<BusOpModel>,
    pub publishers: Seq<BusOpModel>,
}

impl DeepView for BusExtraction {
    type V = BusExtractionModel;

    open spec fn deep_view(&self) -> BusExtractionModel {
        BusExtractionModel {
            subscribers: self.subscribers.deep_view(),
            publishers: self.publishers.deep_view(),
        }
    }
}

impl Duplicate for BusExtraction {
    fn duplicate(&self) -> (r: Self) {
        BusExtraction {
            subscribers: duplicate_all(&self.subscribers),
            publishers: duplicate_all(&self.publishers),
        }
    }
}

/// The methods that register a handler.
pub open spec fn registers(word: Seq<char>) -> bool {
    ||| word == "on"@
    ||| word == "once"@
    ||| word == "addListener"@
    ||| word == "prependListener"@
    ||| word == "prependOnceListener"@
}

fn is_registration(word: &str) -> (r: bool)
    ensures
        r == registers(word@),
{
    same(word, "on")
        || same(word, "once")
        || same(word, "addListener")
        || same(word, "prependListener")
        || same(word, "prependOnceListener")
}

/// The events that a process, a stream, a socket or a child process emits at the
/// code that subscribes to them.
pub open spec fn is_runtime_event(word: Seq<char>) -> bool {
    ||| word == "SIGBREAK"@
    ||| word == "SIGHUP"@
    ||| word == "SIGINT"@
    ||| word == "SIGQUIT"@
    ||| word == "SIGTERM"@
    ||| word == "SIGUSR1"@
    ||| word == "SIGUSR2"@
    ||| word == "SIGWINCH"@
    ||| word == "beforeExit"@
    ||| word == "exit"@
    ||| word == "rejectionHandled"@
    ||| word == "uncaughtException"@
    ||| word == "unhandledRejection"@
    ||| word == "warning"@
    ||| word == "aborted"@
    ||| word == "clientError"@
    ||| word == "continue"@
    ||| word == "data"@
    ||| word == "drain"@
    ||| word == "end"@
    ||| word == "finish"@
    ||| word == "listening"@
    ||| word == "lookup"@
    ||| word == "open"@
    ||| word == "pause"@
    ||| word == "pipe"@
    ||| word == "readable"@
    ||| word == "ready"@
    ||| word == "request"@
    ||| word == "response"@
    ||| word == "resume"@
    ||| word == "secureConnection"@
    ||| word == "timeout"@
    ||| word == "unpipe"@
    ||| word == "upgrade"@
    ||| word == "close"@
    ||| word == "message"@
    ||| word == "messageerror"@
    ||| word == "online"@
    ||| word == "spawn"@
}

fn of_the_runtime(word: &str) -> (r: bool)
    ensures
        r == is_runtime_event(word@),
{
    same(word, "SIGBREAK")
        || same(word, "SIGHUP")
        || same(word, "SIGINT")
        || same(word, "SIGQUIT")
        || same(word, "SIGTERM")
        || same(word, "SIGUSR1")
        || same(word, "SIGUSR2")
        || same(word, "SIGWINCH")
        || same(word, "beforeExit")
        || same(word, "exit")
        || same(word, "rejectionHandled")
        || same(word, "uncaughtException")
        || same(word, "unhandledRejection")
        || same(word, "warning")
        || same(word, "aborted")
        || same(word, "clientError")
        || same(word, "continue")
        || same(word, "data")
        || same(word, "drain")
        || same(word, "end")
        || same(word, "finish")
        || same(word, "listening")
        || same(word, "lookup")
        || same(word, "open")
        || same(word, "pause")
        || same(word, "pipe")
        || same(word, "readable")
        || same(word, "ready")
        || same(word, "request")
        || same(word, "response")
        || same(word, "resume")
        || same(word, "secureConnection")
        || same(word, "timeout")
        || same(word, "unpipe")
        || same(word, "upgrade")
        || same(word, "close")
        || same(word, "message")
        || same(word, "messageerror")
        || same(word, "online")
        || same(word, "spawn")
}

/// The lifecycle events of a socket.
pub open spec fn is_socket_event(word: Seq<char>) -> bool {
    ||| word == "connect"@
    ||| word == "connect_error"@
    ||| word == "connection"@
    ||| word == "disconnect"@
    ||| word == "disconnecting"@
    ||| word == "error"@
    ||| word == "newListener"@
    ||| word == "removeListener"@
}

fn of_a_socket(word: &str) -> (r: bool)
    ensures
        r == is_socket_event(word@),
{
    same(word, "connect")
        || same(word, "connect_error")
        || same(word, "connection")
        || same(word, "disconnect")
        || same(word, "disconnecting")
        || same(word, "error")
        || same(word, "newListener")
        || same(word, "removeListener")
}

pub open spec fn is_reserved_event(event: Seq<char>) -> bool {
    is_runtime_event(event) || is_socket_event(event)
}

/// Whether an event is the runtime's rather than the codebase's.
pub fn is_reserved(event: &str) -> (r: bool)
    ensures
        r == is_reserved_event(event@),
{
    of_the_runtime(event) || of_a_socket(event)
}

/// A call that takes part in an event contract.
pub struct BusSite {
    pub subscribes: bool,
    pub event: Seq<char>,
    pub line: u32,
}

/// What an argument hands over.
pub open spec fn argument_value(argument: Node) -> Node {
    match argument {
        Node::Spread(value) => *value,
        _ => argument,
    }
}

/// The method that a callee names on its receiver.
pub open spec fn called_method(node: Node) -> Option<Seq<char>> {
    match node {
        Node::Call { callee, .. } => match *callee {
            Node::Member { property, .. } => Some(property@),
            _ => None,
        },
        Node::OptCall { callee, .. } => match *callee {
            Node::Member { property, .. } => Some(property@),
            Node::OptMember { property, .. } => Some(property@),
            _ => None,
        },
        _ => None,
    }
}

pub open spec fn call_line(node: Node) -> u32 {
    match node {
        Node::Call { line, .. } => line,
        Node::OptCall { line, .. } => line,
        _ => 0,
    }
}

/// The literal that a call hands over first.
pub open spec fn first_literal(node: Node) -> Option<Seq<char>> {
    match node {
        Node::Call { args, .. } => literal_of_first(args@),
        Node::OptCall { args, .. } => literal_of_first(args@),
        _ => None,
    }
}

pub open spec fn literal_of_first(args: Seq<Node>) -> Option<Seq<char>> {
    if args.len() > 0 && argument_value(args[0]) is Text {
        Some(argument_value(args[0])->Text_0@)
    } else {
        None
    }
}

/// The part that a node takes in an event contract: a call of a method of the
/// emitter protocol whose first argument is a literal event of the codebase.
pub open spec fn site_of(node: Node) -> Option<BusSite> {
    if called_method(node) matches Some(method) && first_literal(node) matches Some(event) && (registers(method) || method
        == "emit"@) && !is_reserved_event(event) {
        Some(
            BusSite {
                subscribes: registers(called_method(node)->0),
                event: first_literal(node)->0,
                line: call_line(node),
            },
        )
    } else {
        None
    }
}

fn first_text(args: &Vec<Node>) -> (r: Option<&String>)
    ensures
        match r {
            Some(text) => literal_of_first(args@) == Some(text@),
            None => literal_of_first(args@) is None,
        },
{
    if args.len() == 0 {
        return None;
    }
    match &args[0] {
        Node::Text(text) => Some(text),
        Node::Spread(value) => match &**value {
            Node::Text(text) => Some(text),
            _ => None,
        },
        _ => None,
    }
}

fn site(node: &Node) -> (r: Option<(bool, String, u32)>)
    ensures
        match r {
            Some((subscribes, event, line)) => site_of(*node) == Some(BusSite { subscribes, event: event@, line }),
            None => site_of(*node) is None,
        },
{
    let (method, args, line): (&String, &Vec<Node>, u32) = match node {
        Node::Call { line, callee, args } => match &**callee {
            Node::Member { property, .. } => (property, args, *line),
            _ => {
                return None;
            },
        },
        Node::OptCall { line, callee, args } => match &**callee {
            Node::Member { property, .. } => (property, args, *line),
            Node::OptMember { property, .. } => (property, args, *line),
            _ => {
                return None;
            },
        },
        _ => {
            return None;
        },
    };
    let subscribes = is_registration(method.as_str());
    if !subscribes && !same(method.as_str(), "emit") {
        return None;
    }
    match first_text(args) {
        Some(event) => {
            if is_reserved(event.as_str()) {
                None
            } else {
                Some((subscribes, event.clone(), line))
            }
        },
        None => None,
    }
}

// ---------------------------------------------------------------------------
// Sites that are sockets
// ---------------------------------------------------------------------------

pub open spec fn op_claims(op: SocketOpModel, file: Seq<char>, line: u32, event: Seq<char>) -> bool {
    same_path(op.file_path, file) && op.line == line && (op.key matches OperationKeyModel::Socket { event: e, .. } && e == event)
}

/// The socket operations hold one of that event at that place.
pub open spec fn is_claimed(sockets: SocketExtractionModel, file: Seq<char>, line: u32, event: Seq<char>) -> bool {
    ||| exists|i: int| 0 <= i < sockets.listeners.len() && op_claims(#[trigger] sockets.listeners[i], file, line, event)
    ||| exists|i: int| 0 <= i < sockets.emitters.len() && op_claims(#[trigger] sockets.emitters[i], file, line, event)
}

fn any_claims(ops: &Vec<SocketOp>, file: &str, line: u32, event: &str) -> (r: bool)
    ensures
        r == exists|i: int| 0 <= i < ops.deep_view().len() && op_claims(#[trigger] ops.deep_view()[i], file@, line, event@),
{
    let ghost all = ops.deep_view();
    let mut i: usize = 0;
    while i < ops.len()
        invariant
            i <= ops.len(),
            all == ops.deep_view(),
            forall|j: int| 0 <= j < i ==> !op_claims(#[trigger] all[j], file@, line, event@),
        decreases ops.len() - i,
    {
        assert(all[i as int] == ops@[i as int].deep_view());
        let claims = match &ops[i].key {
            OperationKey::Socket { event: e, .. } => same(e.as_str(), event) && ops[i].line == line && equal_paths(
                ops[i].file_path.as_str(),
                file,
            ),
            _ => false,
        };
        if claims {
            assert(op_claims(all[i as int], file@, line, event@));
            return true;
        }
        i += 1;
    }
    false
}

fn claimed(sockets: &SocketExtraction, file: &str, line: u32, event: &str) -> (r: bool)
    ensures
        r == is_claimed(sockets.deep_view(), file@, line, event@),
{
    let ghost model = sockets.deep_view();
    assert(model.listeners == sockets.listeners.deep_view());
    assert(model.emitters == sockets.emitters.deep_view());
    any_claims(&sockets.listeners, file, line, event) || any_claims(&sockets.emitters, file, line, event)
}

// ---------------------------------------------------------------------------
// The pass
// ---------------------------------------------------------------------------

pub open spec fn no_ops() -> BusExtractionModel {
    BusExtractionModel { subscribers: Seq::empty(), publishers: Seq::empty() }
}

impl Default for BusExtraction {
    fn default() -> (r: Self)
        ensures
            r.deep_view() == no_ops(),
    {
        let r = BusExtraction { subscribers: Vec::new(), publishers: Vec::new() };
        assert(r.deep_view().subscribers =~= Seq::<BusOpModel>::empty());
        assert(r.deep_view().publishers =~= Seq::<BusOpModel>::empty());
        r
    }
}

impl Default for SocketExtraction {
    fn default() -> (r: Self)
        ensures
            r.listeners@.len() == 0,
            r.emitters@.len() == 0,
    {
        SocketExtraction { listeners: Vec::new(), emitters: Vec::new() }
    }
}

impl BusExtraction {
    pub fn is_empty(&self) -> (r: bool)
        ensures
            r == (self.deep_view().subscribers.len() == 0 && self.deep_view().publishers.len() == 0),
    {
        self.subscribers.len() == 0 && self.publishers.len() == 0
    }
}

pub open spec fn bus_op(file: Seq<char>, event: Seq<char>, line: u32) -> BusOpModel {
    BusOpModel { key: OperationKeyModel::Pubsub { topic: event }, event, file_path: file, line }
}

/// The operations with the one that a site of a file adds, unless it is claimed.
pub open spec fn with_site(
    found: BusExtractionModel,
    site: BusSite,
    file: Seq<char>,
    sockets: SocketExtractionModel,
) -> BusExtractionModel {
    let op = bus_op(file, site.event, site.line);
    if is_claimed(sockets, file, site.line, site.event) {
        found
    } else if site.subscribes {
        BusExtractionModel { subscribers: found.subscribers.push(op), ..found }
    } else {
        BusExtractionModel { publishers: found.publishers.push(op), ..found }
    }
}

pub open spec fn with_nodes(
    found: BusExtractionModel,
    nodes: Seq<Node>,
    file: Seq<char>,
    sockets: SocketExtractionModel,
) -> BusExtractionModel
    decreases nodes.len(),
{
    if nodes.len() == 0 {
        found
    } else {
        let before = with_nodes(found, nodes.drop_last(), file, sockets);
        match site_of(nodes.last()) {
            Some(site) => with_site(before, site, file, sockets),
            None => before,
        }
    }
}

/// A source file: its path, and its syntax where it could be parsed.
pub struct SourceFile {
    pub path: String,
    pub module: Option<Module>,
}

/// The extension of a path: what follows the last dot of the name that it ends
/// with, where something stands before that dot.
pub open spec fn extension(path: Seq<char>) -> Option<Seq<char>> {
    match name_of(path) {
        Some(name) => match last_cut(name, '.') {
            Some((stem, ext)) => if stem.len() == 0 {
                None
            } else {
                Some(ext)
            },
            None => None,
        },
        None => None,
    }
}

pub open spec fn is_script_path(path: Seq<char>) -> bool {
    extension(path) matches Some(ext) && (ext == "ts"@ || ext == "tsx"@ || ext == "js"@ || ext == "jsx"@)
}

pub fn extension_of(path: &str) -> (r: Option<String>)
    ensures
        r.deep_view() == extension(path@),
{
    match file_name(path) {
        Some(name) => match rsplit_once(name.as_str(), '.') {
            Some((stem, ext)) => if stem.as_str().is_empty() {
                None
            } else {
                Some(ext)
            },
            None => None,
        },
        None => None,
    }
}

pub fn is_script(path: &str) -> (r: bool)
    ensures
        r == is_script_path(path@),
{
    match extension_of(path) {
        Some(ext) => same(ext.as_str(), "ts") || same(ext.as_str(), "tsx") || same(ext.as_str(), "js") || same(
            ext.as_str(),
            "jsx",
        ),
        None => false,
    }
}

/// The operations with those of one file. A file that is no script, or that
/// could not be parsed, has none.
pub open spec fn with_file(found: BusExtractionModel, file: SourceFile, sockets: SocketExtractionModel) -> BusExtractionModel {
    match file.module {
        Some(module) => if is_script_path(file.path@) {
            with_nodes(found, module_nodes(module), file.path@, sockets)
        } else {
            found
        },
        None => found,
    }
}

pub open spec fn bus_of(files: Seq<SourceFile>, sockets: SocketExtractionModel) -> BusExtractionModel
    decreases files.len(),
{
    if files.len() == 0 {
        no_ops()
    } else {
        with_file(bus_of(files.drop_last(), sockets), files.last(), sockets)
    }
}

fn extract(found: &mut BusExtraction, module: &Module, file: &str, sockets: &SocketExtraction)
    ensures
        final(found).deep_view() == with_nodes(old(found).deep_view(), module_nodes(*module), file@, sockets.deep_view()),
{
    let ghost start = found.deep_view();
    let ghost all = module_nodes(*module);
    let nodes = nodes_of(module);
    let mut i: usize = 0;
    while i < nodes.len()
        invariant
            i <= nodes.len(),
            refer_to(nodes@, all),
            start == old(found).deep_view(),
            found.deep_view() == with_nodes(start, all.take(i as int), file@, sockets.deep_view()),
        decreases nodes.len() - i,
    {
        let ghost before = found.deep_view();
        assert(all.take(i + 1).drop_last() =~= all.take(i as int));
        assert(all.take(i + 1).last() == *nodes@[i as int]);
        match site(nodes[i]) {
            Some((subscribes, event, line)) => {
                if !claimed(sockets, file, line, event.as_str()) {
                    let op = BusOp {
                        key: OperationKey::pubsub(event.as_str()),
                        event,
                        file_path: file.to_owned(),
                        line,
                    };
                    assert(op.deep_view() == bus_op(file@, event@, line));
                    if subscribes {
                        found.subscribers.push(op);
                        assert(found.subscribers.deep_view() =~= before.subscribers.push(op.deep_view()));
                    } else {
                        found.publishers.push(op);
                        assert(found.publishers.deep_view() =~= before.publishers.push(op.deep_view()));
                    }
                }
            },
            None => {},
        }
        i += 1;
    }
    assert(all.take(all.len() as int) =~= all);
}

/// The event contracts of the scripts among the files, file by file. Every site
/// that the socket operations hold already is skipped.
pub fn scan_files(service_files: &Vec<SourceFile>, sockets: &SocketExtraction) -> (r: BusExtraction)
    ensures
        r.deep_view() == bus_of(service_files@, sockets.deep_view()),
{
    let mut found = BusExtraction::default();
    let mut i: usize = 0;
    while i < service_files.len()
        invariant
            i <= service_files.len(),
            found.deep_view() == bus_of(service_files@.take(i as int), sockets.deep_view()),
        decreases service_files.len() - i,
    {
        assert(service_files@.take(i + 1).drop_last() =~= service_files@.take(i as int));
        assert(service_files@.take(i + 1).last() == service_files@[i as int]);
        if is_script(service_files[i].path.as_str()) {
            match &service_files[i].module {
                Some(module) => extract(&mut found, module, service_files[i].path.as_str(), sockets),
                None => {},
            }
        }
        i += 1;
    }
    assert(service_files@.take(service_files@.len() as int) =~= service_files@);
    found
}

/// Files with the syntax of their texts. Only scripts are parsed.
pub open spec fn are_parsed(texts: Seq<SourceText>, files: Seq<SourceFile>) -> bool {
    files.len() == texts.len() && forall|i: int| 0 <= i < texts.len() ==> is_parsed(texts[i], #[trigger] files[i])
}

pub open spec fn is_parsed(text: SourceText, file: SourceFile) -> bool {
    file.path@ == text.path@ && if is_script_path(text.path@) {
        file_says(text, file.module)
    } else {
        file.module is None
    }
}

/// The event contracts of the files, read off their texts.
pub fn scan_sources(texts: &Vec<SourceText>, sockets: &SocketExtraction) -> (r: BusExtraction)
    requires
        forall|i: int| 0 <= i < texts@.len() ==> is_readable(#[trigger] texts@[i]),
    ensures
        exists|files: Seq<SourceFile>| #[trigger]
            are_parsed(texts@, files) && r.deep_view() == bus_of(files, sockets.deep_view()),
{
    let mut files: Vec<SourceFile> = Vec::new();
    let mut i: usize = 0;
    while i < texts.len()
        invariant
            i <= texts.len(),
            files.len() == i,
            forall|k: int| 0 <= k < texts@.len() ==> is_readable(#[trigger] texts@[k]),
            forall|k: int| 0 <= k < i ==> is_parsed(texts@[k], #[trigger] files@[k]),
        decreases texts.len() - i,
    {
        assert(is_readable(texts@[i as int]));
        let module = if is_script(texts[i].path.as_str()) {
            parse_text(&texts[i])
        } else {
            None
        };
        files.push(SourceFile { path: texts[i].path.clone(), module });
        i += 1;
    }
    assert(are_parsed(texts@, files@));
    scan_files(&files, sockets)
}

// ---------------------------------------------------------------------------
// What holds of every operation
// ---------------------------------------------------------------------------

/// An operation is on the pub/sub channel under its own event, that event is the
/// codebase's, and no socket operation holds its place.
pub open spec fn is_bus_contract(op: BusOpModel, sockets: SocketExtractionModel) -> bool {
    &&& op.key == (OperationKeyModel::Pubsub { topic: op.event })
    &&& !is_reserved_event(op.event)
    &&& !is_claimed(sockets, op.file_path, op.line, op.event)
}

pub open spec fn are_bus_contracts(found: BusExtractionModel, sockets: SocketExtractionModel) -> bool {
    &&& forall|i: int| 0 <= i < found.subscribers.len() ==> is_bus_contract(#[trigger] found.subscribers[i], sockets)
    &&& forall|i: int| 0 <= i < found.publishers.len() ==> is_bus_contract(#[trigger] found.publishers[i], sockets)
}

proof fn nodes_add_contracts(
    found: BusExtractionModel,
    nodes: Seq<Node>,
    file: Seq<char>,
    sockets: SocketExtractionModel,
)
    requires
        are_bus_contracts(found, sockets),
    ensures
        are_bus_contracts(with_nodes(found, nodes, file, sockets), sockets),
    decreases nodes.len(),
{
    if nodes.len() > 0 {
        nodes_add_contracts(found, nodes.drop_last(), file, sockets);
    }
}

/// Every operation that the pass reports is a contract of the codebase: keyed by
/// its event, not one of the runtime's, and recorded nowhere as a socket
/// operation.
pub proof fn reported_ops_are_contracts(files: Seq<SourceFile>, sockets: SocketExtractionModel)
    ensures
        are_bus_contracts(bus_of(files, sockets), sockets),
    decreases files.len(),
{
    if files.len() > 0 {
        reported_ops_are_contracts(files.drop_last(), sockets);
        let file = files.last();
        if file.module is Some {
            nodes_add_contracts(bus_of(files.drop_last(), sockets), module_nodes(file.module->0), file.path@, sockets);
        }
    }
}

} // verus!
