//! What the operations of an event bus are for.

use crate::event_emitter::{
    bus_of, bus_op, called_method, is_claimed, is_reserved_event, is_script_path, registers, site_of, with_nodes,
    BusExtractionModel, BusOpModel, SocketExtractionModel, SourceFile,
};
use crate::operation::OperationKeyModel;
use crate::syntax::{module_nodes, Node};
use vstd::prelude::*;

verus! {

/// The first argument of a call is a string literal, spread or not.
pub open spec fn is_handed(args: Seq<Node>, event: Seq<char>) -> bool {
    args.len() > 0 && match args[0] {
        Node::Spread(value) => *value matches Node::Text(text) && text@ == event,
        Node::Text(text) => text@ == event,
        _ => false,
    }
}

/// The node is a call `….method("event", …)` at a line.
pub open spec fn calls_with_event(node: Node, method: Seq<char>, event: Seq<char>, line: u32) -> bool {
    match node {
        Node::Call { line: at, callee, args } => at == line && is_handed(args@, event) && (*callee matches Node::Member {
            property,
            ..
        } && property@ == method),
        Node::OptCall { line: at, callee, args } => at == line && is_handed(args@, event) && match *callee {
            Node::Member { property, .. } => property@ == method,
            Node::OptMember { property, .. } => property@ == method,
            _ => false,
        },
        _ => false,
    }
}

/// The words by which a listener is registered.
pub open spec fn listens(method: Seq<char>) -> bool {
    method == "on"@ || method == "once"@ || method == "addListener"@ || method == "prependListener"@ || method
        == "prependOnceListener"@
}

/// The node registers a listener of an event, or emits it.
pub open spec fn uses_event(node: Node, listening: bool, event: Seq<char>, line: u32) -> bool {
    if listening {
        exists|method: Seq<char>| #[trigger] calls_with_event(node, method, event, line) && listens(method)
    } else {
        calls_with_event(node, "emit"@, event, line)
    }
}

proof fn emit_is_no_listener()
    ensures
        !listens("emit"@),
{
    reveal_strlit("emit");
    reveal_strlit("on");
    reveal_strlit("once");
    reveal_strlit("addListener");
    reveal_strlit("prependListener");
    reveal_strlit("prependOnceListener");
    assert("emit"@[0] == 'e');
    assert("once"@[0] == 'o');
}

proof fn sites_use_events(node: Node, listening: bool, event: Seq<char>, line: u32)
    ensures
        (site_of(node) matches Some(site) && site.subscribes == listening && site.event == event && site.line == line)
            <==> uses_event(node, listening, event, line) && !is_reserved_event(event),
{
    emit_is_no_listener();
    if site_of(node) is Some {
        let site = site_of(node)->0;
        let method = called_method(node)->0;
        assert(calls_with_event(node, method, site.event, site.line));
        assert(registers(method) == listens(method));
    }
    if uses_event(node, listening, event, line) {
        if listening {
            let method = choose|method: Seq<char>| #[trigger] calls_with_event(node, method, event, line) && listens(method);
            assert(registers(method));
        }
    }
}

/// The operation is that of a call in a file: the event on the publish-subscribe
/// channel, at the call's file and line.
pub open spec fn is_use_of(op: BusOpModel, file: Seq<char>, node: Node, listening: bool) -> bool {
    &&& uses_event(node, listening, op.event, op.line)
    &&& op.file_path == file
    &&& op.key == (OperationKeyModel::Pubsub { topic: op.event })
}

pub open spec fn side_of(found: BusExtractionModel, listening: bool) -> Seq<BusOpModel> {
    if listening {
        found.subscribers
    } else {
        found.publishers
    }
}

pub open spec fn is_used(nodes: Seq<Node>, op: BusOpModel, file: Seq<char>, listening: bool) -> bool {
    exists|k: int| 0 <= k < nodes.len() && is_use_of(op, file, #[trigger] nodes[k], listening)
}

proof fn pushed<A>(s: Seq<A>, x: A, y: A)
    ensures
        s.push(x).contains(y) <==> s.contains(y) || x == y,
{
    let t = s.push(x);
    if s.contains(y) {
        let k = choose|k: int| 0 <= k < s.len() && s[k] == y;
        assert(t[k] == y);
    }
    if x == y {
        assert(t[s.len() as int] == y);
    }
    if t.contains(y) {
        let k = choose|k: int| 0 <= k < t.len() && t[k] == y;
        if k < s.len() {
            assert(s[k] == y);
        }
    }
}

proof fn nodes_are_used(
    found: BusExtractionModel,
    nodes: Seq<Node>,
    file: Seq<char>,
    sockets: SocketExtractionModel,
    op: BusOpModel,
    listening: bool,
)
    ensures
        side_of(with_nodes(found, nodes, file, sockets), listening).contains(op) <==> side_of(found, listening).contains(op) || (
        is_used(nodes, op, file, listening) && !is_reserved_event(op.event) && !is_claimed(sockets, file, op.line, op.event)),
    decreases nodes.len(),
{
    if nodes.len() > 0 {
        let n = nodes.len() - 1;
        let init = nodes.drop_last();
        let node = nodes[n];
        nodes_are_used(found, init, file, sockets, op, listening);
        assert(nodes.last() == node);
        let before = with_nodes(found, init, file, sockets);
        sites_use_events(node, listening, op.event, op.line);
        if site_of(node) is Some {
            let site = site_of(node)->0;
            let added = bus_op(file, site.event, site.line);
            pushed(side_of(before, listening), added, op);
        }
        if is_used(init, op, file, listening) {
            let k = choose|k: int| 0 <= k < init.len() && is_use_of(op, file, #[trigger] init[k], listening);
            assert(is_use_of(op, file, nodes[k], listening));
        }
        if is_used(nodes, op, file, listening) {
            let k = choose|k: int| 0 <= k < nodes.len() && is_use_of(op, file, #[trigger] nodes[k], listening);
            if k < n {
                assert(is_use_of(op, file, init[k], listening));
            }
        }
        if is_use_of(op, file, node, listening) {
            assert(is_use_of(op, file, nodes[n], listening));
        }
    }
}

/// The file is a script that was read, and a call in it is the operation.
pub open spec fn is_used_in(file: SourceFile, op: BusOpModel, listening: bool) -> bool {
    is_script_path(file.path@) && (file.module matches Some(module) && is_used(
        module_nodes(module),
        op,
        file.path@,
        listening,
    ))
}

/// The operations of a bus are the calls that register a listener of an event,
/// and those that emit one, in the scripts that were read: every one whose event
/// is not one of the runtime's own and that is no operation of a socket, and
/// nothing else.
pub proof fn every_use_of_an_event_is_an_operation(
    files: Seq<SourceFile>,
    sockets: SocketExtractionModel,
    op: BusOpModel,
    listening: bool,
)
    ensures
        side_of(bus_of(files, sockets), listening).contains(op) <==> !is_reserved_event(op.event) && !is_claimed(
            sockets,
            op.file_path,
            op.line,
            op.event,
        ) && exists|i: int| 0 <= i < files.len() && is_used_in(#[trigger] files[i], op, listening),
    decreases files.len(),
{
    if files.len() > 0 {
        let n = files.len() - 1;
        let init = files.drop_last();
        every_use_of_an_event_is_an_operation(init, sockets, op, listening);
        assert(files.last() == files[n]);
        let before = bus_of(init, sockets);
        match files[n].module {
            Some(module) => {
                nodes_are_used(before, module_nodes(module), files[n].path@, sockets, op, listening);
                if is_used(module_nodes(module), op, files[n].path@, listening) {
                    let nodes = module_nodes(module);
                    let k = choose|k: int| 0 <= k < nodes.len() && is_use_of(op, files[n].path@, #[trigger] nodes[k], listening);
                    assert(op.file_path == files[n].path@);
                }
            },
            None => {},
        }
        if exists|i: int| 0 <= i < init.len() && is_used_in(#[trigger] init[i], op, listening) {
            let i = choose|i: int| 0 <= i < init.len() && is_used_in(#[trigger] init[i], op, listening);
            assert(is_used_in(files[i], op, listening));
        }
        if exists|i: int| 0 <= i < files.len() && is_used_in(#[trigger] files[i], op, listening) {
            let i = choose|i: int| 0 <= i < files.len() && is_used_in(#[trigger] files[i], op, listening);
            if i < n {
                assert(is_used_in(init[i], op, listening));
            }
        }
        if is_used_in(files[n], op, listening) {
            assert(is_used_in(files[n], op, listening));
        }
    } else {
        assert(!side_of(bus_of(files, sockets), listening).contains(op));
    }
}

} // verus!
