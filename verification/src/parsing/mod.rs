//! Source texts: how they are parsed, and the syntax that the passes walk.
//!
//! The parser gives a tree, spelled out as JSON, and the places where lines
//! begin. What the tree says as a [`Module`] is stated and read here.

pub mod reader;
pub mod tree;

use crate::event_emitter::{extension, extension_of};
use crate::json::{json_model, Json, JsonModel};
use crate::syntax::Module;
use crate::text::same;
use reader::read_module;
use swc_common::sync::Lrc;
use swc_common::{FileName, Globals, Mark, SourceMap, GLOBALS};
use swc_ecma_parser::{EsSyntax, Parser, StringInput, Syntax, TsSyntax};
use swc_ecma_transforms_base::resolver;
use swc_ecma_visit::VisitMutWith;
use tree::module_is;
use vstd::prelude::*;
use vstd::utf8::encode_utf8;

verus! {

// ---------------------------------------------------------------------------
// Grammars
// ---------------------------------------------------------------------------

/// What a source text is parsed as.
#[derive(Debug, Clone, Copy, PartialEq, Eq, Structural)]
pub enum Grammar {
    TypeScript { tsx: bool, decorators: bool },
    Script { jsx: bool },
}

/// The grammar of a file, by its extension. TypeScript has decorators; only a
/// `tsx` or `jsx` file has elements.
pub open spec fn grammar_of(name: Seq<char>) -> Grammar {
    match extension(name) {
        Some(ext) => if ext == "ts"@ {
            Grammar::TypeScript { tsx: false, decorators: true }
        } else if ext == "tsx"@ {
            Grammar::TypeScript { tsx: true, decorators: true }
        } else {
            Grammar::Script { jsx: ext == "jsx"@ }
        },
        None => Grammar::Script { jsx: false },
    }
}

pub fn syntax_for(name: &str) -> (r: Grammar)
    ensures
        r == grammar_of(name@),
{
    match extension_of(name) {
        Some(ext) => if same(ext.as_str(), "ts") {
            Grammar::TypeScript { tsx: false, decorators: true }
        } else if same(ext.as_str(), "tsx") {
            Grammar::TypeScript { tsx: true, decorators: true }
        } else {
            Grammar::Script { jsx: same(ext.as_str(), "jsx") }
        },
        None => Grammar::Script { jsx: false },
    }
}

// ---------------------------------------------------------------------------
// The parser
// ---------------------------------------------------------------------------

/// The positions that the parser can give to a text.
pub const POSITIONS: u32 = 0xFFFE_FFFE;

/// A text is short enough that every place in it has a position.
pub open spec fn has_positions(source: Seq<char>) -> bool {
    encode_utf8(source).len() < POSITIONS
}

pub fn fits_positions(source: &str) -> (r: bool)
    ensures
        r == has_positions(source@),
{
    source.as_bytes().len() < POSITIONS as usize
}

/// A value of the JSON crate.
#[verifier::external_type_specification]
#[verifier::external_body]
pub struct ExValue(serde_json::Value);

/// What a value of the JSON crate holds.
pub uninterp spec fn value_holds(value: serde_json::Value) -> JsonModel;

/// What the parser makes of a text: the tree of the module; nothing where the
/// text is no module of the grammar.
pub uninterp spec fn tree_in(grammar: Grammar, source: Seq<char>) -> Option<JsonModel>;

/// A text without the byte order mark that may begin it.
pub open spec fn unmarked(source: Seq<char>) -> Seq<char> {
    if source.len() > 0 && source[0] == '\u{feff}' {
        source.skip(1)
    } else {
        source
    }
}

/// A line ends with this byte: a line feed, or a carriage return without one
/// behind it.
pub open spec fn ends_line(bytes: Seq<u8>, i: int) -> bool {
    bytes[i] == 10 || bytes[i] == 13 && !(i + 1 < bytes.len() && bytes[i + 1] == 10)
}

/// The positions at which lines begin: the first, and the one behind each of the
/// first bytes that ends a line. Positions count from one.
pub open spec fn line_begins(bytes: Seq<u8>, n: nat) -> Seq<u32>
    decreases n,
{
    if n == 0 {
        seq![1u32]
    } else {
        let before = line_begins(bytes, (n - 1) as nat);
        if ends_line(bytes, n - 1) {
            before.push((n + 1) as u32)
        } else {
            before
        }
    }
}

/// The positions at which the lines of a text begin. Nothing begins at its end.
pub open spec fn lines_of(source: Seq<char>) -> Seq<u32> {
    let bytes = encode_utf8(unmarked(source));
    let begins = line_begins(bytes, bytes.len());
    if begins.last() == bytes.len() + 1 {
        begins.drop_last()
    } else {
        begins
    }
}

/// `swc_ecma_parser::Parser::parse_module`, with the scopes that
/// `swc_ecma_transforms_base::resolver` gives to names, spelled out by
/// `serde_json::to_value`. What comes back is a function of the grammar and the
/// text.
#[verifier::external_body]
fn parse_tree(grammar: Grammar, source: &str) -> (r: Option<serde_json::Value>)
    requires
        has_positions(source@),
    ensures
        match r {
            Some(tree) => tree_in(grammar, source@) == Some(value_holds(tree)),
            None => tree_in(grammar, source@) is None,
        },
{
    let (syntax, typescript) = match grammar {
        Grammar::TypeScript { tsx, decorators } => (Syntax::Typescript(TsSyntax { tsx, decorators, ..Default::default() }), true),
        Grammar::Script { jsx } => (Syntax::Es(EsSyntax { jsx, ..Default::default() }), false),
    };
    let file = SourceMap::default().new_source_file(Lrc::new(FileName::Anon), source.to_string());
    let mut module = Parser::new(syntax, StringInput::from(&*file), None).parse_module().ok()?;
    GLOBALS.set(&Globals::new(), || module.visit_mut_with(&mut resolver(Mark::new(), Mark::new(), typescript)));
    serde_json::to_value(&module).ok()
}

/// `swc_common::SourceFile::analyze`, of the one file of a fresh
/// `swc_common::SourceMap`: a byte order mark is dropped, the first position is
/// one, and a line begins behind each line feed, carriage return or pair of the
/// two, unless the text ends there.
#[verifier::external_body]
fn line_starts(source: &str) -> (r: Vec<u32>)
    requires
        has_positions(source@),
    ensures
        r@ == lines_of(source@),
{
    let file = SourceMap::default().new_source_file(Lrc::new(FileName::Anon), source.to_string());
    file.analyze().lines.iter().map(|begin| begin.0).collect()
}

/// The variants of `serde_json::Value` one for one, with a number that
/// `serde_json::Number::as_u64` does not give under its own spelling.
#[verifier::external_body]
fn json_of(value: &serde_json::Value) -> (r: Json)
    ensures
        json_model(r) == value_holds(*value),
{
    match value {
        serde_json::Value::Null => Json::Null,
        serde_json::Value::Bool(b) => Json::Bool(*b),
        serde_json::Value::Number(n) => match n.as_u64() {
            Some(n) => Json::Number(n),
            None => Json::Numeral(n.to_string()),
        },
        serde_json::Value::String(s) => Json::Text(s.clone()),
        serde_json::Value::Array(items) => Json::List(items.iter().map(json_of).collect()),
        serde_json::Value::Object(fields) => Json::Object(fields.iter().map(|(k, v)| (k.clone(), json_of(v))).collect()),
    }
}

// ---------------------------------------------------------------------------
// Source texts
// ---------------------------------------------------------------------------

/// A module is what a source text says under the grammar of its file's name; a
/// text that can not be parsed says nothing.
pub open spec fn syntax_is(name: Seq<char>, source: Seq<char>, module: Option<Module>) -> bool {
    match tree_in(grammar_of(name), source) {
        Some(tree) => module matches Some(module) && module_is(lines_of(source), tree, module),
        None => module is None,
    }
}

/// The syntax of a source text, or nothing where it can not be parsed. Names
/// carry the scope that they belong to.
pub fn parse_source(name: &str, source: &str) -> (r: Option<Module>)
    requires
        has_positions(source@),
    ensures
        syntax_is(name@, source@, r),
{
    match parse_tree(syntax_for(name), source) {
        Some(value) => {
            let tree = json_of(&value);
            Some(read_module(&line_starts(source), &tree))
        },
        None => None,
    }
}

/// A file, with its text where it could be read.
pub struct SourceText {
    pub path: String,
    pub text: Option<String>,
}

/// The text of a file has positions for all of it.
pub open spec fn is_readable(file: SourceText) -> bool {
    file.text matches Some(text) ==> has_positions(text@)
}

/// A module is what a file says; a file that could not be read says nothing.
pub open spec fn file_says(file: SourceText, module: Option<Module>) -> bool {
    match file.text {
        Some(text) => syntax_is(file.path@, text@, module),
        None => module is None,
    }
}

/// The syntax of a file.
pub fn parse_text(file: &SourceText) -> (r: Option<Module>)
    requires
        is_readable(*file),
    ensures
        file_says(*file, r),
{
    match &file.text {
        Some(text) => parse_source(file.path.as_str(), text.as_str()),
        None => None,
    }
}

} // verus!
