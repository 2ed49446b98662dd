//! Reading import specifiers out of TypeScript source text.
use swc_common::comments::SingleThreadedComments;
use swc_common::sync::Lrc;
use swc_common::{FileName, SourceMap};
use swc_ecma_ast::EsVersion;
use swc_ecma_dep_graph::analyze_dependencies;
use swc_ecma_parser::{parse_file_as_module, Syntax, TsConfig};
use vstd::prelude::*;

verus! {

/// The syntax a source file is written in.
#[derive(Clone, Copy, PartialEq, Eq, Structural)]
pub enum Dialect {
    /// TypeScript (`.ts`).
    Ts,
    /// TypeScript with embedded JSX markup (`.tsx`).
    Tsx,
}

/// The specifiers that the module in `text` imports, exports from or
/// requires, in source order; `None` when `text` does not parse as a module
/// of the given syntax (`tsx`: with JSX markup).
pub uninterp spec fn specifiers_of(text: Seq<char>, tsx: bool) -> Option<Seq<Seq<char>>>;

/// Relies on swc_ecma_parser::parse_file_as_module to parse `text` as a
/// TypeScript module (with JSX when `tsx`), and on
/// swc_ecma_dep_graph::analyze_dependencies for the specifier of each import,
/// re-export and require of that module. Both depend on the text alone.
#[verifier::external_body]
fn parse_specifiers(text: &str, tsx: bool) -> (r: Option<Vec<String>>)
    ensures
        r matches Some(v) ==> specifiers_of(text@, tsx) == Some(v.deep_view()),
        r is None ==> specifiers_of(text@, tsx) is None,
{
    let cm: Lrc<SourceMap> = Default::default();
    let fm = cm.new_source_file(FileName::Anon, text.to_string());
    let comments = SingleThreadedComments::default();
    let syntax = Syntax::Typescript(TsConfig { tsx, ..Default::default() });
    let mut errors = Vec::new();
    let module = parse_file_as_module(&fm, syntax, EsVersion::default(), Some(&comments), &mut errors).ok()?;
    Some(analyze_dependencies(&module, &comments).iter().map(|d| d.specifier.to_string()).collect())
}

/// A source file that the parser rejected.
pub struct ParseError;

/// The import specifiers of a source file, or `ParseError` when its text
/// does not parse in the given dialect.
pub fn check_file(text: &str, dialect: Dialect) -> (r: Result<Vec<String>, ParseError>)
    ensures
        r matches Ok(v) ==> specifiers_of(text@, dialect == Dialect::Tsx) == Some(v.deep_view()),
        r is Err ==> specifiers_of(text@, dialect == Dialect::Tsx) is None,
{
    match parse_specifiers(text, dialect == Dialect::Tsx) {
        Some(v) => Ok(v),
        None => Err(ParseError),
    }
}

} // verus!
