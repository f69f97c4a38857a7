//! The parser adapter: source text in, the attributes of the file out, each
//! as plain data that the rest of the library can read.

use vstd::prelude::*;
use crate::attr_cleaning::CleanError;
use crate::position::{MatchSpan, SourcePosition};

verus! {

#[verifier::external_type_specification]
#[verifier::external_body]
pub struct ExSynAttribute(syn::Attribute);

#[verifier::external_type_specification]
#[verifier::external_body]
pub struct ExSynMeta(syn::Meta);

/// The path at the head of a meta item, such as `allow` or `clippy::msrv`.
pub struct HeadName {
    /// Whether the path is written with a leading `::`.
    pub leading_colon: bool,
    /// The identifiers of the path, in order.
    pub segments: Vec<String>,
}

/// One argument of a meta list: another meta item or a literal.
pub enum MetaArgument {
    Item(MetaItem),
    Lit,
}

/// The structured content of an attribute: a bare path, a path with a
/// parenthesised list of arguments, or a path with a value.
pub enum MetaItem {
    Path(HeadName),
    List(HeadName, Vec<MetaArgument>),
    NameValue(HeadName),
}

/// One attribute of a source file: its structured content, where it has
/// one, and the stretch of text it occupies.
pub struct Annotation {
    pub meta: Option<MetaItem>,
    pub span: MatchSpan,
}

/// Gathers the attributes that a walk over a syntax tree comes by.
struct Collector {
    found: Vec<Annotation>,
}

impl<'ast> syn::visit::Visit<'ast> for Collector {
    /// The hook that `syn`'s tree walk calls on each attribute it visits. It
    /// records what `Attribute::parse_meta` makes of the attribute, nothing
    /// where that fails, and the start and end that `Spanned::span` reports
    /// for it.
    #[verifier::external_body]
    fn visit_attribute(&mut self, node: &'ast syn::Attribute) {
        let span = syn::spanned::Spanned::span(node);
        self.found.push(Annotation {
            meta: node.parse_meta().ok().map(|meta| meta_from_syn(&meta)),
            span: MatchSpan {
                start: SourcePosition { line: span.start().line, column: span.start().column },
                end: SourcePosition { line: span.end().line, column: span.end().column },
            },
        });
    }
}

/// Copies a `syn::Meta` into a `MetaItem`, variant for variant: the path
/// with its leading colon and identifiers, and for a list each nested item
/// in turn.
#[verifier::external_body]
fn meta_from_syn(meta: &syn::Meta) -> MetaItem {
    let head = HeadName {
        leading_colon: meta.path().leading_colon.is_some(),
        segments: meta.path().segments.iter().map(|segment| segment.ident.to_string()).collect(),
    };
    match meta {
        syn::Meta::Path(_) => MetaItem::Path(head),
        syn::Meta::NameValue(_) => MetaItem::NameValue(head),
        syn::Meta::List(list) => MetaItem::List(
            head,
            list.nested.iter().map(|nested| match nested {
                syn::NestedMeta::Meta(inner) => MetaArgument::Item(meta_from_syn(inner)),
                syn::NestedMeta::Lit(_) => MetaArgument::Lit,
            }).collect(),
        ),
    }
}

/// What parsing a source text yields: the attributes of the file in the
/// order the tree walk visits them, or the first syntax error.
pub uninterp spec fn parsed_annotations(source: Seq<char>) -> Result<Seq<Annotation>, CleanError>;

/// Parses `source` with `syn::parse_file` and walks the tree with
/// `syn::visit::visit_file`. The contract claims only that the outcome is a
/// function of the text. On a syntax error it hands back the line and
/// column at which the error's span starts and the error's message.
#[verifier::external_body]
pub(crate) fn parse_annotations(source: &str) -> (parsed: Result<Vec<Annotation>, CleanError>)
    ensures
        match parsed {
            Ok(found) => parsed_annotations(source@) == Ok::<Seq<Annotation>, CleanError>(found@),
            Err(error) => parsed_annotations(source@) == Err::<Seq<Annotation>, CleanError>(
                error,
            ),
        },
{
    match syn::parse_file(source) {
        Err(error) => Err(
            CleanError {
                line: error.span().start().line,
                column: error.span().start().column,
                message: error.to_string(),
            },
        ),
        Ok(file) => {
            let mut collector = Collector { found: Vec::new() };
            syn::visit::visit_file(&mut collector, &file);
            Ok(collector.found)
        },
    }
}

} // verus!
