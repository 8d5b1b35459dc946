use vstd::prelude::*;

verus! {

// The syntax tree of the markdown crate. The node kinds that the renderer
// only tells apart are opaque, as is a node's position in the source.

/// Where a node stands in the source text; the renderer never reads it.
#[verifier::external_type_specification]
#[verifier::external_body]
pub struct ExPosition(markdown::unist::Position);

#[verifier::external_type_specification]
#[verifier::external_body]
pub struct ExBlockquote(markdown::mdast::Blockquote);

#[verifier::external_type_specification]
#[verifier::external_body]
pub struct ExFootnoteDefinition(markdown::mdast::FootnoteDefinition);

#[verifier::external_type_specification]
#[verifier::external_body]
pub struct ExMdxJsxFlowElement(markdown::mdast::MdxJsxFlowElement);

#[verifier::external_type_specification]
#[verifier::external_body]
pub struct ExList(markdown::mdast::List);

#[verifier::external_type_specification]
#[verifier::external_body]
pub struct ExMdxjsEsm(markdown::mdast::MdxjsEsm);

#[verifier::external_type_specification]
#[verifier::external_body]
pub struct ExToml(markdown::mdast::Toml);

#[verifier::external_type_specification]
#[verifier::external_body]
pub struct ExYaml(markdown::mdast::Yaml);

#[verifier::external_type_specification]
#[verifier::external_body]
pub struct ExBreak(markdown::mdast::Break);

#[verifier::external_type_specification]
#[verifier::external_body]
pub struct ExInlineCode(markdown::mdast::InlineCode);

#[verifier::external_type_specification]
#[verifier::external_body]
pub struct ExInlineMath(markdown::mdast::InlineMath);

#[verifier::external_type_specification]
#[verifier::external_body]
pub struct ExDelete(markdown::mdast::Delete);

#[verifier::external_type_specification]
#[verifier::external_body]
pub struct ExEmphasis(markdown::mdast::Emphasis);

#[verifier::external_type_specification]
#[verifier::external_body]
pub struct ExMdxTextExpression(markdown::mdast::MdxTextExpression);

#[verifier::external_type_specification]
#[verifier::external_body]
pub struct ExFootnoteReference(markdown::mdast::FootnoteReference);

#[verifier::external_type_specification]
#[verifier::external_body]
pub struct ExHtml(markdown::mdast::Html);

#[verifier::external_type_specification]
#[verifier::external_body]
pub struct ExImageReference(markdown::mdast::ImageReference);

#[verifier::external_type_specification]
#[verifier::external_body]
pub struct ExMdxJsxTextElement(markdown::mdast::MdxJsxTextElement);

#[verifier::external_type_specification]
#[verifier::external_body]
pub struct ExLinkReference(markdown::mdast::LinkReference);

#[verifier::external_type_specification]
#[verifier::external_body]
pub struct ExStrong(markdown::mdast::Strong);

#[verifier::external_type_specification]
#[verifier::external_body]
pub struct ExCode(markdown::mdast::Code);

#[verifier::external_type_specification]
#[verifier::external_body]
pub struct ExMath(markdown::mdast::Math);

#[verifier::external_type_specification]
#[verifier::external_body]
pub struct ExMdxFlowExpression(markdown::mdast::MdxFlowExpression);

#[verifier::external_type_specification]
#[verifier::external_body]
pub struct ExTable(markdown::mdast::Table);

#[verifier::external_type_specification]
#[verifier::external_body]
pub struct ExThematicBreak(markdown::mdast::ThematicBreak);

#[verifier::external_type_specification]
#[verifier::external_body]
pub struct ExTableRow(markdown::mdast::TableRow);

#[verifier::external_type_specification]
#[verifier::external_body]
pub struct ExTableCell(markdown::mdast::TableCell);

#[verifier::external_type_specification]
#[verifier::external_body]
pub struct ExListItem(markdown::mdast::ListItem);

#[verifier::external_type_specification]
#[verifier::external_body]
pub struct ExDefinition(markdown::mdast::Definition);

// The node kinds whose fields the renderer reads, declared with the fields
// that the markdown crate gives them.

/// The root of the markdown crate's syntax tree: the renderer reads its `children`.
#[verifier::external_type_specification]
pub struct ExRoot(markdown::mdast::Root);

/// A paragraph of the markdown crate: the renderer reads its `children`.
#[verifier::external_type_specification]
pub struct ExParagraph(markdown::mdast::Paragraph);

/// A heading of the markdown crate: the renderer reads its `children` and `depth`.
#[verifier::external_type_specification]
pub struct ExHeading(markdown::mdast::Heading);

/// A link of the markdown crate: the renderer reads its `children` and `url`.
#[verifier::external_type_specification]
pub struct ExLink(markdown::mdast::Link);

/// An image of the markdown crate: the renderer reads its `url` and `alt`.
#[verifier::external_type_specification]
pub struct ExImage(markdown::mdast::Image);

/// A text node of the markdown crate: the renderer reads its `value`.
#[verifier::external_type_specification]
pub struct ExText(markdown::mdast::Text);

/// The markdown crate's node, one variant for each kind: the renderer matches on it.
#[verifier::external_type_specification]
pub struct ExNode(markdown::mdast::Node);

} // verus!
