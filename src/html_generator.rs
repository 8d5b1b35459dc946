use markdown::mdast::Node;
use vstd::prelude::*;

use crate::html_visitor::basic_html_generator::{render, BasicHtmlVisitor};

verus! {

/// Holds the root of a syntax tree and renders it.
#[derive(Debug)]
pub struct HtmlGenerator {
    pub root_node: Node,
}

impl HtmlGenerator {
    /// The HTML fragment of the whole tree, written by `visitor`.
    pub fn generate_html(&self, visitor: BasicHtmlVisitor) -> (r: String)
        ensures
            r@ == render(self.root_node),
    {
        visitor.visit_node(&self.root_node)
    }
}

} // verus!
