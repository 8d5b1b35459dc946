//! Renders a markdown syntax tree (`markdown::mdast::Node`) as an HTML fragment.

pub mod html_generator;
pub mod html_visitor;
pub mod mdast_types;
