pub mod basic_html_generator;
pub mod helpers;
