//! A small Markdown parser: a verified recursive-descent grammar that turns
//! text into a typed document tree of blocks and inline runs.
pub mod ast;
pub mod scan;
pub mod inline;
pub mod block;
pub mod laws;

pub use ast::{ErrorKind, Markdown, MarkdownInLine, MarkdownText, ParseError, ParseResult};
pub use block::{
    parse_code_block, parse_document, parse_header, parse_header_tag, parse_markdown,
    parse_ordered_list, parse_ordered_list_element, parse_ordered_list_tag, parse_quote,
    parse_quote_line, parse_quote_tag, parse_unordered_list, parse_unordered_list_element,
    parse_unordered_list_tag,
};
pub use inline::{
    parse_bold, parse_image, parse_inline, parse_italic, parse_link, parse_markdown_inline,
    parse_markdown_text, parse_plain,
};
