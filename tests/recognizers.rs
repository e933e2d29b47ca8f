use markdown_parser::{
    parse_bold, parse_code_block, parse_header, parse_header_tag, parse_image, parse_inline,
    parse_italic, parse_link, parse_markdown, parse_markdown_inline, parse_markdown_text,
    parse_ordered_list, parse_ordered_list_element, parse_ordered_list_tag, parse_plain,
    parse_quote, parse_quote_line, parse_quote_tag, parse_unordered_list,
    parse_unordered_list_element, parse_unordered_list_tag, ErrorKind, Markdown, MarkdownInLine,
    ParseError,
};

fn fail(input: &str, kind: ErrorKind) -> ParseError<'_> {
    ParseError { input, kind }
}

#[test]
fn test_parse_bold() {
    assert_eq!(parse_bold("**bold text**"), Ok(("", "bold text")));
    assert_eq!(parse_bold("**not bold"), Err(fail("", ErrorKind::Tag)));
    assert_eq!(
        parse_bold("not bold**"),
        Err(fail("not bold**", ErrorKind::Tag))
    );
    assert_eq!(
        parse_bold("another not bold"),
        Err(fail("another not bold", ErrorKind::Tag))
    );
    assert_eq!(parse_bold("****"), Err(fail("**", ErrorKind::IsNot)));
    assert_eq!(parse_bold("**"), Err(fail("", ErrorKind::IsNot)));
    assert_eq!(parse_bold("*"), Err(fail("*", ErrorKind::Tag)));
    assert_eq!(parse_bold(""), Err(fail("", ErrorKind::Tag)));
    assert_eq!(
        parse_bold("*this is italic*"),
        Err(fail("*this is italic*", ErrorKind::Tag))
    );
}

#[test]
fn test_parse_italics() {
    assert_eq!(
        parse_italic("*italic text*"),
        Ok(("", "italic text"))
    );
    assert_eq!(
        parse_italic("*not italic"),
        Err(fail("", ErrorKind::Tag))
    );
    assert_eq!(
        parse_italic("not italic*"),
        Err(fail("not italic*", ErrorKind::Tag))
    );
    assert_eq!(
        parse_italic("another not italic"),
        Err(fail("another not italic", ErrorKind::Tag))
    );
    assert_eq!(parse_italic("*"), Err(fail("", ErrorKind::IsNot)));
    assert_eq!(parse_italic("**"), Err(fail("*", ErrorKind::IsNot)));
    assert_eq!(parse_italic(""), Err(fail("", ErrorKind::Tag)));
    assert_eq!(
        parse_italic("**this is bold**"),
        Err(fail("*this is bold**", ErrorKind::IsNot))
    );
}

#[test]
fn test_parse_inline_code() {
    assert_eq!(
        parse_inline("`inline text`"),
        Ok(("", ("inline text", None)))
    );
    assert_eq!(
        parse_inline("`inline text`rust"),
        Ok(("", ("inline text", Some("rust"))))
    );
    assert_eq!(
        parse_inline("`inline text`rust\n"),
        Ok(("\n", ("inline text", Some("rust"))))
    );
    assert_eq!(
        parse_inline("`inline text`rust "),
        Ok((" ", ("inline text", Some("rust"))))
    );
    assert_eq!(
        parse_inline("`not inline"),
        Err(fail("", ErrorKind::Tag))
    );
    assert_eq!(
        parse_inline("not inline`"),
        Err(fail("not inline`", ErrorKind::Tag))
    );
    assert_eq!(parse_inline("``"), Err(fail("`", ErrorKind::IsNot)));
    assert_eq!(parse_inline("`"), Err(fail("", ErrorKind::IsNot)));
    assert_eq!(parse_inline(""), Err(fail("", ErrorKind::Tag)));
}

#[test]
fn test_parse_link() {
    assert_eq!(
        parse_link("[title](https://www.example.com)"),
        Ok(("", ("title", "https://www.example.com")))
    );
    assert_eq!(parse_inline(""), Err(fail("", ErrorKind::Tag)));
}

#[test]
fn test_parse_image() {
    assert_eq!(
        parse_image("![alt text](image.jpg)"),
        Ok(("", ("alt text", "image.jpg")))
    );
    assert_eq!(parse_inline(""), Err(fail("", ErrorKind::Tag)));
}

#[test]
fn test_parse_plaintext() {
    assert_eq!(
        parse_plain("1234567890"),
        Ok(("", String::from("1234567890")))
    );
    assert_eq!(
        parse_plain("plaintext"),
        Ok(("", String::from("plaintext")))
    );
    assert_eq!(
        parse_plain("plaintext!"),
        Ok(("", String::from("plaintext!")))
    );
    assert_eq!(
        parse_plain("plaintext!["),
        Ok(("![", String::from("plaintext")))
    );
    assert_eq!(
        parse_plain("plaintext!*"),
        Ok(("*", String::from("plaintext!")))
    );
    assert_eq!(
        parse_plain("plaintext![image"),
        Ok(("![image", String::from("plaintext")))
    );
    assert_eq!(
        parse_plain("plaintext\n"),
        Ok(("\n", String::from("plaintext")))
    );
    assert_eq!(
        parse_plain("*bold text*"),
        Err(fail("*bold text*", ErrorKind::Not))
    );
    assert_eq!(
        parse_plain("[example](https://example.com)"),
        Err(fail("[example](https://example.com)", ErrorKind::Not))
    );
    assert_eq!(
        parse_plain("`codeblock for bums`"),
        Err(fail("`codeblock for bums`", ErrorKind::Not))
    );
    assert_eq!(
        parse_plain("![ but wait theres more](jk)"),
        Err(fail("![ but wait theres more](jk)", ErrorKind::Not))
    );
    assert_eq!(
        parse_plain("*italic*"),
        Err(fail("*italic*", ErrorKind::Not))
    );
    assert_eq!(
        parse_plain("**bold**"),
        Err(fail("**bold**", ErrorKind::Not))
    );
    assert_eq!(
        parse_plain("`inline code`"),
        Err(fail("`inline code`", ErrorKind::Not))
    );
    assert_eq!(
        parse_plain("[title](https://example.com)"),
        Err(fail("[title](https://example.com)", ErrorKind::Not))
    );
    assert_eq!(
        parse_plain("![alt text](image.jpg)"),
        Err(fail("![alt text](image.jpg)", ErrorKind::Not))
    );
    assert_eq!(parse_plain(""), Err(fail("", ErrorKind::Eof)));
}

#[test]
fn test_parse_markdown_inline() {
    assert_eq!(
        parse_markdown_inline("*italic*"),
        Ok(("", MarkdownInLine::Italic(String::from("italic"))))
    );
    assert_eq!(
        parse_markdown_inline("**bold**"),
        Ok(("", MarkdownInLine::Bold(String::from("bold"))))
    );
    assert_eq!(
        parse_markdown_inline("`inline code`python"),
        Ok(("", MarkdownInLine::InlineCode(String::from("inline code"), Some(String::from("python")))))
    );
    assert_eq!(
        parse_markdown_inline("[title](https://www.example.com)"),
        Ok((
            "",
            (MarkdownInLine::Link(
                String::from("title"),
                String::from("https://www.example.com"),
            ))
        ))
    );
    assert_eq!(
        parse_markdown_inline("![text](image.png)"),
        Ok((
            "",
            (MarkdownInLine::Image(String::from("text"), String::from("image.png")))
        ))
    );
    assert_eq!(
        parse_markdown_inline("plaintext!"),
        Ok((
            "",
            MarkdownInLine::Plain(String::from("plaintext!"))
        ))
    );
    assert_eq!(
        parse_markdown_inline("here is some plaintext *but what if we italicize?"),
        Ok((
            "*but what if we italicize?",
            MarkdownInLine::Plain(String::from("here is some plaintext "))
        ))
    );
    assert_eq!(
        parse_markdown_inline("here is some plaintext \n*but what if we italicize?"),
        Ok((
            "\n*but what if we italicize?",
            MarkdownInLine::Plain(String::from("here is some plaintext "))
        ))
    );
    assert_eq!(
        parse_markdown_inline("\n"),
        Err(fail("\n", ErrorKind::Tag))
    );
    assert_eq!(parse_markdown_inline(""), Err(fail("", ErrorKind::Tag)));
}

#[test]
fn test_parse_markdown_text() {
    assert_eq!(parse_markdown_text("\n"), Ok(("", vec![])));
    assert_eq!(
        parse_markdown_text("here is some plaintext\n"),
        Ok((
            "",
            vec![MarkdownInLine::Plain(String::from(
                "here is some plaintext"
            ))]
        ))
    );
    assert_eq!(
        parse_markdown_text("here is some plaintext *but what if we italicize?*\n"),
        Ok((
            "",
            vec![
                MarkdownInLine::Plain(String::from("here is some plaintext ")),
                MarkdownInLine::Italic(String::from("but what if we italicize?")),
            ]
        ))
    );
    assert_eq!(
        parse_markdown_text("here is some plaintext *but what if we italicize?* I guess it doesnt **matter** in my `code`\n"),
        Ok(("", vec![
            MarkdownInLine::Plain(String::from("here is some plaintext ")),
            MarkdownInLine::Italic(String::from("but what if we italicize?")),
            MarkdownInLine::Plain(String::from(" I guess it doesnt ")),
            MarkdownInLine::Bold(String::from("matter")),
            MarkdownInLine::Plain(String::from(" in my ")),
            MarkdownInLine::InlineCode(String::from("code"), None),
        ]))
    );
    assert_eq!(
        parse_markdown_text("here is some plaintext *but what if we italicize?*\n"),
        Ok((
            "",
            vec![
                MarkdownInLine::Plain(String::from("here is some plaintext ")),
                MarkdownInLine::Italic(String::from("but what if we italicize?")),
            ]
        ))
    );
    assert_eq!(
        parse_markdown_text("here is some plaintext *but what if we italicize?"),
        Err(fail("*but what if we italicize?", ErrorKind::Tag))
    );
}

#[test]
fn test_parse_header_tag() {
    assert_eq!(parse_header_tag("# "), Ok(("", 1)));
    assert_eq!(parse_header_tag("### "), Ok(("", 3)));
    assert_eq!(parse_header_tag("# h1"), Ok(("h1", 1)));
    assert_eq!(parse_header_tag("# h1"), Ok(("h1", 1)));
    assert_eq!(
        parse_header_tag(" "),
        Err(fail(" ", ErrorKind::TakeWhile1))
    );
    assert_eq!(parse_header_tag("#"), Err(fail("", ErrorKind::Tag)));
}

#[test]
fn test_parse_header() {
    assert_eq!(
        parse_header("# h1\n"),
        Ok(("", (1, vec![MarkdownInLine::Plain(String::from("h1"))])))
    );
    assert_eq!(
        parse_header("## h2\n"),
        Ok(("", (2, vec![MarkdownInLine::Plain(String::from("h2"))])))
    );
    assert_eq!(
        parse_header("###  h3\n"),
        Ok((
            "",
            (3, vec![MarkdownInLine::Plain(String::from(" h3"))])
        ))
    );
    assert_eq!(parse_header("###h3"), Err(fail("h3", ErrorKind::Tag)));
    assert_eq!(parse_header("###"), Err(fail("", ErrorKind::Tag)));
    assert_eq!(parse_header(""), Err(fail("", ErrorKind::TakeWhile1)));
    assert_eq!(parse_header("#"), Err(fail("", ErrorKind::Tag)));
    assert_eq!(parse_header("# \n"), Ok(("", (1, vec![]))));
    assert_eq!(parse_header("# test"), Err(fail("", ErrorKind::Tag)));
}

#[test]
fn test_parse_unordered_list_tag() {
    assert_eq!(parse_unordered_list_tag("- "), Ok(("", "-")));
    assert_eq!(
        parse_unordered_list_tag("- and some more"),
        Ok(("and some more", "-"))
    );
    assert_eq!(
        parse_unordered_list_tag("-"),
        Err(fail("", ErrorKind::Tag))
    );
    assert_eq!(
        parse_unordered_list_tag("-and some more"),
        Err(fail("and some more", ErrorKind::Tag))
    );
    assert_eq!(
        parse_unordered_list_tag("--"),
        Err(fail("-", ErrorKind::Tag))
    );
    assert_eq!(
        parse_unordered_list_tag(""),
        Err(fail("", ErrorKind::Tag))
    );
}

#[test]
fn test_parse_unordered_list_element() {
    assert_eq!(
        parse_unordered_list_element("- this is an element\n"),
        Ok((
            "",
            vec![MarkdownInLine::Plain(String::from(
                "this is an element"
            ))]
        ))
    );
    assert_eq!(
        parse_unordered_list_element("- this is an element\n- this is another element\n"),
        Ok((
            "- this is another element\n",
            vec![MarkdownInLine::Plain(String::from(
                "this is an element"
            ))]
        ))
    );
    assert_eq!(
        parse_unordered_list_element(""),
        Err(fail("", ErrorKind::Tag))
    );
    assert_eq!(parse_unordered_list_element("- \n"), Ok(("", vec![])));
    assert_eq!(
        parse_unordered_list_element("- "),
        Err(fail("", ErrorKind::Tag))
    );
    assert_eq!(
        parse_unordered_list_element("- test"),
        Err(fail("", ErrorKind::Tag))
    );
    assert_eq!(
        parse_unordered_list_element("-"),
        Err(fail("", ErrorKind::Tag))
    );
}

#[test]
fn test_parse_unordered_list() {
    assert_eq!(
        parse_unordered_list("- this is an element"),
        Err(fail("", ErrorKind::Tag))
    );
    assert_eq!(
        parse_unordered_list("- this is an element\n"),
        Ok((
            "",
            vec![vec![MarkdownInLine::Plain(String::from(
                "this is an element"
            ))]]
        ))
    );
    assert_eq!(
        parse_unordered_list("- this is an element\n- here is another\n"),
        Ok((
            "",
            vec![
                vec![MarkdownInLine::Plain(String::from(
                    "this is an element"
                ))],
                vec![MarkdownInLine::Plain(String::from("here is another"))]
            ]
        ))
    );
}

#[test]
fn test_parse_ordered_list_tag() {
    assert_eq!(parse_ordered_list_tag("1. "), Ok(("", "1")));
    assert_eq!(parse_ordered_list_tag("1234567. "), Ok(("", "1234567")));
    assert_eq!(
        parse_ordered_list_tag("3. and some more"),
        Ok(("and some more", "3"))
    );
    assert_eq!(
        parse_ordered_list_tag("1"),
        Err(fail("", ErrorKind::Tag))
    );
    assert_eq!(
        parse_ordered_list_tag("1.and some more"),
        Err(fail("and some more", ErrorKind::Tag))
    );
    assert_eq!(
        parse_ordered_list_tag("1111."),
        Err(fail("", ErrorKind::Tag))
    );
    assert_eq!(
        parse_ordered_list_tag(""),
        Err(fail("", ErrorKind::TakeWhile1))
    );
}

#[test]
fn test_parse_ordered_list_element() {
    assert_eq!(
        parse_ordered_list_element("1. this is an element\n"),
        Ok((
            "",
            vec![MarkdownInLine::Plain(String::from(
                "this is an element"
            ))]
        ))
    );
    assert_eq!(
        parse_ordered_list_element("1. this is an element\n1. here is another\n"),
        Ok((
            "1. here is another\n",
            vec![MarkdownInLine::Plain(String::from(
                "this is an element"
            ))]
        ))
    );
    assert_eq!(
        parse_ordered_list_element(""),
        Err(fail("", ErrorKind::TakeWhile1))
    );
    assert_eq!(
        parse_ordered_list_element(""),
        Err(fail("", ErrorKind::TakeWhile1))
    );
    assert_eq!(parse_ordered_list_element("1. \n"), Ok(("", vec![])));
    assert_eq!(
        parse_ordered_list_element("1. test"),
        Err(fail("", ErrorKind::Tag))
    );
    assert_eq!(
        parse_ordered_list_element("1. "),
        Err(fail("", ErrorKind::Tag))
    );
    assert_eq!(
        parse_ordered_list_element("1."),
        Err(fail("", ErrorKind::Tag))
    );
}

#[test]
fn test_parse_ordered_list() {
    assert_eq!(
        parse_ordered_list("1. this is an element\n"),
        Ok((
            "",
            vec![vec![MarkdownInLine::Plain(String::from(
                "this is an element"
            ))]]
        ))
    );
    assert_eq!(
        parse_ordered_list("1. test"),
        Err(fail("", ErrorKind::Tag))
    );
    assert_eq!(
        parse_ordered_list("1. this is an element\n2. here is another\n"),
        Ok((
            "",
            vec![
                vec!(MarkdownInLine::Plain(String::from(
                    "this is an element"
                ))),
                vec![MarkdownInLine::Plain(String::from("here is another"))]
            ]
        ))
    );
}

#[test]
fn test_parse_codeblock() {
    assert_eq!(
        parse_code_block("```bash\npip install foobar\n```"),
        Ok(("", ("bash", "pip install foobar\n")))
    );
    assert_eq!(
        parse_code_block("```python\nimport foobar\n\nfoobar.pluralize('word') # returns 'words'\nfoobar.pluralize('goose') # returns 'geese'\nfoobar.singularize('phenomena') # returns 'phenomenon'\n```"),
        Ok(("", ("python", "import foobar\n\nfoobar.pluralize('word') # returns 'words'\nfoobar.pluralize('goose') # returns 'geese'\nfoobar.singularize('phenomena') # returns 'phenomenon'\n")))
    );
}

#[test]
fn test_parse_markdown() {
    assert_eq!(
        parse_markdown("# Foobar\n\nFoobar is a Python library for dealing with word pluralization.\n\n```bash\n#!/bin/bash\npip install foobar\n```\n## Installation\n\nUse the package manager [pip](https://pip.pypa.io/en/stable/) to install foobar.\n```python\nimport foobar\n\nfoobar.pluralize('word') # returns 'words'\nfoobar.pluralize('goose') # returns 'geese'\nfoobar.singularize('phenomena') # returns 'phenomenon'\n```"),
        Ok(("", vec![
            Markdown::Heading(1, vec![MarkdownInLine::Plain(String::from("Foobar"))]),
            Markdown::Text(vec![]),
            Markdown::Text(vec![MarkdownInLine::Plain(String::from("Foobar is a Python library for dealing with word pluralization."))]),
            Markdown::Text(vec![]),
            Markdown::CodeBlock(String::from("#!/bin/bash\npip install foobar\n"), Some(String::from("bash"))),
            Markdown::Text(vec![]),
            Markdown::Heading(2, vec![MarkdownInLine::Plain(String::from("Installation"))]),
            Markdown::Text(vec![]),
            Markdown::Text(vec![
                MarkdownInLine::Plain(String::from("Use the package manager ")),
                MarkdownInLine::Link(String::from("pip"), String::from("https://pip.pypa.io/en/stable/")),
                MarkdownInLine::Plain(String::from(" to install foobar.")),
            ]),
            Markdown::CodeBlock(String::from("import foobar\n\nfoobar.pluralize('word') # returns 'words'\nfoobar.pluralize('goose') # returns 'geese'\nfoobar.singularize('phenomena') # returns 'phenomenon'\n"), Some(String::from("python"))),
        ]))
    )
}

#[test]
fn test_parse_quote_tag() {
    assert_eq!(
        parse_quote_tag("> "),
        Ok(("", ">"))
    );
    assert_eq!(
        parse_quote_tag("> this is a quote\n"),
        Ok(("this is a quote\n", ">"))
    );
    assert_eq!(
        parse_quote_tag("> this is a quote\n> this is another quote\n"),
        Ok(("this is a quote\n> this is another quote\n", ">"))
    );
    assert_eq!(
        parse_quote_tag("> **this is a bold quote**\n"),
        Ok(("**this is a bold quote**\n", ">"))
    );
    assert_eq!(
        parse_quote_tag(""),
        Err(fail("", ErrorKind::Tag))
    );
    assert_eq!(
        parse_quote_tag("not a quote"),
        Err(fail("not a quote", ErrorKind::Tag))
    );
    assert_eq!(
        parse_quote_tag(">"),
        Err(fail("", ErrorKind::Tag))
    );
    assert_eq!(
        parse_quote_tag(">not a quote"),
        Err(fail("not a quote", ErrorKind::Tag))
    );
}

#[test]
fn test_parse_quote_text() {
    assert_eq!(
        parse_quote_line("> this is a quote\n"),
        Ok(("", vec![
            MarkdownInLine::Plain(String::from("this is a quote"))
        ]))
    );
    assert_eq!(
        parse_quote_line("> **this is a bold quote**\n> this is another quote\n"),
        Ok(("> this is another quote\n", vec![
            MarkdownInLine::Bold(String::from("this is a bold quote"))
        ]))
    );
    assert_eq!(
        parse_quote_line(""),
        Err(fail("", ErrorKind::Tag))
    );
    assert_eq!(
        parse_quote_line(">"),
        Err(fail("", ErrorKind::Tag))
    );
    assert_eq!(
        parse_quote_line("not a quote"),
        Err(fail("not a quote", ErrorKind::Tag))
    );
}

#[test]
fn test_parse_quote() {
    assert_eq!(
        parse_quote("> this is a quote\n"),
        Ok(("", vec![
            vec![MarkdownInLine::Plain(String::from("this is a quote"))],
        ]))
    );
    assert_eq!(
        parse_quote("> **this is a bold quote**\n> this is another quote\n"),
        Ok(("", vec![
            vec![MarkdownInLine::Bold(String::from("this is a bold quote"))],
            vec![MarkdownInLine::Plain(String::from("this is another quote"))]
        ]))
    );
    assert_eq!(
        parse_quote("> - this is a list inside a quote\n> - this the second list\n"),
        Ok(("", vec![
            vec![MarkdownInLine::Plain(String::from("- this is a list inside a quote"))],
            vec![MarkdownInLine::Plain(String::from("- this the second list"))]
        ]))
    );
}
