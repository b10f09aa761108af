use kimi_code_extra::fetch::fetch_output;
use kimi_code_extra::page::{extract_page_text, readable};
use kimi_code_extra::text::is_white_space;
use kimi_code_extra::tool::FunctionToolOutput;

#[test]
fn extracts_readable_page_text() {
    assert_eq!(
        extract_page_text(
            "<html><head><style>x{}</style></head><body><h1>Example &amp; Test</h1><p>Hello <b>world</b>.</p></body></html>"
        ),
        "Example & Test\nHello world ."
    );
}

#[test]
fn scripts_go_with_what_stands_in_them() {
    assert_eq!(
        extract_page_text("a<SCRIPT type=x>if (1 < 2) {\n}</SCRIPT>b<br/>c"),
        "a b\nc"
    );
}

#[test]
fn a_page_without_tags_keeps_its_lines() {
    assert_eq!(
        extract_page_text("  one\ttwo \r\n\r\n\n three"),
        "one two\nthree"
    );
    assert_eq!(extract_page_text(""), "");
    assert_eq!(extract_page_text(" \n\r\n"), "");
}

#[test]
fn references_are_decoded_one_kind_after_the_other() {
    assert_eq!(
        readable("&lt;b&gt; &quot;x&quot; &#39;y&#39;"),
        "<b> \"x\" 'y'"
    );
    assert_eq!(readable("a&nbsp;&nbsp;b"), "a b");
    assert_eq!(readable("&amp;lt;"), "<");
    assert_eq!(readable("&amp;amp;"), "&amp;");
    assert_eq!(readable("&unknown;"), "&unknown;");
}

#[test]
fn readable_text_is_stable() {
    let text = readable(" a \u{a0} b\n\n\u{2003}c\r\nd\re");
    assert_eq!(text, "a b\nc\nd e");
    assert_eq!(readable(&text), text);
}

/// The same with the operations of the standard library.
fn std_readable(tagless: &str) -> String {
    tagless
        .replace("&nbsp;", " ")
        .replace("&amp;", "&")
        .replace("&lt;", "<")
        .replace("&gt;", ">")
        .replace("&quot;", "\"")
        .replace("&#39;", "'")
        .lines()
        .map(|line| line.split_whitespace().collect::<Vec<_>>().join(" "))
        .filter(|line| !line.is_empty())
        .collect::<Vec<_>>()
        .join("\n")
}

#[test]
fn readable_text_is_that_of_the_standard_library() {
    let parts = [
        "a", "\u{e9}\u{1f600}", " ", "\t", "\u{a0}", "\u{3000}", "\n", "\r\n", "\r", "&",
        "&amp;", "&lt;", "&nbsp;", "&#39;", "amp;", "&&amp;",
    ];
    let n = parts.len();
    for code in 0..n * n * n * n {
        let text = [
            parts[code % n],
            parts[code / n % n],
            parts[code / n / n % n],
            parts[code / n / n / n],
        ]
        .concat();
        assert_eq!(readable(&text), std_readable(&text), "{text:?}");
    }
}

#[test]
fn white_space_is_that_of_the_standard_library() {
    for code in 0..=0x10ffffu32 {
        if let Some(c) = char::from_u32(code) {
            assert_eq!(is_white_space(c), c.is_whitespace(), "{c:?}");
        }
    }
}

#[test]
fn the_output_starts_with_how_to_cite() {
    assert_eq!(
        fetch_output("<p>Hi</p>"),
        Ok(FunctionToolOutput {
            text: "The returned content is the main text extracted from the page. If you use it in your answer, cite this page as a markdown link, e.g. [title](url).\n\nHi".to_string(),
            success: Some(true),
        })
    );
}
