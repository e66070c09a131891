use html2md::converter::Converter;
use html2md::error::Error;
use html2md::urls::UrlParseError;

fn convert(html: &str) -> String {
    let c = match Converter::new("https://example.com") {
        Ok(c) => c,
        Err(_) => panic!("base URL refused"),
    };
    match c.convert(html) {
        Ok(s) => s,
        Err(_) => panic!("conversion failed"),
    }
}

#[test]
fn test_basic() {
    let c = Converter::new("https://example.com").ok().unwrap();
    assert!(c.convert("<h1>Title</h1><p>Hello</p>").is_ok());
}

#[test]
fn heading_and_paragraph() {
    assert_eq!(convert("<h1>Title</h1><p>Hello</p>"), "# Title\n\nHello");
}

#[test]
fn heading_levels() {
    assert_eq!(convert("<h3>Deep heading</h3>"), "### Deep heading");
}

#[test]
fn list_items_are_on_adjacent_lines() {
    assert_eq!(convert("<ul><li>One</li><li>Two</li></ul>"), "- One\n- Two");
}

#[test]
fn rule_after_paragraph_is_dropped_as_repetition() {
    assert_eq!(convert("<p>Before</p><hr><p>After</p>"), "Before\n\nAfter");
}

#[test]
fn inline_marks() {
    assert_eq!(
        convert("<p>Some <strong>bold</strong> and <em>it</em> and <code>x</code></p>"),
        "Some **bold** and *it* and `x`"
    );
}

#[test]
fn citations_are_stripped() {
    assert_eq!(convert("<p>Fact[1] here[note 4].</p>"), "Fact here.");
}

#[test]
fn blockquote_lines() {
    assert_eq!(convert("<blockquote>Quote text</blockquote>"), "> Quote text");
}

#[test]
fn code_block_language_from_pre_class() {
    assert_eq!(
        convert("<pre class=\"language-rust\">fn main() {}</pre>"),
        "```rust\nfn main() {}\n```"
    );
}

#[test]
fn code_inside_pre_is_skipped_but_names_the_language() {
    assert_eq!(
        convert("<pre>text<code class=\"language-go\">x</code></pre>"),
        "```go\ntext\n```"
    );
}

#[test]
fn links_resolve_against_the_base() {
    assert_eq!(
        convert("<div><a href=\"/about\">About us</a><div>Block</div></div>"),
        "[About us](https://example.com/about)\n\nBlock"
    );
}

#[test]
fn images_resolve_against_the_base() {
    assert_eq!(
        convert("<div><img src=\"pic.png\" alt=\"A pic\"><p>Text</p></div>"),
        "![A pic](https://example.com/pic.png)\n\nText"
    );
}

#[test]
fn heading_edit_links_are_dropped() {
    assert_eq!(convert("<h2>History <a href=\"?action=edit\">edit</a></h2>"), "## History");
}

#[test]
fn data_table_rows_join_their_cells() {
    assert_eq!(
        convert("<p>Intro</p><table><tr><td>A</td><td>B</td></tr></table>"),
        "Intro\n\nA | B"
    );
}

#[test]
fn cell_text_leaves_out_nested_tables() {
    assert_eq!(
        convert("<table><tr><td>Alpha <b>one</b><span><table><tr><td>Beta</td></tr></table></span></td></tr></table>"),
        "Alpha one"
    );
}

#[test]
fn heading_edit_link_text_is_dropped() {
    assert_eq!(
        convert("<h2>History<a href='/wiki?action=edit'>Edit section</a></h2>"),
        "## History"
    );
    assert_eq!(convert("<h2>Usage <a href='#x'> edit </a></h2>"), "## Usage");
}

#[test]
fn layout_table_is_walked() {
    assert_eq!(convert("<table><tr><td><div>Inside</div></td></tr></table>"), "Inside");
}

#[test]
fn boilerplate_is_dropped() {
    assert_eq!(
        convert("<p>Please log in to continue</p><p>Real content</p>"),
        "Real content"
    );
}

#[test]
fn navigation_is_removed() {
    assert_eq!(convert("<nav><p>Menu items</p></nav><p>Body text</p>"), "Body text");
}

#[test]
fn scripts_are_removed() {
    assert_eq!(convert("<script>var x = 1;</script><p>Visible</p>"), "Visible");
}

#[test]
fn article_is_preferred_over_body() {
    assert_eq!(
        convert("<div><p>Outside text</p></div><article><p>Inside article</p></article>"),
        "Inside article"
    );
}

#[test]
fn line_breaks_add_nothing() {
    assert_eq!(
        convert("<div><p>One line</p><br><p>Two line</p></div>"),
        "One line\n\nTwo line"
    );
}

#[test]
fn repeated_paragraphs_are_kept_once() {
    assert_eq!(convert("<p>Same words</p><p>Same words</p>"), "Same words");
}

#[test]
fn empty_page_gives_empty_output() {
    assert_eq!(convert(""), "");
}

#[test]
fn invalid_base_url_is_refused() {
    match Converter::new("not a url") {
        Err(Error::InvalidUrl(url, kind)) => {
            assert_eq!(kind, UrlParseError::RelativeUrlWithoutBase);
            assert_eq!(url, "not a url");
        }
        _ => panic!("expected an invalid URL error"),
    }
}

#[test]
fn verbose_flag_is_kept() {
    let c = Converter::with_verbose("https://example.com", true).ok().unwrap();
    assert!(c.verbose());
    let d = Converter::new("https://example.com").ok().unwrap();
    assert!(!d.verbose());
}

fn resolve(href: &str) -> String {
    let c = Converter::new("https://example.com/docs/").ok().unwrap();
    let v: Vec<char> = href.chars().collect();
    c.resolve_url(&v).iter().collect()
}

#[test]
fn resolve_url_rules() {
    assert_eq!(resolve("javascript:void(0)"), "");
    assert_eq!(resolve("mailto:a@b.c"), "");
    assert_eq!(resolve("#section"), "#section");
    assert_eq!(resolve("page.html"), "https://example.com/docs/page.html");
    assert_eq!(resolve("/root"), "https://example.com/root");
    assert_eq!(resolve("https://other.org/x"), "https://other.org/x");
}

#[test]
fn converter_is_reexported_at_the_root() {
    let c = html2md::Converter::new("https://example.com").ok().unwrap();
    let out = c.convert("<p>   spaced   out   </p>").ok().unwrap();
    assert_eq!(out, "spaced out");
    assert_eq!(out.trim(), out);
}

#[test]
fn heading_repeated_words_are_kept_once() {
    assert_eq!(convert("<h2><span>Intro</span><span>Intro</span></h2>"), "## Intro");
    assert_eq!(convert("<h3>Intro  Intro more more text Intro</h3>"), "### Intro more text Intro");
}
