use fetch_mcp_rs::html::{
    extract_html_tag_block, extract_primary_html_fragment, strip_html_comments,
    strip_html_tag_blocks, strip_unwanted_html_blocks,
};
use fetch_mcp_rs::markdown::{
    clean_html, may_break, simplify, simplify_html_to_markdown, Simplified,
};

#[test]
fn extracts_the_first_balanced_block() {
    assert_eq!(
        extract_html_tag_block("a<MAIN id=x>b<main>c</main>d</Main >e<main>f</main>", "main"),
        Some("<MAIN id=x>b<main>c</main>d</Main >")
    );
    assert_eq!(extract_html_tag_block("no block", "main"), None);
    assert_eq!(extract_html_tag_block("<main>never closed", "main"), None);
    assert_eq!(extract_html_tag_block("<main>half</main", "main"), None);
    assert_eq!(extract_html_tag_block("<main", "main"), None);
    assert_eq!(extract_html_tag_block("</main><main>x</main>", "main"), Some("<main>x</main>"));
}

#[test]
fn extraction_counts_void_tags() {
    assert_eq!(extract_html_tag_block("<main/>x</main>y</main>", "main"), Some("<main/>x</main>"));
    assert_eq!(extract_html_tag_block("<main><main/>x</main>", "main"), None);
}

#[test]
fn extraction_matches_name_prefixes() {
    assert_eq!(extract_html_tag_block("<mainly>x</main>", "main"), Some("<mainly>x</main>"));
}

#[test]
fn extraction_keeps_characters_whole() {
    assert_eq!(
        extract_html_tag_block("\u{20ac}\u{e9}<main>\u{1f980} caf\u{e9}</main>\u{e9}", "main"),
        Some("<main>\u{1f980} caf\u{e9}</main>")
    );
}

#[test]
fn extraction_with_an_upper_case_name_finds_nothing() {
    assert_eq!(extract_html_tag_block("<MAIN>x</MAIN>", "MAIN"), None);
    assert_eq!(strip_html_tag_blocks("<NAV>x</NAV>", "NAV"), "<NAV>x</NAV>");
}

#[test]
fn extracting_a_block_from_itself_gives_it_back() {
    let page = "x<main>a<main>b</main>c</main>y";
    let block = extract_html_tag_block(page, "main").unwrap();
    assert_eq!(extract_html_tag_block(block, "main"), Some(block));
}

#[test]
fn surroundings_do_not_change_the_block() {
    let block = "<main>a<main>b</main>c</main>";
    assert_eq!(extract_html_tag_block(block, "main"), Some(block));
    let page = format!("</main><ma in>{block}<main>d</main><main>");
    assert_eq!(extract_html_tag_block(&page, "main"), Some(block));
}

#[test]
fn letter_case_does_not_matter() {
    let page = "A<Nav>B<NAV/></nAv>C<MAIN>D</maiN>E";
    let folded = page.to_ascii_lowercase();
    assert_eq!(
        strip_html_tag_blocks(&folded, "nav"),
        strip_html_tag_blocks(page, "nav").to_ascii_lowercase()
    );
    assert_eq!(extract_html_tag_block(page, "main"), Some("<MAIN>D</maiN>"));
    assert_eq!(extract_html_tag_block(&folded, "main"), Some("<main>d</main>"));
}

#[test]
fn fragments_are_preferred_in_order() {
    let main = "<body><article>a</article><main>m</main></body>";
    assert_eq!(extract_primary_html_fragment(main), Some("<main>m</main>"));
    let article = "<body><article>a</article><main>m</body>";
    assert_eq!(extract_primary_html_fragment(article), Some("<article>a</article>"));
    let body = "<html><body>b</body></html>";
    assert_eq!(extract_primary_html_fragment(body), Some("<body>b</body>"));
    assert_eq!(extract_primary_html_fragment("plain"), None);
}

#[test]
fn comments_are_cut() {
    assert_eq!(strip_html_comments("a<!-- b -->c<!---->d"), "acd");
    assert_eq!(strip_html_comments("no comment"), "no comment");
    assert_eq!(strip_html_comments("a<!-- open"), "a");
    assert_eq!(strip_html_comments("a<!-->b-->c"), "ac");
    assert_eq!(strip_html_comments("<!-<!-- x -->- y"), "<!-- y");
}

#[test]
fn blocks_are_cut() {
    assert_eq!(strip_html_tag_blocks("a<nav>b</nav>c", "nav"), "ac");
    assert_eq!(strip_html_tag_blocks("a<NAV x>b<nav>c</nav>d</Nav>e", "nav"), "ae");
    assert_eq!(strip_html_tag_blocks("a<nav/>b<nav>c</nav>d", "nav"), "abd");
    assert_eq!(strip_html_tag_blocks("a<nav><nav/>b</nav>c", "nav"), "ac");
    assert_eq!(strip_html_tag_blocks("a<nav>never closed", "nav"), "a");
    assert_eq!(strip_html_tag_blocks("a<nav>b</nav", "nav"), "a");
    assert_eq!(strip_html_tag_blocks("a<nav>b</nav>c<nav d", "nav"), "ac<nav d");
    assert_eq!(strip_html_tag_blocks("a<nav", "nav"), "a<nav");
    assert_eq!(strip_html_tag_blocks("nothing to cut", "nav"), "nothing to cut");
}

#[test]
fn a_block_is_cut_wherever_it_stands() {
    let block = "<nav><nav>x</nav></nav>";
    let whole = format!("before{block}after<nav>y</nav>!");
    let after = strip_html_tag_blocks("after<nav>y</nav>!", "nav");
    assert_eq!(strip_html_tag_blocks(&whole, "nav"), format!("before{after}"));
}

#[test]
fn cutting_may_join_what_stood_around_a_block() {
    assert_eq!(strip_html_tag_blocks("<n<nav></nav>av>x", "nav"), "<nav>x");
}

#[test]
fn clutter_is_cut() {
    assert_eq!(
        strip_unwanted_html_blocks(
            "<p>a</p><!-- b --><script>c</script><style>d</style><noscript>e</noscript>\
             <svg>f</svg><nav>g</nav><footer>h</footer><aside>i</aside><p>j</p>"
        ),
        "<p>a</p><p>j</p>"
    );
    assert_eq!(strip_unwanted_html_blocks("<p>clean</p>"), "<p>clean</p>");
}

#[test]
fn simplifies_to_markdown() {
    let page = "<body><h1>Title</h1><aside>x</aside><i>text</i></body>";
    assert_eq!(clean_html(page), "<body><h1>Title</h1><i>text</i></body>");
    assert_eq!(simplify_html_to_markdown(page), "Title\n==========\n\n*text*");
}

#[test]
fn only_the_main_block_matters() {
    let page = "<body><p>outside</p><main><p>inside</p></main></body>";
    let block = "<main><p>inside</p></main>";
    assert_eq!(simplify_html_to_markdown(page), "inside");
    assert_eq!(simplify_html_to_markdown(block), "inside");
}

fn markdown(page: &str) -> String {
    match simplify(page) {
        Simplified::Markdown(text) => text,
        Simplified::Html(html) => panic!("{html}"),
    }
}

#[test]
fn lists_are_converted() {
    assert_eq!(markdown("<body><ul><li>a</li><li>b</li></ul></body>"), "* a\n* b");
    assert_eq!(markdown("<div><li>x</li></div>"), "x");
    assert_eq!(
        markdown("<ul><li><a href=\"/a\">a</a></li><li><A hidden HREF='/b' >b</A></li></ul>"),
        "* [a](/a)\n* [b](/b)"
    );
    assert_eq!(markdown("<p><b>x</b></p><ul><li>a</li></ul>"), "**x**\n\n* a");
    assert_eq!(markdown("<div><b>y</b> <em>z</em><li> x</li></div>"), "**y** *z* x");
    assert_eq!(markdown("<ul><li><b><i>last</i></b></li></ul>"), "* ***last***");
}

#[test]
fn items_that_may_stand_in_markup_are_left_to_the_caller() {
    match simplify("<body><nav>x</nav><B>b<ul><LI>a</LI></ul></B></body>") {
        Simplified::Html(html) => assert_eq!(html, "<body><B>b<ul><LI>a</LI></ul></B></body>"),
        Simplified::Markdown(text) => panic!("{text}"),
    }
    assert!(may_break("<div><b><li>x</li></b></div>"));
    for tag in ["a", "q", "cite", "blockquote", "b", "i", "s", "strong", "em", "del"] {
        assert!(may_break(&format!("<{tag}>x<Li>")));
        assert!(may_break(&format!("<{tag} id=\"x\"><li/>")));
        assert!(may_break(&format!("<{tag}><p>x</{tag}><li>")));
        assert!(may_break(&format!("<{tag}><{tag}>x</{tag}><li>")));
        assert!(may_break(&format!("<{tag} id=\"></{tag}><li>\"><li>")));
        assert!(may_break(&format!("<{tag} \"=\">x</{tag}><li>")));
        assert!(may_break(&format!("<{tag} id=x>y</{tag}><li>")));
        assert!(may_break(&format!("<{tag} id=\"x\"id=\"y\">z</{tag}><li>")));
        assert!(may_break(&format!("<{tag}>x</{tag}x><li>")));
        assert!(!may_break(&format!("<Li>x<{tag}>")));
        assert!(!may_break(&format!("<{tag}>x</{tag}><li>")));
        assert!(!may_break(&format!("<{tag}/>x</{tag}\n><li>")));
        assert!(!may_break(&format!("<{tag} a b-c='>\"<' d=\"'\" />x</{tag}><li>")));
        assert!(!may_break(&format!("<{tag}>x</li>")));
        assert!(!may_break(&format!("<{tag}x><li>")));
    }
    assert!(!may_break("<a><link>"));
    assert!(!may_break(""));
}
