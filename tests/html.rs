use license_retriever::html::{first_code_block, page_anchors};
use license_retriever::remote::{hosting_license_links, index_license_links};

#[test]
fn anchors_are_read_in_order() {
    let html = r#"<ul><li><a href="./LICENSE-MIT" class="pure-menu-link"><span class="fa"></span> LICENSE-MIT</a></li>
<li><a href='x'>no double quotes</a><a
 href="src/" class="pure-menu-link">src</a></li><abbr>not an anchor</abbr></ul>"#;
    let a = page_anchors(html);
    assert_eq!(a.len(), 3);
    assert_eq!(a[0].href, "./LICENSE-MIT");
    assert_eq!(a[0].class, "pure-menu-link");
    assert_eq!(a[0].text, " LICENSE-MIT");
    assert_eq!(a[1].href, "");
    assert_eq!(a[1].text, "no double quotes");
    assert_eq!(a[2].href, "src/");
    assert_eq!(a[2].text, "src");
}

#[test]
fn anchor_references_are_replaced() {
    let a = page_anchors(r#"<a href="/q?a=1&amp;b=2">Tom &amp; Jerry &lt;3&gt; &quot;x&quot; &#39;y&#39;</a>"#);
    assert_eq!(a[0].href, "/q?a=1&b=2");
    assert_eq!(a[0].text, "Tom & Jerry <3> \"x\" 'y'");
}

#[test]
fn unclosed_anchor_stops_the_scan() {
    assert!(page_anchors("<a href=\"LICENSE\">LICENSE").is_empty());
    assert!(page_anchors("").is_empty());
    assert!(page_anchors("<a").is_empty());
}

#[test]
fn code_block_text() {
    let html = "<pre><code class=\"language-text\"><span>MIT &lt;License&gt;</span>\nline</code></pre>";
    assert_eq!(first_code_block(html), Some("MIT <License>\nline".to_string()));
    assert_eq!(first_code_block("<pre>plain</pre>"), None);
    assert_eq!(first_code_block("<code>open"), None);
}

#[test]
fn listing_page_end_to_end() {
    let url = "https://docs.rs/crate/foo/1.2.3/source/";
    let html = r#"<a href="../">..</a><a href="LICENSE-MIT" class="pure-menu-link">LICENSE-MIT</a><a href="Cargo.toml">Cargo.toml</a>"#;
    let targets = page_anchors(html).into_iter().map(|a| a.href).collect();
    assert_eq!(
        index_license_links(url, Some(targets)),
        vec!["https://docs.rs/crate/foo/1.2.3/source/LICENSE-MIT"]
    );
}

#[test]
fn hosting_page_end_to_end() {
    let html = r#"<a class="js-navigation-open Link--primary" title="LICENSE" href="/o/r/blob/main/LICENSE">LICENSE</a>
<a class="js-navigation-open Link--primary" href="/o/r/blob/main/src">src</a>"#;
    let links = hosting_license_links("https://github.com/o/r", Some(page_anchors(html))).unwrap();
    assert_eq!(links, vec!["https://raw.githubusercontent.com/o/r/main/LICENSE"]);
    assert!(hosting_license_links("https://example.org/x", Some(page_anchors("<p>hi</p>"))).is_err());
}
