use blogcore::feeds::{generate_atom_feed, generate_json_feed, generate_rss_feed, SiteMeta};
use blogcore::matter::FrontMatter;
use blogcore::render::{markdown_to_html, Renderer};
use blogcore::repo::Article;
use blogcore::slug::slug_for;
use blogcore::toc::extract_toc;

fn site() -> SiteMeta {
    SiteMeta {
        title: "A Feed".to_string(),
        home_url: "https://example.org/".to_string(),
        feed_url: "https://example.org/feed.json".to_string(),
        description: "articles".to_string(),
        language: "en-us".to_string(),
    }
}

fn article(id: &str, title: &str, date: &str, snippet: &str, content: &str) -> Article {
    Article {
        id: id.to_string(),
        matter: FrontMatter {
            title: title.to_string(),
            published_at: date.to_string(),
            snippet: snippet.to_string(),
            tags: None,
        },
        content: content.to_string(),
    }
}

#[test]
fn empty_corpus_feeds_parse() {
    let none: Vec<Article> = Vec::new();
    let json = generate_json_feed(&none, &site());
    let v: serde_json::Value = serde_json::from_str(&json).unwrap();
    assert_eq!(v["version"], "https://jsonfeed.org/version/1.1");
    assert_eq!(v["items"].as_array().unwrap().len(), 0);

    let rss = generate_rss_feed(&none, &site());
    let doc = roxmltree::Document::parse(&rss).unwrap();
    assert_eq!(doc.root_element().tag_name().name(), "rss");
    assert_eq!(doc.descendants().filter(|n| n.has_tag_name("item")).count(), 0);

    let atom = generate_atom_feed(&none, &site(), "2024-05-12T00:00:00Z");
    let doc = roxmltree::Document::parse(&atom).unwrap();
    assert_eq!(doc.root_element().tag_name().name(), "feed");
    assert_eq!(doc.descendants().filter(|n| n.has_tag_name("entry")).count(), 0);
    assert!(atom.contains("<updated>2024-05-12T00:00:00Z</updated>"));
}

#[test]
fn json_feed_carries_article_fields() {
    let arts = vec![article(
        "hello",
        "Hello \"World\"",
        "2024-05-12 21:34",
        "a snippet",
        "<p>body</p>",
    )];
    let json = generate_json_feed(&arts, &site());
    let v: serde_json::Value = serde_json::from_str(&json).unwrap();
    let item = &v["items"][0];
    assert_eq!(item["id"], "hello");
    assert_eq!(item["url"], "https://example.org/articles/hello");
    assert_eq!(item["title"], "Hello \"World\"");
    assert_eq!(item["content_html"], "<p>body</p>");
    assert_eq!(item["date_published"], "2024-05-12T21:34:00Z");
    assert_eq!(item["summary"], "a snippet");
}

#[test]
fn xml_feeds_survive_hostile_titles() {
    let arts = vec![
        article(
            "spiky",
            "A <b> & ]]> title",
            "2024-05-12",
            "snippet with <tags> & ]]> inside",
            "<p>body with ]]> and &amp; and <code></p>",
        ),
        article("plain", "Plain", "2024-01-01", "s", "<p>x</p>"),
    ];
    let rss = generate_rss_feed(&arts, &site());
    let doc = roxmltree::Document::parse(&rss).unwrap();
    assert_eq!(doc.descendants().filter(|n| n.has_tag_name("item")).count(), 2);
    let first_title = doc
        .descendants()
        .filter(|n| n.has_tag_name("title"))
        .nth(1)
        .unwrap()
        .text()
        .unwrap()
        .to_string();
    assert_eq!(first_title, "A <b> & ]]> title");

    let atom = generate_atom_feed(&arts, &site(), "unused");
    let doc = roxmltree::Document::parse(&atom).unwrap();
    assert_eq!(doc.descendants().filter(|n| n.has_tag_name("entry")).count(), 2);
    let entry_title = doc
        .descendants()
        .filter(|n| n.has_tag_name("title"))
        .nth(1)
        .unwrap()
        .text()
        .unwrap()
        .to_string();
    assert_eq!(entry_title, "A <b> & ]]> title");
    // The most recent article's date is the feed's own stamp.
    assert!(atom.contains("<updated>2024-05-12T00:00:00Z</updated>"));
}

#[test]
fn rss_keeps_html_payload_intact() {
    let arts = vec![article("h", "T", "2024-01-01", "s", "<p>one ]]> two</p>")];
    let rss = generate_rss_feed(&arts, &site());
    let doc = roxmltree::Document::parse(&rss).unwrap();
    let encoded = doc
        .descendants()
        .find(|n| n.tag_name().name() == "encoded")
        .unwrap()
        .text()
        .unwrap()
        .to_string();
    assert_eq!(encoded, "<p>one ]]> two</p>");
}

#[test]
fn toc_and_anchor_agree_with_rederived_slug() {
    let r = Renderer::new(&Vec::new(), "base16-ocean.dark").unwrap();
    let body = "intro\n\n# Slug Test 42\n\n## Another *Heading* here\n\ntext";
    let (toc, html) = markdown_to_html(&r, body);
    assert_eq!(toc.len(), 2);
    for item in &toc {
        let rederived = slug_for(&item.text);
        assert_eq!(item.id, rederived);
        assert!(html.contains(item.id.as_str()));
    }
    assert_eq!(toc[0].id, "md-heading-slug-test-42");
    assert_eq!(toc[1].text, "Another Heading here");
    assert_eq!(toc[1].level, 2);
}

#[test]
fn toc_skips_fenced_code_and_punctuation() {
    let body = "```\n# not a heading\n```\n\n# Hello, World!\n\n### Deep `code span`\n";
    let toc = extract_toc(body);
    assert_eq!(toc.len(), 2);
    assert_eq!(toc[0].text, "Hello, World!");
    assert_eq!(toc[0].id, "md-heading-hello-world");
    assert_eq!(toc[1].level, 3);
    assert_eq!(toc[1].text, "Deep code span");
    assert_eq!(toc[1].id, "md-heading-deep-code-span");
}

#[test]
fn toc_is_flat_and_in_document_order() {
    let body = "# A\n\n### C\n\n## B\n";
    let toc = extract_toc(body);
    let levels: Vec<u8> = toc.iter().map(|t| t.level).collect();
    let texts: Vec<&str> = toc.iter().map(|t| t.text.as_str()).collect();
    assert_eq!(levels, vec![1, 3, 2]);
    assert_eq!(texts, vec!["A", "C", "B"]);
}

#[test]
fn code_fences_are_highlighted() {
    let r = Renderer::new(&Vec::new(), "base16-ocean.dark").unwrap();
    let (_, html) = markdown_to_html(&r, "```rust\nfn main() {}\n```\n");
    assert!(html.contains("<pre"));
    assert!(html.contains("background-color"));
}

#[test]
fn literal_markers_stay_in_heading_text() {
    let toc = extract_toc("# a_b\n\n# snake_case rules\n\n# arr[0]\n\n# 2*3\n");
    let texts: Vec<&str> = toc.iter().map(|t| t.text.as_str()).collect();
    assert_eq!(texts, vec!["a_b", "snake_case rules", "arr[0]", "2*3"]);
    let ids: Vec<&str> = toc.iter().map(|t| t.id.as_str()).collect();
    assert_eq!(
        ids,
        vec![
            "md-heading-ab",
            "md-heading-snakecase-rules",
            "md-heading-arr0",
            "md-heading-23"
        ]
    );
}

#[test]
fn matched_markup_is_stripped_from_heading_text() {
    let toc = extract_toc("# See [the docs](http://x) *now* with ![icon](i.png) _emph_\n");
    assert_eq!(toc.len(), 1);
    assert_eq!(toc[0].text, "See the docs now with icon emph");
}

#[test]
fn setext_headings_join_the_toc() {
    let toc = extract_toc("Title\n=====\n\nSecond\n---\n\nplain text\n");
    assert_eq!(toc.len(), 2);
    assert_eq!(toc[0].level, 1);
    assert_eq!(toc[0].text, "Title");
    assert_eq!(toc[0].id, "md-heading-title");
    assert_eq!(toc[1].level, 2);
    assert_eq!(toc[1].text, "Second");
    assert_eq!(toc[1].id, "md-heading-second");
}

#[test]
fn emitted_anchor_ids_follow_the_slug_rule() {
    let r = Renderer::new(&Vec::new(), "base16-ocean.dark").unwrap();
    // The emitter's own anchor rule would keep the hyphen; the rewrite
    // makes the id attribute equal the slug the TOC derives.
    let (toc, html) = markdown_to_html(&r, "# A-B\n\ntext\n");
    assert_eq!(toc.len(), 1);
    assert_eq!(toc[0].id, "md-heading-ab");
    assert!(html.contains("id=\"md-heading-ab\""));
    assert!(!html.contains("id=\"md-heading-a-b\""));
}
