use blogcore::render::{markdown_to_html, Renderer};
use blogcore::repo::{
    get_all_articles, get_all_articles_sorted, get_article_by_id, get_recently_add,
};
use blogcore::search::{filter_articles, route_date_parts, sort_article_tags, tag_names_sorted};
use blogcore::highlight::ThemeLoadError;
use blogcore::tags::get_articles_by_tag;

fn renderer() -> Renderer {
    Renderer::new(&Vec::new(), "base16-ocean.dark").unwrap()
}

fn docs() -> Vec<(String, String)> {
    let mk = |id: &str, title: &str, date: &str, snippet: &str, tags: &str, body: &str| {
        (
            id.to_string(),
            format!(
                "---\ntitle: {}\npublished_at: {}\nsnippet: {}\ntags: {}\n---\n{}",
                title, date, snippet, tags, body
            ),
        )
    };
    vec![
        mk("first", "First Post", "2024-01-01", "about rust", "[Rust, tools]", "# One\n\nalpha"),
        mk("second", "Second Post", "2024-03-05", "notes", "[rust]", "# Two\n\nbeta"),
        mk("third", "Third Post", "2024-03-05", "more notes", "[misc]", "# Three\n\ngamma"),
        mk("fourth", "Fourth Post", "2023-12-31", "old words", "[tools]", "# Four\n\ndelta"),
    ]
}

#[test]
fn all_articles_in_discovery_order() {
    let r = renderer();
    let articles = get_all_articles(&docs(), &r);
    let ids: Vec<&str> = articles.iter().map(|a| a.id.as_str()).collect();
    assert_eq!(ids, vec!["first", "second", "third", "fourth"]);
    assert!(articles[0].content.contains("<h1"));
}

#[test]
fn sorted_is_date_descending_with_stable_ties() {
    let r = renderer();
    let sorted = get_all_articles_sorted(&docs(), &r);
    let ids: Vec<&str> = sorted.iter().map(|a| a.id.as_str()).collect();
    // "second" and "third" share a date; discovery order breaks the tie.
    assert_eq!(ids, vec!["second", "third", "first", "fourth"]);
    for w in sorted.windows(2) {
        assert!(w[0].matter.published_at >= w[1].matter.published_at);
    }
}

#[test]
fn recent_is_a_prefix_of_sorted() {
    let r = renderer();
    let sorted = get_all_articles_sorted(&docs(), &r);
    let two = get_recently_add(&docs(), &r, 2);
    assert_eq!(two.len(), 2);
    assert_eq!(two[0], sorted[0]);
    assert_eq!(two[1], sorted[1]);
    let all = get_recently_add(&docs(), &r, 10);
    assert_eq!(all.len(), 4);
    assert_eq!(all, sorted);
}

#[test]
fn by_id_round_trips() {
    let r = renderer();
    let articles = get_all_articles(&docs(), &r);
    for a in &articles {
        let found = get_article_by_id(&docs(), &r, a.id.as_str()).unwrap();
        assert_eq!(&found, a);
    }
    assert!(get_article_by_id(&docs(), &r, "missing").is_none());
}

#[test]
fn malformed_document_is_dropped_everywhere() {
    let r = renderer();
    let mut ds = docs();
    ds.push(("broken".to_string(), "---\ntitle: Bad\nno colon here\n---\nbody".to_string()));
    let articles = get_all_articles(&ds, &r);
    assert_eq!(articles.len(), 4);
    assert!(articles.iter().all(|a| a.id != "broken"));
    assert!(get_article_by_id(&ds, &r, "broken").is_none());
    let index = get_articles_by_tag(&ds, &r);
    for p in 0..index.len() {
        assert!(index.articles_at_index(p).iter().all(|a| a.id != "broken"));
    }
    let sorted = get_all_articles_sorted(&ds, &r);
    let site = blogcore::feeds::SiteMeta {
        title: "T".to_string(),
        home_url: "https://example.org/".to_string(),
        feed_url: "https://example.org/feed.json".to_string(),
        description: "d".to_string(),
        language: "en".to_string(),
    };
    let json = blogcore::feeds::generate_json_feed(&sorted, &site);
    assert!(!json.contains("broken"));
}

#[test]
fn tag_index_matches_case_insensitively() {
    let r = renderer();
    let index = get_articles_by_tag(&docs(), &r);
    let rust = index.get("RUST").unwrap();
    let ids: Vec<&str> = rust.iter().map(|a| a.id.as_str()).collect();
    assert_eq!(ids, vec!["first", "second"]);
    let tools = index.get("tools").unwrap();
    let ids: Vec<&str> = tools.iter().map(|a| a.id.as_str()).collect();
    assert_eq!(ids, vec!["first", "fourth"]);
    assert!(index.get("absent").is_none());
}

#[test]
fn tag_cloud_is_sorted_with_counts() {
    let r = renderer();
    let index = get_articles_by_tag(&docs(), &r);
    let cloud = tag_names_sorted(&index);
    let pairs: Vec<(&str, usize)> = cloud.iter().map(|p| (p.0.as_str(), p.1)).collect();
    assert_eq!(pairs, vec![("misc", 1), ("rust", 2), ("tools", 2)]);
}

#[test]
fn search_filters() {
    let r = renderer();
    let articles = get_all_articles_sorted(&docs(), &r);
    let all = filter_articles(&articles, "");
    assert_eq!(all.len(), 4);
    let tagged = filter_articles(&articles, "#RUST");
    let ids: Vec<&str> = tagged.iter().map(|a| a.id.as_str()).collect();
    assert_eq!(ids, vec!["second", "first"]);
    let texty = filter_articles(&articles, "ABOUT RuSt");
    let ids: Vec<&str> = texty.iter().map(|a| a.id.as_str()).collect();
    assert_eq!(ids, vec!["first"]);
    let texty2 = filter_articles(&articles, "notes");
    let ids: Vec<&str> = texty2.iter().map(|a| a.id.as_str()).collect();
    assert_eq!(ids, vec!["second", "third"]);
    assert_eq!(filter_articles(&articles, "nothing matches this").len(), 0);
}

#[test]
fn route_segments_of_dates() {
    let (y, m) = route_date_parts("2024-05-12");
    assert_eq!(y, "2024");
    assert_eq!(m, "05");
    let (y, m) = route_date_parts("nodate");
    assert_eq!(y, "nodate");
    assert_eq!(m, "00");
    let (y, m) = route_date_parts("");
    assert_eq!(y, "");
    assert_eq!(m, "00");
}

#[test]
fn renderer_rejects_bad_themes() {
    let bad = vec![("broken".to_string(), "not a theme at all".to_string())];
    let e = match Renderer::new(&bad, "broken") {
        Ok(_) => panic!("a malformed theme must be rejected"),
        Err(e) => e,
    };
    assert_eq!(e, ThemeLoadError::BadThemeData);
    let e = match Renderer::new(&Vec::new(), "no-such-theme") {
        Ok(_) => panic!("an unregistered theme name must be rejected"),
        Err(e) => e,
    };
    assert_eq!(e, ThemeLoadError::UnknownTheme);
}

#[test]
fn heading_one_scenario() {
    let r = renderer();
    let (toc, html) = markdown_to_html(&r, "# Heading One\n\nSome *text*.");
    assert_eq!(toc.len(), 1);
    assert_eq!(toc[0].level, 1);
    assert_eq!(toc[0].text, "Heading One");
    assert_eq!(toc[0].id, "md-heading-heading-one");
    assert!(html.contains("md-heading-heading-one"));
    assert!(html.contains("<h1"));
}

#[test]
fn article_tags_sort_case_insensitively() {
    let tags = vec!["beta".to_string(), "Alpha".to_string(), "gamma".to_string()];
    let sorted = sort_article_tags(&tags);
    assert_eq!(sorted, vec!["Alpha".to_string(), "beta".to_string(), "gamma".to_string()]);
    assert_eq!(sort_article_tags(&Vec::new()), Vec::<String>::new());
}
