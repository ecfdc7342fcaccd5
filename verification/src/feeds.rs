//! The feed synthesizer: JSON Feed, RSS 2.0 and Atom.
//!
//! Three independent, stateless formatters share one input — the articles
//! sorted by date descending — and one site-metadata record. Dates go
//! through the shared normalization; every dynamic field is either
//! entity-escaped or carried in a split-safe CDATA section, so the XML
//! documents stay well-formed whatever the corpus holds. Each document is
//! a pure function of its inputs; the three are meant to be regenerated
//! together from one snapshot.

use vstd::prelude::*;

use crate::dates::rfc3339_spec;
use crate::dates::format_rfc3339;
use crate::escape::{
    cdata_wrap, cdata_wrap_exec, json_escape, json_escape_exec, xml_escape, xml_escape_exec,
};
use crate::repo::{Article, ArticleView};
use crate::text::{push_str_chars, string_of};

verus! {

/// The fixed site metadata every feed shares.
#[derive(Clone, Debug, PartialEq, Eq)]
pub struct SiteMeta {
    pub title: String,
    pub home_url: String,
    pub feed_url: String,
    pub description: String,
    pub language: String,
}

/// Mathematical image of a [`SiteMeta`].
#[verifier::ext_equal]
pub struct SiteMetaView {
    pub title: Seq<char>,
    pub home_url: Seq<char>,
    pub feed_url: Seq<char>,
    pub description: Seq<char>,
    pub language: Seq<char>,
}

impl View for SiteMeta {
    type V = SiteMetaView;

    open spec fn view(&self) -> SiteMetaView {
        SiteMetaView {
            title: self.title@,
            home_url: self.home_url@,
            feed_url: self.feed_url@,
            description: self.description@,
            language: self.language@,
        }
    }
}

/// The page address of an article: the site followed by `articles/` and
/// the id.
pub open spec fn article_url(home: Seq<char>, id: Seq<char>) -> Seq<char> {
    home + "articles/"@ + id
}

fn article_url_exec(home: &str, id: &str) -> (r: String)
    ensures
        r@ == article_url(home@, id@),
{
    let mut out: Vec<char> = Vec::new();
    push_str_chars(&mut out, home);
    push_str_chars(&mut out, "articles/");
    push_str_chars(&mut out, id);
    string_of(&out)
}

/// One JSON Feed item.
pub open spec fn json_item(a: ArticleView, home: Seq<char>) -> Seq<char> {
    "    {\n      \"id\": \""@ + json_escape(a.id) + "\",\n      \"url\": \""@ + json_escape(
        article_url(home, a.id),
    ) + "\",\n      \"title\": \""@ + json_escape(a.matter.title)
        + "\",\n      \"content_html\": \""@ + json_escape(a.content)
        + "\",\n      \"date_published\": \""@ + json_escape(rfc3339_spec(a.matter.published_at))
        + "\",\n      \"summary\": \""@ + json_escape(a.matter.snippet) + "\"\n    }"@
}

/// The JSON Feed items from position `i` on, comma-separated.
pub open spec fn json_items(s: Seq<ArticleView>, home: Seq<char>, i: int) -> Seq<char>
    decreases s.len() - i,
{
    if i < 0 || i >= s.len() {
        Seq::empty()
    } else if i == s.len() - 1 {
        json_item(s[i], home)
    } else {
        json_item(s[i], home) + ",\n"@ + json_items(s, home, i + 1)
    }
}

/// The whole JSON Feed document for a sorted collection and the site
/// metadata.
pub open spec fn json_feed_spec(s: Seq<ArticleView>, site: SiteMetaView) -> Seq<char> {
    "{\n  \"version\": \"https://jsonfeed.org/version/1.1\",\n  \"language\": \""@ + json_escape(
        site.language,
    ) + "\",\n  \"title\": \""@ + json_escape(site.title) + "\",\n  \"home_page_url\": \""@
        + json_escape(site.home_url) + "\",\n  \"feed_url\": \""@ + json_escape(site.feed_url)
        + "\",\n  \"items\": ["@ + (if s.len() == 0 {
        "]\n}\n"@
    } else {
        "\n"@ + json_items(s, site.home_url, 0) + "\n  ]\n}\n"@
    })
}

fn json_item_exec(a: &Article, home: &str) -> (r: Vec<char>)
    ensures
        r@ == json_item(a@, home@),
{
    let mut out: Vec<char> = Vec::new();
    push_str_chars(&mut out, "    {\n      \"id\": \"");
    push_str_chars(&mut out, json_escape_exec(a.id.as_str()).as_str());
    push_str_chars(&mut out, "\",\n      \"url\": \"");
    let url = article_url_exec(home, a.id.as_str());
    push_str_chars(&mut out, json_escape_exec(url.as_str()).as_str());
    push_str_chars(&mut out, "\",\n      \"title\": \"");
    push_str_chars(&mut out, json_escape_exec(a.matter.title.as_str()).as_str());
    push_str_chars(&mut out, "\",\n      \"content_html\": \"");
    push_str_chars(&mut out, json_escape_exec(a.content.as_str()).as_str());
    push_str_chars(&mut out, "\",\n      \"date_published\": \"");
    let date = format_rfc3339(a.matter.published_at.as_str());
    push_str_chars(&mut out, json_escape_exec(date.as_str()).as_str());
    push_str_chars(&mut out, "\",\n      \"summary\": \"");
    push_str_chars(&mut out, json_escape_exec(a.matter.snippet.as_str()).as_str());
    push_str_chars(&mut out, "\"\n    }");
    out
}

/// Emits the JSON Feed document for the sorted collection.
#[verifier::loop_isolation(false)]
#[verifier::rlimit(100)]
pub fn generate_json_feed(articles: &Vec<Article>, site: &SiteMeta) -> (r: String)
    ensures
        r@ == json_feed_spec(articles.deep_view(), site@),
{
    let ghost av = articles.deep_view();
    let mut out: Vec<char> = Vec::new();
    push_str_chars(&mut out, "{\n  \"version\": \"https://jsonfeed.org/version/1.1\",\n  \"language\": \"");
    push_str_chars(&mut out, json_escape_exec(site.language.as_str()).as_str());
    push_str_chars(&mut out, "\",\n  \"title\": \"");
    push_str_chars(&mut out, json_escape_exec(site.title.as_str()).as_str());
    push_str_chars(&mut out, "\",\n  \"home_page_url\": \"");
    push_str_chars(&mut out, json_escape_exec(site.home_url.as_str()).as_str());
    push_str_chars(&mut out, "\",\n  \"feed_url\": \"");
    push_str_chars(&mut out, json_escape_exec(site.feed_url.as_str()).as_str());
    push_str_chars(&mut out, "\",\n  \"items\": [");
    if articles.len() == 0 {
        push_str_chars(&mut out, "]\n}\n");
        return string_of(&out);
    }
    push_str_chars(&mut out, "\n");
    let ghost head = out@;
    let mut i: usize = 0;
    loop
        invariant
            i < articles.len(),
            av == articles.deep_view(),
            head + json_items(av, site@.home_url, 0) == out@ + json_items(
                av,
                site@.home_url,
                i as int,
            ),
        decreases articles.len() - i,
    {
        let mut item = json_item_exec(&articles[i], site.home_url.as_str());
        out.append(&mut item);
        if i == articles.len() - 1 {
            break ;
        }
        push_str_chars(&mut out, ",\n");
        i = i + 1;
    }
    push_str_chars(&mut out, "\n  ]\n}\n");
    string_of(&out)
}

/// One RSS item: title, description and HTML payload in CDATA, the rest
/// entity-escaped.
pub open spec fn rss_item(a: ArticleView, home: Seq<char>) -> Seq<char> {
    "\n      <item>\n        <title>"@ + cdata_wrap(a.matter.title) + "</title>\n        <link>"@
        + xml_escape(article_url(home, a.id)) + "</link>\n        <guid>"@ + xml_escape(
        article_url(home, a.id),
    ) + "</guid>\n        <pubDate>"@ + xml_escape(rfc3339_spec(a.matter.published_at))
        + "</pubDate>\n        <description>"@ + cdata_wrap(a.matter.snippet)
        + "</description>\n        <content:encoded>"@ + cdata_wrap(a.content)
        + "</content:encoded>\n      </item>\n"@
}

/// The RSS items from position `i` on.
pub open spec fn rss_items(s: Seq<ArticleView>, home: Seq<char>, i: int) -> Seq<char>
    decreases s.len() - i,
{
    if i < 0 || i >= s.len() {
        Seq::empty()
    } else {
        rss_item(s[i], home) + rss_items(s, home, i + 1)
    }
}

/// The whole RSS 2.0 document for a sorted collection and the site
/// metadata.
pub open spec fn rss_feed_spec(s: Seq<ArticleView>, site: SiteMetaView) -> Seq<char> {
    "<?xml version=\"1.0\" encoding=\"UTF-8\"?>\n<rss version=\"2.0\"\n  xmlns:content=\"http://purl.org/rss/1.0/modules/content/\">\n  <channel>\n    <title>"@
        + xml_escape(site.title) + "</title>\n    <link>"@ + xml_escape(site.home_url)
        + "</link>\n    <description>"@ + xml_escape(site.description)
        + "</description>\n    <language>"@ + xml_escape(site.language) + "</language>\n    "@
        + rss_items(s, site.home_url, 0) + "\n  </channel>\n</rss>\n"@
}

fn rss_item_exec(a: &Article, home: &str) -> (r: Vec<char>)
    ensures
        r@ == rss_item(a@, home@),
{
    let mut out: Vec<char> = Vec::new();
    push_str_chars(&mut out, "\n      <item>\n        <title>");
    push_str_chars(&mut out, cdata_wrap_exec(a.matter.title.as_str()).as_str());
    push_str_chars(&mut out, "</title>\n        <link>");
    let url = article_url_exec(home, a.id.as_str());
    push_str_chars(&mut out, xml_escape_exec(url.as_str()).as_str());
    push_str_chars(&mut out, "</link>\n        <guid>");
    push_str_chars(&mut out, xml_escape_exec(url.as_str()).as_str());
    push_str_chars(&mut out, "</guid>\n        <pubDate>");
    let date = format_rfc3339(a.matter.published_at.as_str());
    push_str_chars(&mut out, xml_escape_exec(date.as_str()).as_str());
    push_str_chars(&mut out, "</pubDate>\n        <description>");
    push_str_chars(&mut out, cdata_wrap_exec(a.matter.snippet.as_str()).as_str());
    push_str_chars(&mut out, "</description>\n        <content:encoded>");
    push_str_chars(&mut out, cdata_wrap_exec(a.content.as_str()).as_str());
    push_str_chars(&mut out, "</content:encoded>\n      </item>\n");
    out
}

/// Emits the RSS 2.0 document for the sorted collection.
#[verifier::loop_isolation(false)]
#[verifier::rlimit(100)]
pub fn generate_rss_feed(articles: &Vec<Article>, site: &SiteMeta) -> (r: String)
    ensures
        r@ == rss_feed_spec(articles.deep_view(), site@),
{
    let ghost av = articles.deep_view();
    let mut out: Vec<char> = Vec::new();
    push_str_chars(
        &mut out,
        "<?xml version=\"1.0\" encoding=\"UTF-8\"?>\n<rss version=\"2.0\"\n  xmlns:content=\"http://purl.org/rss/1.0/modules/content/\">\n  <channel>\n    <title>",
    );
    push_str_chars(&mut out, xml_escape_exec(site.title.as_str()).as_str());
    push_str_chars(&mut out, "</title>\n    <link>");
    push_str_chars(&mut out, xml_escape_exec(site.home_url.as_str()).as_str());
    push_str_chars(&mut out, "</link>\n    <description>");
    push_str_chars(&mut out, xml_escape_exec(site.description.as_str()).as_str());
    push_str_chars(&mut out, "</description>\n    <language>");
    push_str_chars(&mut out, xml_escape_exec(site.language.as_str()).as_str());
    push_str_chars(&mut out, "</language>\n    ");
    let ghost head = out@;
    let mut i: usize = 0;
    while i < articles.len()
        invariant
            i <= articles.len(),
            av == articles.deep_view(),
            head + rss_items(av, site@.home_url, 0) == out@ + rss_items(
                av,
                site@.home_url,
                i as int,
            ),
        decreases articles.len() - i,
    {
        let mut item = rss_item_exec(&articles[i], site.home_url.as_str());
        out.append(&mut item);
        i = i + 1;
    }
    push_str_chars(&mut out, "\n  </channel>\n</rss>\n");
    string_of(&out)
}

/// One Atom entry: title and summary entity-escaped, the HTML payload in
/// CDATA.
pub open spec fn atom_entry(a: ArticleView, home: Seq<char>) -> Seq<char> {
    "\n  <entry>\n    <title>"@ + xml_escape(a.matter.title) + "</title>\n    <link href=\""@
        + xml_escape(article_url(home, a.id)) + "\"/>\n    <id>"@ + xml_escape(
        article_url(home, a.id),
    ) + "</id>\n    <updated>"@ + xml_escape(rfc3339_spec(a.matter.published_at))
        + "</updated>\n    <summary>"@ + xml_escape(a.matter.snippet)
        + "</summary>\n    <content type=\"html\">"@ + cdata_wrap(a.content)
        + "</content>\n  </entry>\n"@
}

/// The Atom entries from position `i` on.
pub open spec fn atom_entries(s: Seq<ArticleView>, home: Seq<char>, i: int) -> Seq<char>
    decreases s.len() - i,
{
    if i < 0 || i >= s.len() {
        Seq::empty()
    } else {
        atom_entry(s[i], home) + atom_entries(s, home, i + 1)
    }
}

/// The feed-level `updated` stamp: the most recent article's normalized
/// date, or the supplied current time over an empty collection.
pub open spec fn atom_updated(s: Seq<ArticleView>, now: Seq<char>) -> Seq<char> {
    if s.len() == 0 {
        now
    } else {
        rfc3339_spec(s[0].matter.published_at)
    }
}

/// The whole Atom document for a sorted collection, the site metadata and
/// a current-time stamp for the empty corpus.
pub open spec fn atom_feed_spec(s: Seq<ArticleView>, site: SiteMetaView, now: Seq<char>) -> Seq<
    char,
> {
    "<?xml version=\"1.0\" encoding=\"utf-8\"?>\n<feed xmlns=\"http://www.w3.org/2005/Atom\">\n  <title>"@
        + xml_escape(site.title) + "</title>\n  <link href=\""@ + xml_escape(site.home_url)
        + "\"/>\n  <link href=\""@ + xml_escape(site.home_url + "atom.xml"@)
        + "\" rel=\"self\"/>\n  <updated>"@ + xml_escape(atom_updated(s, now)) + "</updated>\n  <id>"@
        + xml_escape(site.home_url) + "</id>\n  "@ + atom_entries(s, site.home_url, 0)
        + "\n</feed>\n"@
}

fn atom_entry_exec(a: &Article, home: &str) -> (r: Vec<char>)
    ensures
        r@ == atom_entry(a@, home@),
{
    let mut out: Vec<char> = Vec::new();
    push_str_chars(&mut out, "\n  <entry>\n    <title>");
    push_str_chars(&mut out, xml_escape_exec(a.matter.title.as_str()).as_str());
    push_str_chars(&mut out, "</title>\n    <link href=\"");
    let url = article_url_exec(home, a.id.as_str());
    push_str_chars(&mut out, xml_escape_exec(url.as_str()).as_str());
    push_str_chars(&mut out, "\"/>\n    <id>");
    push_str_chars(&mut out, xml_escape_exec(url.as_str()).as_str());
    push_str_chars(&mut out, "</id>\n    <updated>");
    let date = format_rfc3339(a.matter.published_at.as_str());
    push_str_chars(&mut out, xml_escape_exec(date.as_str()).as_str());
    push_str_chars(&mut out, "</updated>\n    <summary>");
    push_str_chars(&mut out, xml_escape_exec(a.matter.snippet.as_str()).as_str());
    push_str_chars(&mut out, "</summary>\n    <content type=\"html\">");
    push_str_chars(&mut out, cdata_wrap_exec(a.content.as_str()).as_str());
    push_str_chars(&mut out, "</content>\n  </entry>\n");
    out
}

/// Emits the Atom document for the sorted collection. `now` is the
/// current time as an RFC 3339 stamp, used as the feed's `updated` only
/// when the collection is empty.
#[verifier::loop_isolation(false)]
#[verifier::rlimit(100)]
pub fn generate_atom_feed(articles: &Vec<Article>, site: &SiteMeta, now: &str) -> (r: String)
    ensures
        r@ == atom_feed_spec(articles.deep_view(), site@, now@),
{
    let ghost av = articles.deep_view();
    let mut out: Vec<char> = Vec::new();
    push_str_chars(
        &mut out,
        "<?xml version=\"1.0\" encoding=\"utf-8\"?>\n<feed xmlns=\"http://www.w3.org/2005/Atom\">\n  <title>",
    );
    push_str_chars(&mut out, xml_escape_exec(site.title.as_str()).as_str());
    push_str_chars(&mut out, "</title>\n  <link href=\"");
    push_str_chars(&mut out, xml_escape_exec(site.home_url.as_str()).as_str());
    push_str_chars(&mut out, "\"/>\n  <link href=\"");
    let mut self_url: Vec<char> = Vec::new();
    push_str_chars(&mut self_url, site.home_url.as_str());
    push_str_chars(&mut self_url, "atom.xml");
    let self_url_s = string_of(&self_url);
    push_str_chars(&mut out, xml_escape_exec(self_url_s.as_str()).as_str());
    push_str_chars(&mut out, "\" rel=\"self\"/>\n  <updated>");
    let updated: String = if articles.len() == 0 {
        let mut v: Vec<char> = Vec::new();
        push_str_chars(&mut v, now);
        string_of(&v)
    } else {
        format_rfc3339(articles[0].matter.published_at.as_str())
    };
    proof {
        assert(updated@ == atom_updated(av, now@));
    }
    push_str_chars(&mut out, xml_escape_exec(updated.as_str()).as_str());
    push_str_chars(&mut out, "</updated>\n  <id>");
    push_str_chars(&mut out, xml_escape_exec(site.home_url.as_str()).as_str());
    push_str_chars(&mut out, "</id>\n  ");
    let ghost head = out@;
    let mut i: usize = 0;
    while i < articles.len()
        invariant
            i <= articles.len(),
            av == articles.deep_view(),
            head + atom_entries(av, site@.home_url, 0) == out@ + atom_entries(
                av,
                site@.home_url,
                i as int,
            ),
        decreases articles.len() - i,
    {
        let mut item = atom_entry_exec(&articles[i], site.home_url.as_str());
        out.append(&mut item);
        i = i + 1;
    }
    push_str_chars(&mut out, "\n</feed>\n");
    string_of(&out)
}

} // verus!
