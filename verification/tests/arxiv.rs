use ironclaw::arxiv::{
    finish, prepare, report, request, ArxivTool, Outcome, Run, Search, SearchParams,
};
use ironclaw::feed::{
    extract_authors, extract_categories, extract_link_href, extract_primary_category,
    parse_entries, parse_papers, parse_total_results,
};
use ironclaw::http::HttpReply;

const FEED: &str = r#"
<feed>
  <opensearch:totalResults>1</opensearch:totalResults>
  <entry>
    <id>http://arxiv.org/abs/2501.00001v1</id>
    <updated>2025-01-02T10:00:00Z</updated>
    <published>2025-01-01T10:00:00Z</published>
    <title>  Test Paper  </title>
    <summary>  This is a summary. </summary>
    <author><name>Alice</name></author>
    <author><name>Bob</name></author>
    <arxiv:primary_category term="cs.AI" />
    <category term="cs.AI" />
    <category term="stat.ML" />
    <link rel="alternate" href="http://arxiv.org/abs/2501.00001v1" />
  </entry>
</feed>
"#;

fn params(query: &str) -> SearchParams {
    SearchParams {
        query: query.to_string(),
        max_results: None,
        start: None,
        sort_by: None,
        sort_order: None,
    }
}

fn search(query: &str) -> Search {
    prepare(&params(query)).unwrap()
}

#[test]
fn parse_atom_feed_entry() {
    let xml = FEED;
    assert_eq!(parse_total_results(xml), Some(1));
    let entries = parse_entries(xml);
    assert_eq!(entries.len(), 1);
    assert_eq!(entries[0]["title"], "Test Paper");
    assert_eq!(entries[0]["authors"][0], "Alice");
    assert_eq!(entries[0]["primary_category"], "cs.AI");
    assert_eq!(entries[0]["categories"][1], "stat.ML");
    assert_eq!(entries[0]["url"], "http://arxiv.org/abs/2501.00001v1");
}

#[test]
fn papers_hold_every_part_of_an_entry() {
    let papers = parse_papers(FEED);
    assert_eq!(papers.len(), 1);
    let paper = &papers[0];
    assert_eq!(paper.id.as_deref(), Some("http://arxiv.org/abs/2501.00001v1"));
    assert_eq!(paper.updated.as_deref(), Some("2025-01-02T10:00:00Z"));
    assert_eq!(paper.published.as_deref(), Some("2025-01-01T10:00:00Z"));
    assert_eq!(paper.summary, "This is a summary.");
    assert_eq!(paper.authors, vec!["Alice", "Bob"]);
    assert_eq!(paper.categories, vec!["cs.AI", "stat.ML"]);
}

#[test]
fn entries_without_parts_leave_them_out() {
    let entries = parse_entries("<entry></entry>");
    assert_eq!(entries.len(), 1);
    let object = entries[0].as_object().unwrap();
    let keys: Vec<&str> = object.keys().map(|k| k.as_str()).collect();
    assert_eq!(keys, vec!["authors", "categories", "summary", "title"]);
    assert_eq!(entries[0]["title"], "");
    assert_eq!(entries[0]["authors"].as_array().unwrap().len(), 0);
}

#[test]
fn entries_are_read_in_their_order() {
    let xml = "x<entry><title>one</title></entry> gap <entry><title>two</title>";
    let papers = parse_papers(xml);
    assert_eq!(papers.len(), 2);
    assert_eq!(papers[0].title, "one");
    assert_eq!(papers[1].title, "two");
    assert_eq!(parse_papers("no entries").len(), 0);
}

#[test]
fn total_results_are_numbers_of_32_bits() {
    let wrap = |s: &str| {
        parse_total_results(&format!(
            "<opensearch:totalResults>{}</opensearch:totalResults>",
            s
        ))
    };
    for text in [
        "0", "1", "  42\n", "+7", "+", "-1", "", " ", "007", "4294967295", "4294967296",
        "99999999999999999999999", "1a", "1 2", "\u{661}",
    ] {
        assert_eq!(wrap(text), text.trim().parse::<u32>().ok(), "{:?}", text);
    }
    assert_eq!(parse_total_results("<feed></feed>"), None);
}

#[test]
fn categories_are_sorted_and_distinct() {
    let terms = ["b", "a", "b", "a&amp;z", "", "é", "z", "ab", "\u{10000}", "\u{ffff}"];
    let mut xml = String::new();
    for term in terms {
        xml.push_str(&format!("<category term=\"{}\" />", term));
    }
    let mut expected: Vec<String> = terms.iter().map(|t| t.replace("&amp;", "&")).collect();
    expected.sort();
    expected.dedup();
    assert_eq!(extract_categories(&xml), expected);
    assert_eq!(extract_categories("nothing"), Vec::<String>::new());
    // A category without a term takes the next one that follows.
    assert_eq!(extract_categories("<category /><x term=\"t\">"), vec!["t"]);
}

#[test]
fn primary_category_is_the_first_term_behind_its_tag() {
    let xml = r#"<category term="no"/><arxiv:primary_category scheme="s" term="a&amp;b"/>"#;
    assert_eq!(extract_primary_category(xml).as_deref(), Some("a&amp;b"));
    assert_eq!(extract_primary_category(r#"<category term="no"/>"#), None);
    assert_eq!(
        parse_papers(&format!("<entry>{}</entry>", xml))[0].primary_category.as_deref(),
        Some("a&b")
    );
}

#[test]
fn authors_are_decoded_and_collapsed() {
    let xml = "<author><name> A\n &amp; B </name></author><author></author><author><name>C</name>";
    assert_eq!(extract_authors(xml), vec!["A & B", "C"]);
}

#[test]
fn link_is_found_by_its_relation() {
    let xml = r#"<link rel="alternate" href="a&amp;b"/><link title="pdf" href="p" rel="related"/>"#;
    assert_eq!(extract_link_href(xml, "related").as_deref(), Some("p"));
    assert_eq!(extract_link_href(xml, "alternate").as_deref(), Some("a&b"));
    assert_eq!(extract_link_href(xml, "self"), None);
    assert_eq!(extract_link_href(r#"<link rel="self""#, "self"), None);
    assert_eq!(extract_link_href(r#"<link rel="self">"#, "self"), None);
    let entry = format!("<entry>{}</entry>", xml);
    assert_eq!(parse_papers(&entry)[0].url.as_deref(), Some("p"));
}

#[test]
fn prepare_fills_in_the_defaults() {
    let search = search("ti:rust & more");
    assert_eq!(search.query, "ti:rust & more");
    assert_eq!(search.start, 0);
    assert_eq!(search.max_results, 5);
    assert_eq!(
        search.url,
        "https://export.arxiv.org/api/query?search_query=ti%3Arust%20%26%20more&start=0\
         &max_results=5&sortBy=relevance&sortOrder=descending"
    );
}

#[test]
fn prepare_clamps_the_number_of_results() {
    for (wanted, given) in [(0, 1), (1, 1), (25, 25), (26, 25), (u32::MAX, 25)] {
        let mut p = params("q");
        p.max_results = Some(wanted);
        assert_eq!(prepare(&p).unwrap().max_results, given);
    }
}

#[test]
fn prepare_takes_what_is_given() {
    let mut p = params("q");
    p.start = Some(4294967295);
    p.sort_by = Some("submittedDate".to_string());
    p.sort_order = Some("ascending".to_string());
    let search = prepare(&p).unwrap();
    assert_eq!(
        search.url,
        "https://export.arxiv.org/api/query?search_query=q&start=4294967295\
         &max_results=5&sortBy=submittedDate&sortOrder=ascending"
    );
}

#[test]
fn prepare_refuses_bad_parameters_in_order() {
    let refused = |p: &SearchParams| prepare(p).unwrap_err();
    let mut p = params(" \t\u{3000} ");
    p.sort_by = Some("date".to_string());
    p.sort_order = Some("up".to_string());
    assert_eq!(refused(&p), "'query' must not be empty");
    p.query = "x".repeat(2001);
    assert_eq!(
        refused(&p),
        "'query' exceeds maximum length of 2000 characters"
    );
    p.query = "é".repeat(1001);
    assert_eq!(
        refused(&p),
        "'query' exceeds maximum length of 2000 characters"
    );
    p.query = "é".repeat(1000);
    assert_eq!(
        refused(&p),
        "Invalid 'sort_by': expected 'relevance', 'lastUpdatedDate', or 'submittedDate'"
    );
    p.sort_by = Some("lastUpdatedDate".to_string());
    assert_eq!(
        refused(&p),
        "Invalid 'sort_order': expected 'ascending' or 'descending'"
    );
    p.sort_order = None;
    assert!(prepare(&p).is_ok());
}

#[test]
fn query_cannot_add_parameters() {
    let url = search("a&start=9#?=+").url;
    let query = url.split("?search_query=").nth(1).unwrap().split('&').next().unwrap();
    assert_eq!(query, "a%26start%3D9%23%3F%3D%2B");
}

#[test]
fn request_is_a_get_with_headers() {
    let search = search("q");
    let request = request(&search);
    assert_eq!(request.method, "GET");
    assert_eq!(request.url, search.url);
    assert_eq!(
        request.headers,
        r#"{"Accept":"application/atom+xml","User-Agent":"IronClaw-arXiv-Tool/0.1"}"#
    );
    assert!(request.body.is_none());
}

#[test]
fn report_counts_and_lists_the_papers() {
    let value = report(&search(" q "), FEED);
    assert_eq!(value["query"], " q ");
    assert_eq!(value["start"], 0);
    assert_eq!(value["max_results"], 5);
    assert_eq!(value["total_results"], 1);
    assert_eq!(value["result_count"], 1);
    assert_eq!(value["results"][0]["title"], "Test Paper");
    assert_eq!(value.as_object().unwrap().len(), 6);
}

#[test]
fn finish_writes_the_report() {
    let text = finish(&search("q"), b"<feed></feed>".to_vec()).unwrap();
    assert_eq!(
        text,
        r#"{"max_results":5,"query":"q","result_count":0,"results":[],"start":0,"total_results":0}"#
    );
    assert_eq!(
        finish(&search("q"), vec![0x61, 0xff]).unwrap_err(),
        "Invalid UTF-8 response: invalid utf-8 sequence of 1 bytes from index 1"
    );
}

#[test]
fn run_goes_from_parameters_to_report() {
    let mut run = Run::begin(Ok(params("q"))).unwrap();
    assert!(run.request().url.contains("search_query=q&"));
    let busy = HttpReply {
        status: 503,
        body: Vec::new(),
    };
    assert_eq!(
        run.on_reply(Ok(busy)),
        Outcome::Retry("arXiv API error 503 (attempt 1/3). Retrying...".to_string())
    );
    let good = HttpReply {
        status: 200,
        body: FEED.as_bytes().to_vec(),
    };
    match run.on_reply(Ok(good)) {
        Outcome::Done(text) => {
            let value: serde_json::Value = serde_json::from_str(&text).unwrap();
            assert_eq!(value["results"][0]["authors"][1], "Bob");
        }
        other => panic!("{:?}", other),
    }
}

#[test]
fn run_reports_what_went_wrong() {
    assert_eq!(
        Run::begin(Err("expected value".to_string())).unwrap_err(),
        "Invalid parameters: expected value"
    );
    assert_eq!(
        Run::begin(Ok(params(" "))).unwrap_err(),
        "'query' must not be empty"
    );
    let mut run = Run::begin(Ok(params("q"))).unwrap();
    let bad = HttpReply {
        status: 400,
        body: b"bad".to_vec(),
    };
    assert_eq!(
        run.on_reply(Ok(bad)),
        Outcome::Failed("arXiv API error (HTTP 400): bad".to_string())
    );
    let mut run = Run::begin(Ok(params("q"))).unwrap();
    let garbled = HttpReply {
        status: 200,
        body: vec![0xc3],
    };
    assert_eq!(
        run.on_reply(Ok(garbled)),
        Outcome::Failed(
            "Invalid UTF-8 response: incomplete utf-8 byte sequence from index 0".to_string()
        )
    );
}

#[test]
fn arxiv_tool_describes_itself() {
    let schema: serde_json::Value = serde_json::from_str(&ArxivTool::schema()).unwrap();
    assert_eq!(schema["properties"]["max_results"]["maximum"], 25);
    assert_eq!(schema["required"][0], "query");
    assert!(ArxivTool::description().starts_with("Search arXiv papers by keyword, title,"));
    assert!(ArxivTool::description().ends_with("publication date, primary category, and links."));
}

#[test]
fn a_category_is_listed_for_each_term() {
    // Each occurrence counts, wherever it stands, and takes the next term.
    let xml = r#"<category<category term="b"/><x/><categoryterm="a&lt;b"/>"#;
    assert_eq!(extract_categories(xml), vec!["a<b", "b"]);
    assert_eq!(extract_categories(r#"<Category term="b"/>"#), Vec::<String>::new());
}

#[test]
fn the_first_link_with_the_relation_decides() {
    let xml = r#"<link rel="x" href="1"><link rel="y"><link rel="y" href="2"><link rel="x" href="3">"#;
    assert_eq!(extract_link_href(xml, "x").as_deref(), Some("1"));
    assert_eq!(extract_link_href(xml, "y"), None);
    assert_eq!(extract_link_href(xml, "z"), None);
    // A link inside the tag of another one is part of that tag.
    let nested = r#"<link <link rel="x" href="1"><link rel="x" href="2">"#;
    assert_eq!(extract_link_href(nested, "x").as_deref(), Some("1"));
    // Behind a tag that is not closed there is none.
    let open = r#"<link rel="x" href="1"> <link rel="y" href="2""#;
    assert_eq!(extract_link_href(open, "x").as_deref(), Some("1"));
    assert_eq!(extract_link_href(open, "y"), None);
}
