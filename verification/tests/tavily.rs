use ironclaw::http::HttpReply;
use ironclaw::tavily::{
    authorize, build_payload, finish, format_results, prepare, report, request,
    validate_domain_filters, Accepted, Outcome, SearchParams, TavilyResponse, TavilyResult,
    TavilyTool,
};

fn params(query: &str) -> SearchParams {
    SearchParams {
        query: query.to_string(),
        max_results: None,
        search_depth: None,
        topic: None,
        include_answer: None,
        include_raw_content: None,
        include_domains: None,
        exclude_domains: None,
        days: None,
    }
}

fn result(title: Option<&str>, url: Option<&str>) -> TavilyResult {
    TavilyResult {
        title: title.map(|s| s.to_string()),
        url: url.map(|s| s.to_string()),
        content: None,
        score: None,
        published_date: None,
    }
}

const KEY_ERROR: &str = "Tavily API key not found in secret store. Set it with: \
     ironclaw secret set tavily_api_key <key>. \
     Get a key at: https://app.tavily.com/";

#[test]
fn build_payload_defaults() {
    let p = SearchParams {
        query: "rust wasm".to_string(),
        max_results: None,
        search_depth: None,
        topic: None,
        include_answer: None,
        include_raw_content: None,
        include_domains: None,
        exclude_domains: None,
        days: None,
    };

    let payload = build_payload(&p, 5, "basic", "general");
    assert_eq!(payload["query"], "rust wasm");
    assert_eq!(payload["max_results"], 5);
    assert_eq!(payload["search_depth"], "basic");
    assert_eq!(payload["topic"], "general");
    assert_eq!(payload["include_answer"], true);
    assert_eq!(payload["include_raw_content"], false);
    assert!(payload.get("days").is_none());
}

#[test]
fn build_payload_optional_filters() {
    let p = SearchParams {
        query: "ai news".to_string(),
        max_results: Some(3),
        search_depth: Some("advanced".to_string()),
        topic: Some("news".to_string()),
        include_answer: Some(false),
        include_raw_content: Some(true),
        include_domains: Some(vec!["example.com".to_string()]),
        exclude_domains: Some(vec!["spam.com".to_string()]),
        days: Some(7),
    };

    let payload = build_payload(&p, 3, "advanced", "news");
    assert_eq!(payload["include_domains"][0], "example.com");
    assert_eq!(payload["exclude_domains"][0], "spam.com");
    assert_eq!(payload["days"], 7);
}

#[test]
fn build_payload_leaves_out_empty_filters() {
    let mut p = params("q");
    p.include_domains = Some(Vec::new());
    p.exclude_domains = Some(vec!["a".to_string(), "b".to_string()]);
    let payload = build_payload(&p, 5, "basic", "general");
    assert!(payload.get("include_domains").is_none());
    assert_eq!(payload["exclude_domains"][1], "b");
    assert_eq!(payload.as_object().unwrap().len(), 7);
}

#[test]
fn prepare_trims_the_query_and_fills_in_the_defaults() {
    let search = prepare(&params(" \u{2003}rust wasm\n")).unwrap();
    assert_eq!(search.query, "rust wasm");
    assert_eq!(search.max_results, 5);
    assert_eq!(search.search_depth, "basic");
    assert_eq!(search.topic, "general");
    for (wanted, given) in [(0, 1), (20, 20), (21, 20)] {
        let mut p = params("q");
        p.max_results = Some(wanted);
        assert_eq!(prepare(&p).unwrap().max_results, given);
    }
}

#[test]
fn prepare_refuses_bad_searches_in_order() {
    let refused = |p: &SearchParams| prepare(p).unwrap_err();
    let mut p = params("  ");
    p.search_depth = Some("deep".to_string());
    p.topic = Some("sports".to_string());
    p.days = Some(0);
    p.include_domains = Some(vec!["a".to_string(), " ".to_string()]);
    p.exclude_domains = Some(vec![String::new()]);
    assert_eq!(refused(&p), "'query' must not be empty");
    p.query = format!(" {} ", "x".repeat(2001));
    assert_eq!(
        refused(&p),
        "'query' exceeds maximum length of 2000 characters"
    );
    p.query = format!(" {} ", "x".repeat(2000));
    assert_eq!(
        refused(&p),
        "Invalid 'search_depth': expected 'basic' or 'advanced'"
    );
    p.search_depth = Some("advanced".to_string());
    assert_eq!(refused(&p), "Invalid 'topic': expected 'general' or 'news'");
    p.topic = None;
    assert_eq!(refused(&p), "Invalid 'days': expected integer >= 1");
    p.days = Some(1);
    assert_eq!(
        refused(&p),
        "Invalid 'days': only supported when topic='news'"
    );
    p.topic = Some("news".to_string());
    assert_eq!(
        refused(&p),
        "Invalid 'include_domains': domain entries must not be empty"
    );
    p.include_domains = None;
    assert_eq!(
        refused(&p),
        "Invalid 'exclude_domains': domain entries must not be empty"
    );
    p.exclude_domains = Some(Vec::new());
    let search = prepare(&p).unwrap();
    assert_eq!(search.topic, "news");
    assert_eq!(search.search_depth, "advanced");
}

#[test]
fn domain_filters_have_no_blank_entry() {
    assert_eq!(validate_domain_filters(None, "f"), Ok(()));
    assert_eq!(validate_domain_filters(Some(&[]), "f"), Ok(()));
    let good = vec!["a.com".to_string()];
    assert_eq!(validate_domain_filters(Some(&good), "f"), Ok(()));
    let bad = vec!["a.com".to_string(), "\t".to_string()];
    assert_eq!(
        validate_domain_filters(Some(&bad), "f"),
        Err("Invalid 'f': domain entries must not be empty".to_string())
    );
}

#[test]
fn a_key_is_needed() {
    assert_eq!(authorize(true), Ok(()));
    assert_eq!(authorize(false), Err(KEY_ERROR.to_string()));
}

#[test]
fn request_posts_the_payload() {
    let p = params(" q ");
    let search = prepare(&p).unwrap();
    let request = request(&p, &search);
    assert_eq!(request.method, "POST");
    assert_eq!(request.url, "https://api.tavily.com/search");
    assert_eq!(
        request.headers,
        "{\"Accept\":\"application/json\",\"Content-Type\":\"application/json\",\
         \"User-Agent\":\"IronClaw-Tavily-Tool/0.1\"}"
    );
    assert_eq!(
        String::from_utf8(request.body.unwrap()).unwrap(),
        "{\"include_answer\":true,\"include_raw_content\":false,\"max_results\":5,\
         \"query\":\" q \",\"search_depth\":\"basic\",\"topic\":\"general\"}"
    );
}

#[test]
fn results_without_title_or_url_are_left_out() {
    let mut full = result(Some("t"), Some("u"));
    full.content = Some("c".to_string());
    full.score = Some(serde_json::Value::from(0.5));
    full.published_date = Some("2025".to_string());
    let results = vec![
        result(None, Some("u0")),
        result(Some("first"), Some("u1")),
        result(Some("t2"), None),
        full,
    ];
    let formatted = format_results(results);
    assert_eq!(formatted.len(), 2);
    assert_eq!(formatted[0]["title"], "first");
    assert_eq!(formatted[0]["description"], "");
    assert_eq!(formatted[0].as_object().unwrap().len(), 3);
    assert_eq!(formatted[1]["url"], "u");
    assert_eq!(formatted[1]["description"], "c");
    assert_eq!(formatted[1]["score"], 0.5);
    assert_eq!(formatted[1]["published"], "2025");
}

#[test]
fn report_holds_the_answer_the_images_and_the_results() {
    let empty = report(
        "q",
        TavilyResponse {
            answer: None,
            results: None,
            images: None,
        },
    );
    assert!(empty["answer"].is_null());
    assert_eq!(empty["images"].as_array().unwrap().len(), 0);
    assert_eq!(empty["result_count"], 0);

    let search = prepare(&params(" q ")).unwrap();
    let text = finish(
        &search,
        TavilyResponse {
            answer: Some("42".to_string()),
            results: Some(vec![result(Some("t"), Some("u")), result(None, None)]),
            images: Some(vec!["i".to_string()]),
        },
    );
    assert_eq!(
        text,
        "{\"answer\":\"42\",\"images\":[\"i\"],\"query\":\"q\",\"result_count\":1,\
         \"results\":[{\"description\":\"\",\"title\":\"t\",\"url\":\"u\"}]}"
    );
}

#[test]
fn search_goes_from_parameters_to_report() {
    assert_eq!(
        Accepted::begin(Err("bad".to_string())).unwrap_err(),
        "Invalid parameters: bad"
    );
    assert_eq!(
        Accepted::begin(Ok(params(""))).unwrap_err(),
        "'query' must not be empty"
    );
    let accepted = Accepted::begin(Ok(params("q"))).unwrap();
    assert_eq!(accepted.start(false).unwrap_err(), KEY_ERROR);

    let mut run = Accepted::begin(Ok(params("q"))).unwrap().start(true).unwrap();
    assert_eq!(run.request().method, "POST");
    let busy = HttpReply {
        status: 429,
        body: Vec::new(),
    };
    assert_eq!(
        run.on_reply(Ok(busy)),
        Outcome::Retry("Tavily API error 429 (attempt 1/3). Retrying...".to_string())
    );
    let good = HttpReply {
        status: 204,
        body: b"{}".to_vec(),
    };
    assert_eq!(run.on_reply(Ok(good)), Outcome::Read("{}".to_string()));
    assert_eq!(
        run.report(Err("oops".to_string())).unwrap_err(),
        "Failed to parse Tavily response: oops"
    );
    let response = TavilyResponse {
        answer: None,
        results: None,
        images: None,
    };
    assert_eq!(
        run.report(Ok(response)).unwrap(),
        r#"{"answer":null,"images":[],"query":"q","result_count":0,"results":[]}"#
    );
}

#[test]
fn run_fails_with_the_reply() {
    let mut run = Accepted::begin(Ok(params("q"))).unwrap().start(true).unwrap();
    assert_eq!(
        run.on_reply(Err("no route".to_string())),
        Outcome::Failed("HTTP request failed: no route".to_string())
    );
    let mut run = Accepted::begin(Ok(params("q"))).unwrap().start(true).unwrap();
    let denied = HttpReply {
        status: 401,
        body: vec![b'n', b'o', 0xff],
    };
    assert_eq!(
        run.on_reply(Ok(denied)),
        Outcome::Failed("Tavily API error (HTTP 401): no\u{fffd}".to_string())
    );
    let mut run = Accepted::begin(Ok(params("q"))).unwrap().start(true).unwrap();
    let garbled = HttpReply {
        status: 200,
        body: vec![0xff],
    };
    assert!(matches!(run.on_reply(Ok(garbled)), Outcome::Failed(e)
        if e.starts_with("Invalid UTF-8 response: ")));
}

#[test]
fn tavily_tool_describes_itself() {
    let schema: serde_json::Value = serde_json::from_str(&TavilyTool::schema()).unwrap();
    assert_eq!(schema["properties"]["max_results"]["maximum"], 20);
    assert_eq!(schema["properties"]["days"]["minimum"], 1);
    assert!(TavilyTool::description().starts_with("Search the web using Tavily Search API."));
    assert!(TavilyTool::description().ends_with("secret injected by the host."));
}
