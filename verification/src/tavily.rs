//! Search of the web with Tavily.
//!
//! A search is `Accepted` by its parameters, and with the key to the service it
//! becomes a `Run`: that says what request to send, is told of each reply until
//! there is one to read, and reports what was read.
use vstd::prelude::*;
use vstd::utf8::{decode_utf8, encode_utf8, valid_utf8};

use crate::http::{
    api_error, decision, decode_body, law_replies_decide, lossy_text, succeeded, utf8_error_text,
    Decision, DecisionView, Exchange, HttpReply, HttpRequest, MAX_RETRIES,
};
use crate::json::{
    bool_value, contents, counts, documents, json_text, list_value, members, natural_value,
    new_members, no_members, null_value, object_value, put, put_some_text, put_text, shows,
    strings, tells, text_documents, text_value, texts_value, to_string, to_vec, with_text,
    Document,
};
use crate::number::{clamp, clamped, decimal};
use crate::text::{chars_of, optional_text, same_text, string_of};
use crate::whitespace::{blank, is_blank, lemma_trim_blank, trim, trim_chars, white};

verus! {

/// The name of the service.
pub const SERVICE: &'static str = "Tavily";

/// Where searches are sent.
pub const TAVILY_SEARCH_ENDPOINT: &'static str = "https://api.tavily.com/search";

/// How many results are asked for where the parameters do not say.
pub const DEFAULT_MAX_RESULTS: u32 = 5;

/// How many results are asked for at most.
pub const MAX_RESULTS: u32 = 20;

/// The longest query, in bytes.
pub const MAX_QUERY_BYTES: usize = 2000;

/// The secret that holds the key to the service.
pub const API_KEY_SECRET: &'static str = "tavily_api_key";

/// The error for a search without a key.
pub const MISSING_KEY: &'static str =
    "Tavily API key not found in secret store. Set it with: ironclaw secret set tavily_api_key <key>. Get a key at: https://app.tavily.com/";

/// What the tool does, for the model that calls it.
pub const DESCRIPTION: &'static str =
    "Search the web using Tavily Search API. Returns titles, URLs, snippets, and optional answer synthesis for the query. Authentication is handled via the 'tavily_api_key' secret injected by the host.";

/// The JSON schema of the parameters.
pub const SCHEMA: &'static str = r#"{
    "type": "object",
    "properties": {
        "query": {
            "type": "string",
            "description": "Search query to look up on the web"
        },
        "max_results": {
            "type": "integer",
            "minimum": 1,
            "maximum": 20,
            "default": 5,
            "description": "Number of results to return"
        },
        "search_depth": {
            "type": "string",
            "enum": ["basic", "advanced"],
            "default": "basic",
            "description": "Search depth mode"
        },
        "topic": {
            "type": "string",
            "enum": ["general", "news"],
            "default": "general",
            "description": "Search topic mode"
        },
        "include_answer": {
            "type": "boolean",
            "default": true,
            "description": "Include answer synthesis in the response"
        },
        "include_raw_content": {
            "type": "boolean",
            "default": false,
            "description": "Include raw page content from Tavily"
        },
        "include_domains": {
            "type": "array",
            "items": { "type": "string" },
            "description": "Restrict search to specific domains"
        },
        "exclude_domains": {
            "type": "array",
            "items": { "type": "string" },
            "description": "Exclude specific domains from results"
        },
        "days": {
            "type": "integer",
            "minimum": 1,
            "description": "Limit results to the last N days (mainly for topic='news')"
        }
    },
    "required": ["query"],
    "additionalProperties": false
}"#;

/// The tool that searches the web.
pub struct TavilyTool;

impl TavilyTool {
    /// The JSON schema of the parameters.
    pub fn schema() -> (r: String)
        ensures
            r@ == SCHEMA@,
    {
        SCHEMA.to_owned()
    }

    /// What the tool does, for the model that calls it.
    pub fn description() -> (r: String)
        ensures
            r@ == DESCRIPTION@,
    {
        DESCRIPTION.to_owned()
    }
}

/// What a search asks for.
#[derive(Debug)]
pub struct SearchParams {
    pub query: String,
    pub max_results: Option<u32>,
    pub search_depth: Option<String>,
    pub topic: Option<String>,
    pub include_answer: Option<bool>,
    pub include_raw_content: Option<bool>,
    pub include_domains: Option<Vec<String>>,
    pub exclude_domains: Option<Vec<String>>,
    pub days: Option<u32>,
}

/// What was made of parameters that were accepted.
#[derive(Debug)]
pub struct Search {
    /// The query, without white space at its ends.
    pub query: String,
    pub max_results: u32,
    pub search_depth: String,
    pub topic: String,
}

/// What the service answers.
#[derive(Debug)]
pub struct TavilyResponse {
    pub answer: Option<String>,
    pub results: Option<Vec<TavilyResult>>,
    pub images: Option<Vec<String>>,
}

/// One result of the service. The score is a number that is handed on as it is.
#[derive(Debug)]
pub struct TavilyResult {
    pub title: Option<String>,
    pub url: Option<String>,
    pub content: Option<String>,
    pub score: Option<serde_json::Value>,
    pub published_date: Option<String>,
}

// ---------------------------------------------------------------------------
// What the parameters mean
// ---------------------------------------------------------------------------

/// How many results to ask for.
pub open spec fn wanted_results(params: SearchParams) -> u32 {
    match params.max_results {
        Some(n) => clamped(n, 1, MAX_RESULTS),
        None => DEFAULT_MAX_RESULTS,
    }
}

/// How thorough the search is.
pub open spec fn wanted_depth(params: SearchParams) -> Seq<char> {
    match params.search_depth {
        Some(depth) => depth@,
        None => "basic"@,
    }
}

/// What kind of pages the search is about.
pub open spec fn wanted_topic(params: SearchParams) -> Seq<char> {
    match params.topic {
        Some(topic) => topic@,
        None => "general"@,
    }
}

/// No entry is empty or white space only.
pub open spec fn all_filled(domains: Seq<String>) -> bool {
    forall|i: int| 0 <= i < domains.len() ==> !blank(#[trigger] domains[i]@)
}

/// The filter is missing, or has no empty entry.
pub open spec fn good_filter(domains: Option<Vec<String>>) -> bool {
    match domains {
        Some(d) => all_filled(d@),
        None => true,
    }
}

/// The error for a filter with an empty entry.
pub open spec fn filter_error(field_name: Seq<char>) -> Seq<char> {
    "Invalid '"@ + field_name + "': domain entries must not be empty"@
}

/// Why the parameters are refused, if they are.
pub open spec fn refusal(params: SearchParams) -> Option<Seq<char>> {
    let query = trim(params.query@);
    let depth = wanted_depth(params);
    let topic = wanted_topic(params);
    if query.len() == 0 {
        Some("'query' must not be empty"@)
    } else if encode_utf8(query).len() > MAX_QUERY_BYTES {
        Some("'query' exceeds maximum length of 2000 characters"@)
    } else if depth != "basic"@ && depth != "advanced"@ {
        Some("Invalid 'search_depth': expected 'basic' or 'advanced'"@)
    } else if topic != "general"@ && topic != "news"@ {
        Some("Invalid 'topic': expected 'general' or 'news'"@)
    } else if params.days == Some(0u32) {
        Some("Invalid 'days': expected integer >= 1"@)
    } else if params.days is Some && topic != "news"@ {
        Some("Invalid 'days': only supported when topic='news'"@)
    } else if !good_filter(params.include_domains) {
        Some(filter_error("include_domains"@))
    } else if !good_filter(params.exclude_domains) {
        Some(filter_error("exclude_domains"@))
    } else {
        None
    }
}

/// The members with a list of texts where it is there and not empty.
pub open spec fn with_domains(
    map: Map<Seq<char>, Document>,
    key: Seq<char>,
    domains: Option<Vec<String>>,
) -> Map<Seq<char>, Document> {
    match domains {
        Some(d) => if d@.len() > 0 {
            map.insert(key, Document::List(text_documents(strings(d@))))
        } else {
            map
        },
        None => map,
    }
}

/// The members of the payload of the request.
pub open spec fn payload_members(
    params: SearchParams,
    max_results: u32,
    search_depth: Seq<char>,
    topic: Seq<char>,
) -> Map<Seq<char>, Document> {
    let include_answer = match params.include_answer {
        Some(b) => b,
        None => true,
    };
    let include_raw_content = match params.include_raw_content {
        Some(b) => b,
        None => false,
    };
    let m = no_members().insert("query"@, Document::Text(params.query@)).insert(
        "max_results"@,
        Document::Natural(max_results as nat),
    ).insert("search_depth"@, Document::Text(search_depth)).insert(
        "topic"@,
        Document::Text(topic),
    ).insert("include_answer"@, Document::Bool(include_answer)).insert(
        "include_raw_content"@,
        Document::Bool(include_raw_content),
    );
    let m = with_domains(m, "include_domains"@, params.include_domains);
    let m = with_domains(m, "exclude_domains"@, params.exclude_domains);
    match params.days {
        Some(days) => m.insert("days"@, Document::Natural(days as nat)),
        None => m,
    }
}

/// The payload of the request.
pub open spec fn payload_document(
    params: SearchParams,
    max_results: u32,
    search_depth: Seq<char>,
    topic: Seq<char>,
) -> Document {
    Document::Object(payload_members(params, max_results, search_depth, topic))
}

/// The members of the headers of the request.
pub open spec fn header_members() -> Map<Seq<char>, Document> {
    no_members().insert("Accept"@, Document::Text("application/json"@)).insert(
        "Content-Type"@,
        Document::Text("application/json"@),
    ).insert("User-Agent"@, Document::Text("IronClaw-Tavily-Tool/0.1"@))
}

// ---------------------------------------------------------------------------
// What the report says
// ---------------------------------------------------------------------------

/// The members for a result with the title and the URL.
pub open spec fn result_members(title: Seq<char>, url: Seq<char>, result: TavilyResult) -> Map<
    Seq<char>,
    Document,
> {
    let description = match result.content {
        Some(text) => text@,
        None => Seq::empty(),
    };
    let m = no_members().insert("title"@, Document::Text(title)).insert(
        "url"@,
        Document::Text(url),
    ).insert("description"@, Document::Text(description));
    let m = match result.score {
        Some(score) => m.insert("score"@, contents(score)),
        None => m,
    };
    with_text(m, "published"@, optional_text(result.published_date))
}

/// The results that have a title and a URL, in their order.
pub open spec fn result_documents(results: Seq<TavilyResult>) -> Seq<Document>
    decreases results.len(),
{
    if results.len() == 0 {
        Seq::empty()
    } else {
        let earlier = result_documents(results.drop_last());
        let last = results.last();
        match (last.title, last.url) {
            (Some(title), Some(url)) => earlier.push(
                Document::Object(result_members(title@, url@, last)),
            ),
            _ => earlier,
        }
    }
}

/// The results of the response; none where it has no list of them.
pub open spec fn results_of(response: TavilyResponse) -> Seq<TavilyResult> {
    match response.results {
        Some(results) => results@,
        None => Seq::empty(),
    }
}

/// The images of the response; none where it has no list of them.
pub open spec fn images_of(response: TavilyResponse) -> Seq<Seq<char>> {
    match response.images {
        Some(images) => strings(images@),
        None => Seq::empty(),
    }
}

/// The members of the report.
pub open spec fn report_members(query: Seq<char>, response: TavilyResponse) -> Map<
    Seq<char>,
    Document,
> {
    let results = result_documents(results_of(response));
    let answer = match response.answer {
        Some(text) => Document::Text(text@),
        None => Document::Null,
    };
    no_members().insert("query"@, Document::Text(query)).insert("answer"@, answer).insert(
        "images"@,
        Document::List(text_documents(images_of(response))),
    ).insert("result_count"@, Document::Natural(results.len())).insert(
        "results"@,
        Document::List(results),
    )
}

/// The report.
pub open spec fn report_document(query: Seq<char>, response: TavilyResponse) -> Document {
    Document::Object(report_members(query, response))
}

// ---------------------------------------------------------------------------
// Searching
// ---------------------------------------------------------------------------

/// Refuses a filter that has an empty entry.
pub fn validate_domain_filters(domains: Option<&[String]>, field_name: &str) -> (r: Result<
    (),
    String,
>)
    ensures
        match r {
            Ok(_) => domains matches Some(d) ==> all_filled(d@),
            Err(error) => {
                &&& domains is Some
                &&& !all_filled(domains->0@)
                &&& error@ == filter_error(field_name@)
            },
        },
{
    if let Some(list) = domains {
        let mut i: usize = 0;
        while i < list.len()
            invariant
                i <= list@.len(),
                domains == Some(list),
                forall|k: int| 0 <= k < i ==> !blank(#[trigger] list@[k]@),
            decreases list@.len() - i,
        {
            if is_blank(list[i].as_str()) {
                let mut error = "Invalid '".to_owned();
                error.append(field_name);
                error.append("': domain entries must not be empty");
                return Err(error);
            }
            i += 1;
        }
    }
    Ok(())
}

fn check_filter(domains: &Option<Vec<String>>, field_name: &str) -> (r: Result<(), String>)
    ensures
        match r {
            Ok(_) => good_filter(*domains),
            Err(error) => !good_filter(*domains) && error@ == filter_error(field_name@),
        },
{
    match domains {
        Some(list) => validate_domain_filters(Some(list.as_slice()), field_name),
        None => Ok(()),
    }
}

/// Checks the parameters, and fills in what they leave out.
pub fn prepare(params: &SearchParams) -> (r: Result<Search, String>)
    ensures
        match r {
            Ok(search) => {
                &&& refusal(*params) is None
                &&& search.query@ == trim(params.query@)
                &&& search.max_results == wanted_results(*params)
                &&& search.search_depth@ == wanted_depth(*params)
                &&& search.topic@ == wanted_topic(*params)
            },
            Err(error) => refusal(*params) == Some(error@),
        },
{
    let whole = chars_of(params.query.as_str());
    let query = string_of(trim_chars(whole.as_slice()));
    if query.as_str().is_empty() {
        return Err("'query' must not be empty".to_owned());
    }
    if query.as_str().as_bytes().len() > MAX_QUERY_BYTES {
        return Err("'query' exceeds maximum length of 2000 characters".to_owned());
    }
    let max_results: u32 = match params.max_results {
        Some(n) => clamp(n, 1, MAX_RESULTS),
        None => DEFAULT_MAX_RESULTS,
    };
    let search_depth = match &params.search_depth {
        Some(depth) => depth.clone(),
        None => "basic".to_owned(),
    };
    let depth = search_depth.as_str();
    if !same_text(depth, "basic") && !same_text(depth, "advanced") {
        return Err("Invalid 'search_depth': expected 'basic' or 'advanced'".to_owned());
    }
    let topic = match &params.topic {
        Some(topic) => topic.clone(),
        None => "general".to_owned(),
    };
    if !same_text(topic.as_str(), "general") && !same_text(topic.as_str(), "news") {
        return Err("Invalid 'topic': expected 'general' or 'news'".to_owned());
    }
    if let Some(days) = params.days {
        if days == 0 {
            return Err("Invalid 'days': expected integer >= 1".to_owned());
        }
        if !same_text(topic.as_str(), "news") {
            return Err("Invalid 'days': only supported when topic='news'".to_owned());
        }
    }
    match check_filter(&params.include_domains, "include_domains") {
        Ok(_) => {},
        Err(error) => {
            return Err(error);
        },
    }
    match check_filter(&params.exclude_domains, "exclude_domains") {
        Ok(_) => {},
        Err(error) => {
            return Err(error);
        },
    }
    Ok(Search { query, max_results, search_depth, topic })
}

/// Refuses to search without the key to the service.
pub fn authorize(key_exists: bool) -> (r: Result<(), String>)
    ensures
        match r {
            Ok(_) => key_exists,
            Err(error) => !key_exists && error@ == MISSING_KEY@,
        },
{
    if key_exists {
        Ok(())
    } else {
        Err(MISSING_KEY.to_owned())
    }
}

fn put_domains(
    map: &mut serde_json::Map<String, serde_json::Value>,
    key: &str,
    domains: &Option<Vec<String>>,
)
    ensures
        members(*final(map)) == with_domains(members(*old(map)), key@, *domains),
{
    if let Some(list) = domains {
        if list.len() > 0 {
            put(map, key, texts_value(list));
        }
    }
}

/// The payload of the request: the parameters, with the settings that were
/// made of them.
pub fn build_payload(
    params: &SearchParams,
    max_results: u32,
    search_depth: &str,
    topic: &str,
) -> (r: serde_json::Value)
    ensures
        contents(r) == payload_document(*params, max_results, search_depth@, topic@),
{
    let mut map = new_members();
    put_text(&mut map, "query", params.query.as_str());
    put(&mut map, "max_results", natural_value(max_results as u64));
    put_text(&mut map, "search_depth", search_depth);
    put_text(&mut map, "topic", topic);
    put(&mut map, "include_answer", bool_value(params.include_answer.unwrap_or(true)));
    put(&mut map, "include_raw_content", bool_value(params.include_raw_content.unwrap_or(false)));
    put_domains(&mut map, "include_domains", &params.include_domains);
    put_domains(&mut map, "exclude_domains", &params.exclude_domains);
    if let Some(days) = params.days {
        put(&mut map, "days", natural_value(days as u64));
    }
    object_value(map)
}

/// The request for the search.
pub fn request(params: &SearchParams, search: &Search) -> (r: HttpRequest)
    ensures
        r.method@ == "POST"@,
        r.url@ == TAVILY_SEARCH_ENDPOINT@,
        r.headers@ == json_text(Document::Object(header_members())),
        r.body is Some,
        r.body->0@ == encode_utf8(
            json_text(
                payload_document(*params, search.max_results, search.search_depth@, search.topic@),
            ),
        ),
{
    let mut headers = new_members();
    put_text(&mut headers, "Accept", "application/json");
    put_text(&mut headers, "Content-Type", "application/json");
    put_text(&mut headers, "User-Agent", "IronClaw-Tavily-Tool/0.1");
    let value = object_value(headers);
    let payload = build_payload(
        params,
        search.max_results,
        search.search_depth.as_str(),
        search.topic.as_str(),
    );
    HttpRequest {
        method: "POST".to_owned(),
        url: TAVILY_SEARCH_ENDPOINT.to_owned(),
        headers: to_string(&value).unwrap(),
        body: Some(to_vec(&payload).unwrap()),
    }
}

fn result_value(title: String, url: String, result: TavilyResult) -> (r: serde_json::Value)
    ensures
        contents(r) == Document::Object(result_members(title@, url@, result)),
{
    let description = match result.content {
        Some(text) => text,
        None => String::new(),
    };
    let mut map = new_members();
    put(&mut map, "title", text_value(title));
    put(&mut map, "url", text_value(url));
    put(&mut map, "description", text_value(description));
    if let Some(score) = result.score {
        put(&mut map, "score", score);
    }
    put_some_text(&mut map, "published", &result.published_date);
    object_value(map)
}

/// The results that have a title and a URL as JSON objects, in their order.
pub fn format_results(results: Vec<TavilyResult>) -> (r: Vec<serde_json::Value>)
    ensures
        documents(r@) == result_documents(results@),
{
    let mut out: Vec<serde_json::Value> = Vec::new();
    let ghost all = results@;
    assert(documents(out@) =~= Seq::empty());
    assert(all.take(0) =~= Seq::empty());
    for result in it: results.into_iter()
        invariant
            it.seq() == all,
            documents(out@) == result_documents(all.take(it.index() as int)),
    {
        let ghost earlier = out@;
        let ghost this = result;
        let title = result.title.clone();
        let url = result.url.clone();
        proof {
            let now = all.take(it.index() + 1);
            assert(now.drop_last() =~= all.take(it.index() as int));
            assert(now.last() == this);
        }
        if let Some(title) = title {
            if let Some(url) = url {
                let value = result_value(title, url, result);
                out.push(value);
                assert(documents(out@) =~= documents(earlier).push(contents(value)));
            }
        }
    }
    assert(all.take(all.len() as int) =~= all);
    out
}

/// The report on what the service answered.
pub fn report(query: &str, response: TavilyResponse) -> (r: serde_json::Value)
    ensures
        contents(r) == report_document(query@, response),
{
    let results = match response.results {
        Some(results) => results,
        None => Vec::new(),
    };
    let images = match response.images {
        Some(images) => images,
        None => Vec::new(),
    };
    assert(strings(images@) =~= images_of(response));
    let formatted = format_results(results);
    let count: usize = formatted.len();
    assert(documents(formatted@).len() == count);
    let answer = match response.answer {
        Some(text) => text_value(text),
        None => null_value(),
    };
    let mut map = new_members();
    put_text(&mut map, "query", query);
    put(&mut map, "answer", answer);
    put(&mut map, "images", texts_value(&images));
    put(&mut map, "result_count", natural_value(count as u64));
    put(&mut map, "results", list_value(formatted));
    object_value(map)
}

/// The report on what the service answered, as JSON text.
pub fn finish(search: &Search, response: TavilyResponse) -> (r: String)
    ensures
        r@ == json_text(report_document(search.query@, response)),
{
    let value = report(search.query.as_str(), response);
    to_string(&value).unwrap()
}

// ---------------------------------------------------------------------------
// A search from its parameters to its report
// ---------------------------------------------------------------------------

/// What a reply comes to.
#[derive(Debug, PartialEq, Eq)]
pub enum Outcome {
    /// Log the warning, and send the request again.
    Retry(String),
    /// The text of a response to read.
    Read(String),
    /// The search failed, with this error.
    Failed(String),
}

/// The values that an outcome holds.
pub enum OutcomeView {
    Retry(Seq<char>),
    Read(Seq<char>),
    Failed(Seq<char>),
}

impl View for Outcome {
    type V = OutcomeView;

    open spec fn view(&self) -> OutcomeView {
        match self {
            Outcome::Retry(warning) => OutcomeView::Retry(warning@),
            Outcome::Read(text) => OutcomeView::Read(text@),
            Outcome::Failed(error) => OutcomeView::Failed(error@),
        }
    }
}

/// What the reply to the request number `attempt` comes to.
pub open spec fn outcome(attempt: u32, reply: Result<HttpReply, String>) -> OutcomeView {
    match decision(SERVICE@, attempt, reply) {
        DecisionView::Accept(body) => if valid_utf8(body) {
            OutcomeView::Read(decode_utf8(body))
        } else {
            OutcomeView::Failed("Invalid UTF-8 response: "@ + utf8_error_text(body))
        },
        DecisionView::Retry(warning) => OutcomeView::Retry(warning),
        DecisionView::Fail(error) => OutcomeView::Failed(error),
    }
}

/// A search whose parameters were accepted, before the key was asked for.
#[derive(Debug)]
pub struct Accepted {
    params: SearchParams,
    search: Search,
}

impl Accepted {
    /// What is asked for.
    pub closed spec fn params(self) -> SearchParams {
        self.params
    }

    /// What was made of it.
    pub closed spec fn search(self) -> Search {
        self.search
    }

    /// Accepts the parameters, or says why it does not.
    pub fn begin(parsed: Result<SearchParams, String>) -> (r: Result<Accepted, String>)
        ensures
            match parsed {
                Err(e) => r matches Err(error) && error@ == "Invalid parameters: "@ + e@,
                Ok(params) => match r {
                    Ok(accepted) => {
                        &&& refusal(params) is None
                        &&& accepted.params() == params
                        &&& accepted.search().query@ == trim(params.query@)
                        &&& accepted.search().max_results == wanted_results(params)
                        &&& accepted.search().search_depth@ == wanted_depth(params)
                        &&& accepted.search().topic@ == wanted_topic(params)
                    },
                    Err(error) => refusal(params) == Some(error@),
                },
            },
    {
        match parsed {
            Err(e) => Err("Invalid parameters: ".to_owned().concat(e.as_str())),
            Ok(params) => match prepare(&params) {
                Ok(search) => Ok(Accepted { params, search }),
                Err(error) => Err(error),
            },
        }
    }

    /// Starts the search where there is a key to the service.
    pub fn start(self, key_exists: bool) -> (r: Result<Run, String>)
        ensures
            match r {
                Ok(run) => {
                    &&& key_exists
                    &&& run.wf()
                    &&& run.attempts() == 0
                    &&& run.params() == self.params()
                    &&& run.search() == self.search()
                },
                Err(error) => !key_exists && error@ == MISSING_KEY@,
            },
    {
        match authorize(key_exists) {
            Ok(_) => Ok(
                Run {
                    params: self.params,
                    search: self.search,
                    exchange: Exchange::new(SERVICE),
                },
            ),
            Err(error) => Err(error),
        }
    }
}

/// A search under way.
#[derive(Debug)]
pub struct Run {
    params: SearchParams,
    search: Search,
    exchange: Exchange,
}

impl Run {
    /// What is asked for.
    pub closed spec fn params(self) -> SearchParams {
        self.params
    }

    /// What was made of it.
    pub closed spec fn search(self) -> Search {
        self.search
    }

    /// How many replies there were.
    pub closed spec fn attempts(self) -> u32 {
        self.exchange.attempts()
    }

    /// The exchange is one with the service.
    pub closed spec fn wf(self) -> bool {
        self.exchange.service() == SERVICE@
    }

    /// The request to send.
    pub fn request(&self) -> (r: HttpRequest)
        ensures
            r.method@ == "POST"@,
            r.url@ == TAVILY_SEARCH_ENDPOINT@,
            r.headers@ == json_text(Document::Object(header_members())),
            r.body is Some,
            r.body->0@ == encode_utf8(
                json_text(
                    payload_document(
                        self.params(),
                        self.search().max_results,
                        self.search().search_depth@,
                        self.search().topic@,
                    ),
                ),
            ),
    {
        request(&self.params, &self.search)
    }

    /// Takes the reply to the request.
    pub fn on_reply(&mut self, reply: Result<HttpReply, String>) -> (r: Outcome)
        requires
            old(self).wf(),
            old(self).attempts() < MAX_RETRIES,
        ensures
            final(self).wf(),
            final(self).params() == old(self).params(),
            final(self).search() == old(self).search(),
            final(self).attempts() == old(self).attempts() + 1,
            r@ == outcome(final(self).attempts(), reply),
            r is Retry ==> final(self).attempts() < MAX_RETRIES,
            r is Failed ==> (reply matches Ok(h) ==> (!succeeded(h.status) && valid_utf8(h.body@)
                ==> lossy_text(h.body@) == decode_utf8(h.body@))),
            r is Failed ==> (reply matches Ok(h) ==> (!succeeded(h.status) && valid_utf8(h.body@)
                ==> r@ == OutcomeView::Failed(
                api_error(SERVICE@, h.status, decode_utf8(h.body@)),
            ))),
    {
        match self.exchange.on_reply(reply) {
            Decision::Accept(body) => match decode_body(body) {
                Ok(text) => Outcome::Read(text),
                Err(error) => Outcome::Failed(error),
            },
            Decision::Retry(warning) => Outcome::Retry(warning),
            Decision::Fail(error) => Outcome::Failed(error),
        }
    }

    /// The report on the response that was read, as JSON text.
    pub fn report(&self, read: Result<TavilyResponse, String>) -> (r: Result<String, String>)
        ensures
            match read {
                Ok(response) => r matches Ok(text) && text@ == json_text(
                    report_document(self.search().query@, response),
                ),
                Err(e) => r matches Err(error) && error@ == "Failed to parse Tavily response: "@
                    + e@,
            },
    {
        match read {
            Ok(response) => Ok(finish(&self.search, response)),
            Err(e) => Err("Failed to parse Tavily response: ".to_owned().concat(e.as_str())),
        }
    }
}

// ---------------------------------------------------------------------------
// Laws
// ---------------------------------------------------------------------------

/// A search asks for at least one result, and for no more than the limit.
pub proof fn law_results_are_bounded(params: SearchParams)
    ensures
        1 <= wanted_results(params) <= MAX_RESULTS,
{
}

/// A query of white space alone is refused, whatever else is asked for.
pub proof fn law_blank_queries_are_refused(params: SearchParams)
    requires
        blank(params.query@),
    ensures
        refusal(params) == Some("'query' must not be empty"@),
{
    lemma_trim_blank(params.query@);
}

/// Parameters that are accepted name a depth and a topic that the service
/// knows, ask for days only of the news and for one at least, and have no empty
/// domain.
pub proof fn law_accepted_parameters_are_sound(params: SearchParams)
    requires
        refusal(params) is None,
    ensures
        wanted_depth(params) == "basic"@ || wanted_depth(params) == "advanced"@,
        wanted_topic(params) == "general"@ || wanted_topic(params) == "news"@,
        params.days matches Some(days) ==> days >= 1 && wanted_topic(params) == "news"@,
        good_filter(params.include_domains),
        good_filter(params.exclude_domains),
        !blank(params.query@),
{
    lemma_trim_blank(params.query@);
}

/// A result is reported if it has a title and a URL.
pub open spec fn reportable(result: TavilyResult) -> bool {
    result.title is Some && result.url is Some
}

/// The reported results are those with a title and a URL, in the order of the
/// response.
pub proof fn law_results_keep_their_order(first: Seq<TavilyResult>, second: Seq<TavilyResult>)
    ensures
        result_documents(first + second) == result_documents(first) + result_documents(second),
        result_documents(first).len() == first.filter(|r: TavilyResult| reportable(r)).len(),
    decreases second.len(),
{
    lemma_reported_count(first);
    if second.len() == 0 {
        assert(first + second =~= first);
        assert(result_documents(first) + result_documents(second) =~= result_documents(first));
    } else {
        law_results_keep_their_order(first, second.drop_last());
        assert((first + second).drop_last() =~= first + second.drop_last());
        assert((first + second).last() == second.last());
        assert(result_documents(first + second) =~= result_documents(first) + result_documents(
            second,
        ));
    }
}

proof fn lemma_reported_count(results: Seq<TavilyResult>)
    ensures
        result_documents(results).len() == results.filter(|r: TavilyResult| reportable(r)).len(),
    decreases results.len(),
{
    reveal(Seq::filter);
    if results.len() > 0 {
        lemma_reported_count(results.drop_last());
    }
}

/// The parameters mean what they say: a number of results from 1 to 20 is taken as
/// it is, a smaller or larger one as the nearer of the two, and none as 5; a depth and
/// a topic are taken as they are, and none as a basic search of general pages.
pub proof fn law_parameters_are_taken_as_given(params: SearchParams)
    ensures
        params.max_results is None ==> wanted_results(params) == 5,
        params.max_results matches Some(n) ==> {
            &&& 1 <= n <= 20 ==> wanted_results(params) == n
            &&& n < 1 ==> wanted_results(params) == 1
            &&& n > 20 ==> wanted_results(params) == 20
        },
        params.search_depth is None ==> wanted_depth(params) == "basic"@,
        params.search_depth matches Some(depth) ==> wanted_depth(params) == depth@,
        params.topic is None ==> wanted_topic(params) == "general"@,
        params.topic matches Some(topic) ==> wanted_topic(params) == topic@,
{
}

/// Some domain of the filter is empty or white space alone.
pub open spec fn has_blank_domain(domains: Option<Vec<String>>) -> bool {
    domains is Some && exists|i: int|
        0 <= i < domains->0@.len() && blank(#[trigger] domains->0@[i]@)
}

proof fn lemma_blank_domain(domains: Option<Vec<String>>)
    ensures
        good_filter(domains) <==> !has_blank_domain(domains),
{
}

/// The parameters are refused for the first thing that is wrong with them: a query of
/// white space alone, one of more than 2000 bytes without the white space around it,
/// an unknown depth or topic, days that are none or not of the news, and a domain that
/// is blank. All others are accepted.
pub proof fn law_first_fault_is_named(params: SearchParams)
    ensures
        ({
            let query = params.query@;
            let empty = forall|i: int| 0 <= i < query.len() ==> white(#[trigger] query[i]);
            let long = encode_utf8(trim(query)).len() > 2000;
            let depth = params.search_depth is None || params.search_depth->0@ == "basic"@
                || params.search_depth->0@ == "advanced"@;
            let news = params.topic is Some && params.topic->0@ == "news"@;
            let topic = params.topic is None || params.topic->0@ == "general"@ || news;
            let none = params.days is Some && params.days->0 == 0;
            let misplaced = params.days is Some && !news;
            let included = has_blank_domain(params.include_domains);
            let excluded = has_blank_domain(params.exclude_domains);
            let searchable = !empty && !long;
            &&& empty ==> refusal(params) == Some("'query' must not be empty"@)
            &&& !empty && long ==> refusal(params) == Some(
                "'query' exceeds maximum length of 2000 characters"@,
            )
            &&& searchable && !depth ==> refusal(params) == Some(
                "Invalid 'search_depth': expected 'basic' or 'advanced'"@,
            )
            &&& searchable && depth && !topic ==> refusal(params) == Some(
                "Invalid 'topic': expected 'general' or 'news'"@,
            )
            &&& searchable && depth && topic && none ==> refusal(params) == Some(
                "Invalid 'days': expected integer >= 1"@,
            )
            &&& searchable && depth && topic && !none && misplaced ==> refusal(params) == Some(
                "Invalid 'days': only supported when topic='news'"@,
            )
            &&& searchable && depth && topic && !none && !misplaced && included ==> refusal(params)
                == Some("Invalid 'include_domains': domain entries must not be empty"@)
            &&& searchable && depth && topic && !none && !misplaced && !included && excluded
                ==> refusal(params) == Some(
                "Invalid 'exclude_domains': domain entries must not be empty"@,
            )
            &&& searchable && depth && topic && !none && !misplaced && !included && !excluded
                ==> refusal(params) is None
        }),
{
    lemma_trim_blank(params.query@);
    assert(blank(params.query@) <==> forall|i: int|
        0 <= i < params.query@.len() ==> white(#[trigger] params.query@[i]));
    lemma_blank_domain(params.include_domains);
    lemma_blank_domain(params.exclude_domains);
    reveal_strlit("general");
    reveal_strlit("news");
    assert("general"@.len() == 7);
    assert("news"@.len() == 4);
    reveal_strlit("Invalid '");
    reveal_strlit("': domain entries must not be empty");
    reveal_strlit("include_domains");
    reveal_strlit("exclude_domains");
    reveal_strlit("Invalid 'include_domains': domain entries must not be empty");
    reveal_strlit("Invalid 'exclude_domains': domain entries must not be empty");
    assert(filter_error("include_domains"@)
        =~= "Invalid 'include_domains': domain entries must not be empty"@);
    assert(filter_error("exclude_domains"@)
        =~= "Invalid 'exclude_domains': domain entries must not be empty"@);
}

/// What tells the keys of the payload apart.
proof fn lemma_payload_keys()
    ensures
        "query"@.len() == 5,
        "query"@[0] == 'q',
        "max_results"@.len() == 11,
        "search_depth"@.len() == 12,
        "topic"@.len() == 5,
        "topic"@[0] == 't',
        "include_answer"@.len() == 14,
        "include_raw_content"@.len() == 19,
        "include_domains"@.len() == 15,
        "include_domains"@[0] == 'i',
        "exclude_domains"@.len() == 15,
        "exclude_domains"@[0] == 'e',
        "days"@.len() == 4,
{
    reveal_strlit("query");
    reveal_strlit("max_results");
    reveal_strlit("search_depth");
    reveal_strlit("topic");
    reveal_strlit("include_answer");
    reveal_strlit("include_raw_content");
    reveal_strlit("include_domains");
    reveal_strlit("exclude_domains");
    reveal_strlit("days");
}

/// `map` has the list of the domains under the key where there are any, and else not
/// the key.
pub open spec fn lists_domains(
    map: Map<Seq<char>, Document>,
    key: Seq<char>,
    domains: Option<Vec<String>>,
) -> bool {
    if domains is Some && domains->0@.len() > 0 {
        &&& map.contains_key(key)
        &&& map[key] is List
        &&& map[key]->List_0.len() == domains->0@.len()
        &&& forall|i: int|
            0 <= i < domains->0@.len() ==> #[trigger] map[key]->List_0[i] == Document::Text(
                domains->0@[i]@,
            )
    } else {
        !map.contains_key(key)
    }
}

/// The payload has the query as it was given, the number of results, the depth and the
/// topic that were settled on, whether an answer and raw content are wanted, the
/// domains and the days where they were given, and nothing else.
pub proof fn law_payload_asks_for_what_was_given(
    params: SearchParams,
    number: u32,
    depth: Seq<char>,
    subject: Seq<char>,
    key: Seq<char>,
)
    ensures
        payload_document(params, number, depth, subject) is Object,
        ({
            let m = payload_document(params, number, depth, subject)->Object_0;
            &&& shows(m, "query"@, Some(params.query@))
            &&& counts(m, "max_results"@, number as nat)
            &&& shows(m, "search_depth"@, Some(depth))
            &&& shows(m, "topic"@, Some(subject))
            &&& tells(
                m,
                "include_answer"@,
                params.include_answer is None || params.include_answer->0,
            )
            &&& tells(
                m,
                "include_raw_content"@,
                params.include_raw_content is Some && params.include_raw_content->0,
            )
            &&& lists_domains(m, "include_domains"@, params.include_domains)
            &&& lists_domains(m, "exclude_domains"@, params.exclude_domains)
            &&& params.days is Some ==> counts(m, "days"@, params.days->0 as nat)
            &&& params.days is None ==> !m.contains_key("days"@)
            &&& m.contains_key(key) ==> key == "query"@ || key == "max_results"@ || key
                == "search_depth"@ || key == "topic"@ || key == "include_answer"@ || key
                == "include_raw_content"@ || key == "include_domains"@ || key
                == "exclude_domains"@ || key == "days"@
        }),
{
    lemma_payload_keys();
}

/// Searches with the same payload ask for the same.
pub proof fn law_payload_tells_searches_apart(
    a: SearchParams,
    max_a: u32,
    depth_a: Seq<char>,
    topic_a: Seq<char>,
    b: SearchParams,
    max_b: u32,
    depth_b: Seq<char>,
    topic_b: Seq<char>,
)
    requires
        payload_document(a, max_a, depth_a, topic_a) == payload_document(
            b,
            max_b,
            depth_b,
            topic_b,
        ),
    ensures
        a.query@ == b.query@,
        max_a == max_b,
        depth_a == depth_b,
        topic_a == topic_b,
        a.days == b.days,
        a.include_answer is Some && b.include_answer is Some ==> a.include_answer
            == b.include_answer,
        a.include_raw_content is Some && b.include_raw_content is Some ==> a.include_raw_content
            == b.include_raw_content,
{
    law_payload_asks_for_what_was_given(a, max_a, depth_a, topic_a, "query"@);
    law_payload_asks_for_what_was_given(b, max_b, depth_b, topic_b, "query"@);
    let m = payload_document(a, max_a, depth_a, topic_a)->Object_0;
    assert(m["query"@] == Document::Text(a.query@));
    assert(m["max_results"@] == Document::Natural(max_a as nat));
    assert(m["search_depth"@] == Document::Text(depth_a));
    assert(m["topic"@] == Document::Text(topic_a));
}

/// The headers say that JSON is sent and wanted, and who asks, and nothing else.
pub proof fn law_headers_ask_for_json(key: Seq<char>)
    ensures
        shows(header_members(), "Accept"@, Some("application/json"@)),
        shows(header_members(), "Content-Type"@, Some("application/json"@)),
        shows(header_members(), "User-Agent"@, Some("IronClaw-Tavily-Tool/0.1"@)),
        header_members().contains_key(key) ==> key == "Accept"@ || key == "Content-Type"@ || key
            == "User-Agent"@,
{
    reveal_strlit("Accept");
    reveal_strlit("Content-Type");
    reveal_strlit("User-Agent");
    assert("Accept"@.len() == 6);
    assert("Content-Type"@.len() == 12);
    assert("User-Agent"@.len() == 10);
}

/// `document` is the object for a result: its title, its URL and its content, or an
/// empty text, and the score and the date where the result has them.
pub open spec fn tells_of(document: Document, result: TavilyResult) -> bool {
    &&& document is Object
    &&& shows(document->Object_0, "title"@, Some(result.title->0@))
    &&& shows(document->Object_0, "url"@, Some(result.url->0@))
    &&& result.content is Some ==> shows(
        document->Object_0,
        "description"@,
        Some(result.content->0@),
    )
    &&& result.content is None ==> shows(document->Object_0, "description"@, Some(seq![]))
    &&& match result.score {
        Some(score) => document->Object_0.contains_pair("score"@, contents(score)),
        None => !document->Object_0.contains_key("score"@),
    }
    &&& result.published_date is Some ==> shows(
        document->Object_0,
        "published"@,
        Some(result.published_date->0@),
    )
    &&& result.published_date is None ==> shows(document->Object_0, "published"@, None)
    &&& forall|key: Seq<char>| #[trigger]
        document->Object_0.contains_key(key) ==> key == "title"@ || key == "url"@ || key
            == "description"@ || key == "score"@ || key == "published"@
}

/// The object for a result has each part of the result under its own key, and no
/// other key.
pub proof fn law_result_object_has_each_part(title: String, url: String, result: TavilyResult)
    requires
        result.title == Some(title),
        result.url == Some(url),
    ensures
        tells_of(Document::Object(result_members(title@, url@, result)), result),
{
    reveal_strlit("title");
    reveal_strlit("url");
    reveal_strlit("description");
    reveal_strlit("score");
    reveal_strlit("published");
    assert("title"@.len() == 5 && "title"@[0] == 't');
    assert("url"@.len() == 3);
    assert("description"@.len() == 11);
    assert("score"@.len() == 5 && "score"@[0] == 's');
    assert("published"@.len() == 9);
}

/// One object is reported for each result that has a title and a URL, in the order of
/// the results, and it tells of that result.
pub proof fn law_each_complete_result_is_reported(results: Seq<TavilyResult>)
    ensures
        ({
            let complete = results.filter(
                |r: TavilyResult| r.title is Some && r.url is Some,
            );
            &&& result_documents(results).len() == complete.len()
            &&& forall|i: int|
                0 <= i < complete.len() ==> tells_of(
                    #[trigger] result_documents(results)[i],
                    complete[i],
                )
        }),
    decreases results.len(),
{
    reveal(Seq::filter);
    let good = |r: TavilyResult| r.title is Some && r.url is Some;
    if results.len() > 0 {
        let front = results.drop_last();
        let last = results.last();
        law_each_complete_result_is_reported(front);
        let all = results.filter(good);
        let earlier = front.filter(good);
        if good(last) {
            law_result_object_has_each_part(last.title->0, last.url->0, last);
            assert(all =~= earlier.push(last));
            let documents_now = result_documents(results);
            assert forall|i: int| 0 <= i < all.len() implies tells_of(
                #[trigger] documents_now[i],
                all[i],
            ) by {
                if i < earlier.len() {
                    assert(documents_now[i] == result_documents(front)[i]);
                    assert(all[i] == earlier[i]);
                }
            }
        } else {
            assert(all =~= earlier);
        }
    }
}

/// The report has the query, the answer or null, the images in their order, one object
/// for each result with a title and a URL, in the order of the response, and the number
/// of those results; and nothing else.
pub proof fn law_report_lists_each_complete_result(
    query: Seq<char>,
    response: TavilyResponse,
    key: Seq<char>,
)
    ensures
        report_document(query, response) is Object,
        ({
            let m = report_document(query, response)->Object_0;
            let results = match response.results {
                Some(all) => all@,
                None => Seq::empty(),
            };
            let complete = results.filter(
                |r: TavilyResult| r.title is Some && r.url is Some,
            );
            let images = match response.images {
                Some(all) => all@,
                None => Seq::empty(),
            };
            &&& shows(m, "query"@, Some(query))
            &&& response.answer is Some ==> shows(m, "answer"@, Some(response.answer->0@))
            &&& response.answer is None ==> m.contains_pair("answer"@, Document::Null)
            &&& m.contains_key("images"@)
            &&& m["images"@] is List
            &&& m["images"@]->List_0.len() == images.len()
            &&& forall|i: int|
                0 <= i < images.len() ==> #[trigger] m["images"@]->List_0[i] == Document::Text(
                    images[i]@,
                )
            &&& counts(m, "result_count"@, complete.len())
            &&& m.contains_key("results"@)
            &&& m["results"@] is List
            &&& m["results"@]->List_0.len() == complete.len()
            &&& forall|i: int|
                0 <= i < complete.len() ==> tells_of(
                    #[trigger] m["results"@]->List_0[i],
                    complete[i],
                )
            &&& m.contains_key(key) ==> key == "query"@ || key == "answer"@ || key == "images"@
                || key == "result_count"@ || key == "results"@
        }),
{
    reveal_strlit("query");
    reveal_strlit("answer");
    reveal_strlit("images");
    reveal_strlit("result_count");
    reveal_strlit("results");
    assert("query"@.len() == 5);
    assert("answer"@.len() == 6 && "answer"@[0] == 'a');
    assert("images"@.len() == 6 && "images"@[0] == 'i');
    assert("result_count"@.len() == 12);
    assert("results"@.len() == 7);
    law_each_complete_result_is_reported(results_of(response));
}

/// What a reply comes to: the text of a response that came with a status from 200 to
/// 299, an error for a body that is not UTF-8, another attempt after the first two
/// failures that may pass, and an error for all other replies.
pub proof fn law_replies_come_to_a_text(
    attempt: u32,
    status: u16,
    body: Vec<u8>,
    error: String,
)
    ensures
        outcome(attempt, Err(error)) == OutcomeView::Failed("HTTP request failed: "@ + error@),
        200 <= status <= 299 && valid_utf8(body@) ==> outcome(
            attempt,
            Ok((HttpReply { status, body })),
        ) == OutcomeView::Read(decode_utf8(body@)),
        200 <= status <= 299 && !valid_utf8(body@) ==> outcome(
            attempt,
            Ok((HttpReply { status, body })),
        ) == OutcomeView::Failed("Invalid UTF-8 response: "@ + utf8_error_text(body@)),
        (status == 429 || status >= 500) && attempt <= 2 ==> outcome(
            attempt,
            Ok((HttpReply { status, body })),
        ) == OutcomeView::Retry(
            "Tavily"@ + " API error "@ + decimal(status as nat) + " (attempt "@ + decimal(
                attempt as nat,
            ) + "/3). Retrying..."@,
        ),
        !(200 <= status <= 299) && !((status == 429 || status >= 500) && attempt <= 2) ==> outcome(
            attempt,
            Ok((HttpReply { status, body })),
        ) == OutcomeView::Failed(
            "Tavily"@ + " API error (HTTP "@ + decimal(status as nat) + "): "@ + lossy_text(body@),
        ),
{
    law_replies_decide("Tavily"@, attempt, status, body, error);
}

/// The error for a search without a key names the secret that is asked for.
pub proof fn law_missing_key_is_named()
    ensures
        MISSING_KEY@ == "Tavily API key not found in secret store. Set it with: ironclaw secret set "@
            + API_KEY_SECRET@ + " <key>. Get a key at: https://app.tavily.com/"@,
{
    reveal_strlit(
        "Tavily API key not found in secret store. Set it with: ironclaw secret set tavily_api_key <key>. Get a key at: https://app.tavily.com/",
    );
    reveal_strlit("Tavily API key not found in secret store. Set it with: ironclaw secret set ");
    reveal_strlit("tavily_api_key");
    reveal_strlit(" <key>. Get a key at: https://app.tavily.com/");
    assert(MISSING_KEY@
        =~= "Tavily API key not found in secret store. Set it with: ironclaw secret set "@
        + API_KEY_SECRET@ + " <key>. Get a key at: https://app.tavily.com/"@);
}

/// An outcome shows what it holds.
pub proof fn law_outcomes_show_what_they_hold(outcome: Outcome)
    ensures
        outcome matches Outcome::Retry(text) ==> outcome@ == OutcomeView::Retry(text@),
        outcome matches Outcome::Read(text) ==> outcome@ == OutcomeView::Read(text@),
        outcome matches Outcome::Failed(text) ==> outcome@ == OutcomeView::Failed(text@),
{
}

/// The error for a filter quotes the name of its field, and names no other.
pub proof fn law_filter_error_quotes_the_field(first: Seq<char>, second: Seq<char>)
    ensures
        filter_error(first).take("Invalid '"@.len() as int) == "Invalid '"@,
        filter_error(first).subrange(
            "Invalid '"@.len() as int,
            "Invalid '"@.len() as int + first.len(),
        ) == first,
        filter_error(first).skip("Invalid '"@.len() as int + first.len())
            == "': domain entries must not be empty"@,
        filter_error(first) == filter_error(second) ==> first == second,
{
    let n = "Invalid '"@.len() as int;
    let a = filter_error(first);
    let b = filter_error(second);
    assert(a.take(n) =~= "Invalid '"@);
    assert(a.subrange(n, n + first.len()) =~= first);
    assert(a.skip(n + first.len()) =~= "': domain entries must not be empty"@);
    if a == b {
        assert(first.len() == second.len());
        assert(b.subrange(n, n + second.len()) =~= second);
    }
}

} // verus!
