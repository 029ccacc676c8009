//! Search for papers on arXiv.
//!
//! A search is a `Run`: it begins with the parameters, says what request to send,
//! and is told of each reply until it comes to a report or an error.
use vstd::prelude::*;
use vstd::utf8::{decode_utf8, encode_utf8, valid_utf8};

use crate::feed::{
    entries, law_each_entry_gives_one_paper, paper_document, paper_documents, paper_of,
    parse_entries, parse_total_results, total_results,
};
use crate::http::{
    api_error, decision, decode_body, law_replies_decide, lossy_text, succeeded, utf8_error_text,
    Decision, DecisionView, Exchange, HttpReply, HttpRequest, MAX_RETRIES,
};
use crate::json::{
    contents, counts, documents, json_text, list_value, natural_value, new_members, no_members,
    object_value, put, put_text, shows, to_string, Document,
};
use crate::number::{
    clamp, clamped, decimal, decimal_string, law_decimal_is_plain, law_decimal_reads_back,
    parsed_u32,
};
use crate::text::{
    before, between, lemma_find_at, lemma_find_none, lemma_found_behind, occurs_at, pieces_after,
    same_text,
};
use crate::url::{
    law_url_encoding_decodes, law_url_encoding_is_safe, percent_decoded, url_encode, url_encoded,
};
use crate::whitespace::{blank, is_blank, white};

verus! {

/// The name of the service.
pub const SERVICE: &'static str = "arXiv";

/// Where searches are sent.
pub const ARXIV_API_ENDPOINT: &'static str = "https://export.arxiv.org/api/query";

/// How many papers are asked for where the parameters do not say.
pub const DEFAULT_MAX_RESULTS: u32 = 5;

/// How many papers are asked for at most.
pub const MAX_RESULTS: u32 = 25;

/// Where the results start when the parameters do not say.
pub const DEFAULT_START: u32 = 0;

/// The longest query, in bytes.
pub const MAX_QUERY_BYTES: usize = 2000;

/// What the tool does, for the model that calls it.
pub const DESCRIPTION: &'static str =
    "Search arXiv papers by keyword, title, author, abstract, or category. Returns paper metadata including title, authors, summary, publication date, primary category, and links.";

/// The JSON schema of the parameters.
pub const SCHEMA: &'static str = r#"{
  "type": "object",
  "properties": {
    "query": {
      "type": "string",
      "description": "arXiv search query (supports plain text or arXiv query syntax like ti:, au:, abs:, cat:)"
    },
    "max_results": {
      "type": "integer",
      "minimum": 1,
      "maximum": 25,
      "default": 5,
      "description": "Number of papers to return"
    },
    "start": {
      "type": "integer",
      "minimum": 0,
      "default": 0,
      "description": "Zero-based offset for pagination"
    },
    "sort_by": {
      "type": "string",
      "enum": ["relevance", "lastUpdatedDate", "submittedDate"],
      "default": "relevance",
      "description": "Sort strategy used by arXiv"
    },
    "sort_order": {
      "type": "string",
      "enum": ["ascending", "descending"],
      "default": "descending",
      "description": "Sort direction"
    }
  },
  "required": ["query"],
  "additionalProperties": false
}"#;

/// The tool that searches arXiv.
pub struct ArxivTool;

impl ArxivTool {
    /// The JSON schema of the parameters.
    pub fn schema() -> (r: String)
        ensures
            r@ == SCHEMA@,
    {
        SCHEMA.to_owned()
    }

    /// What the tool does, for the model that calls it.
    pub fn description() -> (r: String)
        ensures
            r@ == DESCRIPTION@,
    {
        DESCRIPTION.to_owned()
    }
}

/// What a search asks for.
#[derive(Debug)]
pub struct SearchParams {
    pub query: String,
    pub max_results: Option<u32>,
    pub start: Option<u32>,
    pub sort_by: Option<String>,
    pub sort_order: Option<String>,
}

/// A search whose parameters were accepted.
#[derive(Debug)]
pub struct Search {
    pub query: String,
    pub start: u32,
    pub max_results: u32,
    pub url: String,
}

// ---------------------------------------------------------------------------
// What the parameters mean
// ---------------------------------------------------------------------------

/// How many papers to ask for.
pub open spec fn wanted_results(params: SearchParams) -> u32 {
    match params.max_results {
        Some(n) => clamped(n, 1, MAX_RESULTS),
        None => DEFAULT_MAX_RESULTS,
    }
}

/// Where the results start.
pub open spec fn wanted_start(params: SearchParams) -> u32 {
    match params.start {
        Some(n) => n,
        None => DEFAULT_START,
    }
}

/// What the results are sorted by.
pub open spec fn sort_key(params: SearchParams) -> Seq<char> {
    match params.sort_by {
        Some(key) => key@,
        None => "relevance"@,
    }
}

/// The direction in which the results are sorted.
pub open spec fn sort_direction(params: SearchParams) -> Seq<char> {
    match params.sort_order {
        Some(order) => order@,
        None => "descending"@,
    }
}

/// The service sorts by `key`.
pub open spec fn known_key(key: Seq<char>) -> bool {
    key == "relevance"@ || key == "lastUpdatedDate"@ || key == "submittedDate"@
}

/// The service sorts in this direction.
pub open spec fn known_direction(direction: Seq<char>) -> bool {
    direction == "ascending"@ || direction == "descending"@
}

/// Why the parameters are refused, if they are.
pub open spec fn refusal(params: SearchParams) -> Option<Seq<char>> {
    if blank(params.query@) {
        Some("'query' must not be empty"@)
    } else if encode_utf8(params.query@).len() > MAX_QUERY_BYTES {
        Some("'query' exceeds maximum length of 2000 characters"@)
    } else if !known_key(sort_key(params)) {
        Some("Invalid 'sort_by': expected 'relevance', 'lastUpdatedDate', or 'submittedDate'"@)
    } else if !known_direction(sort_direction(params)) {
        Some("Invalid 'sort_order': expected 'ascending' or 'descending'"@)
    } else {
        None
    }
}

/// The URL of the search.
pub open spec fn search_url(params: SearchParams) -> Seq<char> {
    ARXIV_API_ENDPOINT@ + "?search_query="@ + url_encoded(params.query@) + "&start="@ + decimal(
        wanted_start(params) as nat,
    ) + "&max_results="@ + decimal(wanted_results(params) as nat) + "&sortBy="@ + url_encoded(
        sort_key(params),
    ) + "&sortOrder="@ + url_encoded(sort_direction(params))
}

/// The members of the headers of the request.
pub open spec fn header_members() -> Map<Seq<char>, Document> {
    no_members().insert("Accept"@, Document::Text("application/atom+xml"@)).insert(
        "User-Agent"@,
        Document::Text("IronClaw-arXiv-Tool/0.1"@),
    )
}

/// The members of the report on the feed `xml`.
pub open spec fn report_members(
    query: Seq<char>,
    start: u32,
    max_results: u32,
    xml: Seq<char>,
) -> Map<Seq<char>, Document> {
    let total: u32 = match total_results(xml) {
        Some(n) => n,
        None => 0,
    };
    let papers = paper_documents(xml);
    no_members().insert("query"@, Document::Text(query)).insert(
        "start"@,
        Document::Natural(start as nat),
    ).insert("max_results"@, Document::Natural(max_results as nat)).insert(
        "total_results"@,
        Document::Natural(total as nat),
    ).insert("result_count"@, Document::Natural(papers.len())).insert(
        "results"@,
        Document::List(papers),
    )
}

/// The report on the feed `xml`.
pub open spec fn report_document(search: Search, xml: Seq<char>) -> Document {
    Document::Object(report_members(search.query@, search.start, search.max_results, xml))
}

// ---------------------------------------------------------------------------
// Searching
// ---------------------------------------------------------------------------

fn or_default(text: &Option<String>, default: &str) -> (r: String)
    ensures
        r@ == (match *text {
            Some(t) => t@,
            None => default@,
        }),
{
    match text {
        Some(t) => t.clone(),
        None => default.to_owned(),
    }
}

/// Checks the parameters, and builds the search that they ask for.
pub fn prepare(params: &SearchParams) -> (r: Result<Search, String>)
    ensures
        match r {
            Ok(search) => {
                &&& refusal(*params) is None
                &&& search.query@ == params.query@
                &&& search.start == wanted_start(*params)
                &&& search.max_results == wanted_results(*params)
                &&& search.url@ == search_url(*params)
            },
            Err(error) => refusal(*params) == Some(error@),
        },
{
    if is_blank(params.query.as_str()) {
        return Err("'query' must not be empty".to_owned());
    }
    if params.query.as_str().as_bytes().len() > MAX_QUERY_BYTES {
        return Err("'query' exceeds maximum length of 2000 characters".to_owned());
    }
    let max_results: u32 = match params.max_results {
        Some(n) => clamp(n, 1, MAX_RESULTS),
        None => DEFAULT_MAX_RESULTS,
    };
    let start: u32 = match params.start {
        Some(n) => n,
        None => DEFAULT_START,
    };
    let sort_by = or_default(&params.sort_by, "relevance");
    let sort_order = or_default(&params.sort_order, "descending");
    let key = sort_by.as_str();
    if !(same_text(key, "relevance") || same_text(key, "lastUpdatedDate") || same_text(
        key,
        "submittedDate",
    )) {
        return Err(
            "Invalid 'sort_by': expected 'relevance', 'lastUpdatedDate', or 'submittedDate'".to_owned(),
        );
    }
    let direction = sort_order.as_str();
    if !(same_text(direction, "ascending") || same_text(direction, "descending")) {
        return Err("Invalid 'sort_order': expected 'ascending' or 'descending'".to_owned());
    }
    let mut url = ARXIV_API_ENDPOINT.to_owned();
    url.append("?search_query=");
    url.append(url_encode(params.query.as_str()).as_str());
    url.append("&start=");
    url.append(decimal_string(start as u64).as_str());
    url.append("&max_results=");
    url.append(decimal_string(max_results as u64).as_str());
    url.append("&sortBy=");
    url.append(url_encode(key).as_str());
    url.append("&sortOrder=");
    url.append(url_encode(direction).as_str());
    Ok(Search { query: params.query.clone(), start, max_results, url })
}

/// The request for the search.
pub fn request(search: &Search) -> (r: HttpRequest)
    ensures
        r.method@ == "GET"@,
        r.url@ == search.url@,
        r.headers@ == json_text(Document::Object(header_members())),
        r.body is None,
{
    let mut headers = new_members();
    put_text(&mut headers, "Accept", "application/atom+xml");
    put_text(&mut headers, "User-Agent", "IronClaw-arXiv-Tool/0.1");
    let value = object_value(headers);
    HttpRequest {
        method: "GET".to_owned(),
        url: search.url.clone(),
        headers: to_string(&value).unwrap(),
        body: None,
    }
}

/// The report on the feed that came back.
pub fn report(search: &Search, xml: &str) -> (r: serde_json::Value)
    ensures
        contents(r) == report_document(*search, xml@),
{
    let total: u32 = match parse_total_results(xml) {
        Some(n) => n,
        None => 0,
    };
    let entries = parse_entries(xml);
    let count: usize = entries.len();
    assert(documents(entries@).len() == count);
    let mut map = new_members();
    put_text(&mut map, "query", search.query.as_str());
    put(&mut map, "start", natural_value(search.start as u64));
    put(&mut map, "max_results", natural_value(search.max_results as u64));
    put(&mut map, "total_results", natural_value(total as u64));
    put(&mut map, "result_count", natural_value(count as u64));
    put(&mut map, "results", list_value(entries));
    object_value(map)
}

/// The report on the body of the reply, as JSON text.
pub fn finish(search: &Search, body: Vec<u8>) -> (r: Result<String, String>)
    ensures
        match r {
            Ok(text) => {
                &&& valid_utf8(body@)
                &&& text@ == json_text(report_document(*search, decode_utf8(body@)))
            },
            Err(error) => {
                &&& !valid_utf8(body@)
                &&& error@ == "Invalid UTF-8 response: "@ + utf8_error_text(body@)
            },
        },
{
    match decode_body(body) {
        Ok(xml) => {
            let value = report(search, xml.as_str());
            Ok(to_string(&value).unwrap())
        },
        Err(error) => Err(error),
    }
}

// ---------------------------------------------------------------------------
// A search from its parameters to its report
// ---------------------------------------------------------------------------

/// What a reply comes to.
#[derive(Debug, PartialEq, Eq)]
pub enum Outcome {
    /// Log the warning, and send the request again.
    Retry(String),
    /// The report, as JSON text.
    Done(String),
    /// The search failed, with this error.
    Failed(String),
}

/// The values that an outcome holds.
pub enum OutcomeView {
    Retry(Seq<char>),
    Done(Seq<char>),
    Failed(Seq<char>),
}

impl View for Outcome {
    type V = OutcomeView;

    open spec fn view(&self) -> OutcomeView {
        match self {
            Outcome::Retry(warning) => OutcomeView::Retry(warning@),
            Outcome::Done(text) => OutcomeView::Done(text@),
            Outcome::Failed(error) => OutcomeView::Failed(error@),
        }
    }
}

/// What the reply to the request number `attempt` comes to.
pub open spec fn outcome(
    search: Search,
    attempt: u32,
    reply: Result<HttpReply, String>,
) -> OutcomeView {
    match decision(SERVICE@, attempt, reply) {
        DecisionView::Accept(body) => if valid_utf8(body) {
            OutcomeView::Done(json_text(report_document(search, decode_utf8(body))))
        } else {
            OutcomeView::Failed("Invalid UTF-8 response: "@ + utf8_error_text(body))
        },
        DecisionView::Retry(warning) => OutcomeView::Retry(warning),
        DecisionView::Fail(error) => OutcomeView::Failed(error),
    }
}

/// A search under way.
#[derive(Debug)]
pub struct Run {
    search: Search,
    exchange: Exchange,
}

impl Run {
    /// What is searched.
    pub closed spec fn search(self) -> Search {
        self.search
    }

    /// How many replies there were.
    pub closed spec fn attempts(self) -> u32 {
        self.exchange.attempts()
    }

    /// The exchange is one with the service.
    pub closed spec fn wf(self) -> bool {
        self.exchange.service() == SERVICE@
    }

    /// Begins the search that the parameters ask for, or says why it does not.
    pub fn begin(parsed: Result<SearchParams, String>) -> (r: Result<Run, String>)
        ensures
            match parsed {
                Err(e) => r matches Err(error) && error@ == "Invalid parameters: "@ + e@,
                Ok(params) => match r {
                    Ok(run) => {
                        &&& run.wf()
                        &&& run.attempts() == 0
                        &&& refusal(params) is None
                        &&& run.search().query@ == params.query@
                        &&& run.search().start == wanted_start(params)
                        &&& run.search().max_results == wanted_results(params)
                        &&& run.search().url@ == search_url(params)
                    },
                    Err(error) => refusal(params) == Some(error@),
                },
            },
    {
        match parsed {
            Err(e) => Err("Invalid parameters: ".to_owned().concat(e.as_str())),
            Ok(params) => match prepare(&params) {
                Ok(search) => Ok(Run { search, exchange: Exchange::new(SERVICE) }),
                Err(error) => Err(error),
            },
        }
    }

    /// The request to send.
    pub fn request(&self) -> (r: HttpRequest)
        ensures
            r.method@ == "GET"@,
            r.url@ == self.search().url@,
            r.headers@ == json_text(Document::Object(header_members())),
            r.body is None,
    {
        request(&self.search)
    }

    /// Takes the reply to the request.
    pub fn on_reply(&mut self, reply: Result<HttpReply, String>) -> (r: Outcome)
        requires
            old(self).wf(),
            old(self).attempts() < MAX_RETRIES,
        ensures
            final(self).wf(),
            final(self).search() == old(self).search(),
            final(self).attempts() == old(self).attempts() + 1,
            r@ == outcome(old(self).search(), final(self).attempts(), reply),
            r is Retry ==> final(self).attempts() < MAX_RETRIES,
            r is Failed ==> (reply matches Ok(h) ==> (!succeeded(h.status) && valid_utf8(h.body@)
                ==> lossy_text(h.body@) == decode_utf8(h.body@))),
            r is Failed ==> (reply matches Ok(h) ==> (!succeeded(h.status) && valid_utf8(h.body@)
                ==> r@ == OutcomeView::Failed(
                api_error(SERVICE@, h.status, decode_utf8(h.body@)),
            ))),
    {
        match self.exchange.on_reply(reply) {
            Decision::Accept(body) => match finish(&self.search, body) {
                Ok(text) => Outcome::Done(text),
                Err(error) => Outcome::Failed(error),
            },
            Decision::Retry(warning) => Outcome::Retry(warning),
            Decision::Fail(error) => Outcome::Failed(error),
        }
    }
}

// ---------------------------------------------------------------------------
// Laws
// ---------------------------------------------------------------------------

/// A search asks for at least one paper, and for no more than the limit.
pub proof fn law_results_are_bounded(params: SearchParams)
    ensures
        1 <= wanted_results(params) <= MAX_RESULTS,
{
}

/// Parameters that are accepted have a query that is neither blank nor too long,
/// and name a key and a direction that the service sorts by.
pub proof fn law_accepted_parameters_are_sound(params: SearchParams)
    requires
        refusal(params) is None,
    ensures
        !blank(params.query@),
        encode_utf8(params.query@).len() <= MAX_QUERY_BYTES,
        known_key(sort_key(params)),
        known_direction(sort_direction(params)),
{
}

/// The query cannot add to the parameters of the URL: what stands between its
/// name and the next ampersand is the whole query, percent-encoded.
pub proof fn law_query_stays_in_its_parameter(params: SearchParams)
    ensures
        between(search_url(params), "?search_query="@, seq!['&']) == Some(
            url_encoded(params.query@),
        ),
{
    let url = search_url(params);
    let name = "?search_query="@;
    let n = ARXIV_API_ENDPOINT@.len() as int;
    let query = url_encoded(params.query@);
    reveal_strlit("https://export.arxiv.org/api/query");
    reveal_strlit("?search_query=");
    reveal_strlit("&start=");
    assert(url.subrange(n, n + name.len()) =~= name);
    assert forall|j: int| 0 <= j < n implies !occurs_at(url, name, j) by {
        if occurs_at(url, name, j) {
            assert(url.subrange(j, j + name.len())[0] == url[j]);
            assert(url[j] == ARXIV_API_ENDPOINT@[j]);
            assert(ARXIV_API_ENDPOINT@[j] != '?');
        }
    }
    lemma_find_at(url, name, n);
    let rest = url.skip(n + name.len());
    let k = query.len() as int;
    let ampersand = seq!['&'];
    assert(rest[k] == "&start="@[0]);
    assert(rest.subrange(k, k + 1) =~= ampersand);
    assert forall|j: int| 0 <= j < k implies !occurs_at(rest, ampersand, j) by {
        if occurs_at(rest, ampersand, j) {
            assert(rest.subrange(j, j + 1)[0] == rest[j]);
            assert(rest[j] == query[j]);
            law_url_encoding_is_safe(params.query@, j);
        }
    }
    lemma_find_at(rest, ampersand, k);
    assert(rest.take(k) =~= query);
}

/// The parameters mean what they say: a number of papers from 1 to 25 is taken as it
/// is, a smaller or larger one as the nearer of the two, and none as 5; a start is
/// taken as it is, and none as 0; a sorting is taken as it is, and none as by
/// relevance, descending.
pub proof fn law_parameters_are_taken_as_given(params: SearchParams)
    ensures
        params.max_results is None ==> wanted_results(params) == 5,
        params.max_results matches Some(n) ==> {
            &&& 1 <= n <= 25 ==> wanted_results(params) == n
            &&& n < 1 ==> wanted_results(params) == 1
            &&& n > 25 ==> wanted_results(params) == 25
        },
        params.start is None ==> wanted_start(params) == 0,
        params.start matches Some(n) ==> wanted_start(params) == n,
        params.sort_by is None ==> sort_key(params) == "relevance"@,
        params.sort_by matches Some(key) ==> sort_key(params) == key@,
        params.sort_order is None ==> sort_direction(params) == "descending"@,
        params.sort_order matches Some(order) ==> sort_direction(params) == order@,
{
}

/// The parameters are refused for the first thing that is wrong with them: a query
/// of white space alone, a query of more than 2000 bytes, a key that the service does
/// not sort by, a direction that it does not know. All others are accepted.
pub proof fn law_first_fault_is_named(params: SearchParams)
    ensures
        ({
            let query = params.query@;
            let empty = forall|i: int| 0 <= i < query.len() ==> white(#[trigger] query[i]);
            let long = encode_utf8(query).len() > 2000;
            let key = params.sort_by is None || params.sort_by->0@ == "relevance"@
                || params.sort_by->0@ == "lastUpdatedDate"@ || params.sort_by->0@
                == "submittedDate"@;
            let order = params.sort_order is None || params.sort_order->0@ == "ascending"@
                || params.sort_order->0@ == "descending"@;
            &&& empty ==> refusal(params) == Some("'query' must not be empty"@)
            &&& !empty && long ==> refusal(params) == Some(
                "'query' exceeds maximum length of 2000 characters"@,
            )
            &&& !empty && !long && !key ==> refusal(params) == Some(
                "Invalid 'sort_by': expected 'relevance', 'lastUpdatedDate', or 'submittedDate'"@,
            )
            &&& !empty && !long && key && !order ==> refusal(params) == Some(
                "Invalid 'sort_order': expected 'ascending' or 'descending'"@,
            )
            &&& !empty && !long && key && order ==> refusal(params) is None
        }),
{
}

/// The part has no ampersand.
spec fn one_part(part: Seq<char>) -> bool {
    forall|i: int| 0 <= i < part.len() ==> #[trigger] part[i] != '&'
}

/// An ampersand behind a part ends it, and the parts behind it follow.
proof fn lemma_part_ends(part: Seq<char>, rest: Seq<char>)
    requires
        one_part(part),
    ensures
        before(part + seq!['&'] + rest, seq!['&']) == part,
        pieces_after(part + seq!['&'] + rest, seq!['&']) == seq![before(rest, seq!['&'])]
            + pieces_after(rest, seq!['&']),
        before(part, seq!['&']) == part,
        pieces_after(part, seq!['&']) == Seq::<Seq<char>>::empty(),
{
    let ampersand = seq!['&'];
    let s = part + ampersand + rest;
    lemma_find_none(part, ampersand);
    assert forall|i: int| !occurs_at(part, ampersand, i) by {
        if occurs_at(part, ampersand, i) {
            assert(part.subrange(i, i + 1)[0] == part[i]);
        }
    }
    lemma_found_behind(part, ampersand, rest);
    assert(s.take(part.len() as int) =~= part);
    assert(s.skip(part.len() as int + 1) =~= rest);
}

/// A named value has no ampersand where neither has one.
proof fn lemma_encoded_is_one_part(name: Seq<char>, text: Seq<char>)
    requires
        one_part(name),
    ensures
        one_part(name + url_encoded(text)),
{
    let part = name + url_encoded(text);
    assert forall|i: int| 0 <= i < part.len() implies #[trigger] part[i] != '&' by {
        if i >= name.len() {
            law_url_encoding_is_safe(text, i - name.len());
            assert(part[i] == url_encoded(text)[i - name.len()]);
        }
    }
}

proof fn lemma_number_is_one_part(name: Seq<char>, n: nat)
    requires
        one_part(name),
    ensures
        one_part(name + decimal(n)),
{
    law_decimal_is_plain(n);
    let part = name + decimal(n);
    assert forall|i: int| 0 <= i < part.len() implies #[trigger] part[i] != '&' by {
        if i >= name.len() {
            assert(part[i] == decimal(n)[i - name.len()]);
        }
    }
}

/// The five parts of the URL, between its ampersands.
proof fn lemma_url_parts(params: SearchParams)
    ensures
        ({
            let url = search_url(params);
            let parts = pieces_after(url, seq!['&']);
            let number = wanted_results(params);
            let start = wanted_start(params);
            let key = sort_key(params);
            let order = sort_direction(params);
            &&& before(url, seq!['&']) == "https://export.arxiv.org/api/query?search_query="@
                + url_encoded(params.query@)
            &&& parts.len() == 4
            &&& parts[0] == "start="@ + decimal(start as nat)
            &&& parts[1] == "max_results="@ + decimal(number as nat)
            &&& parts[2] == "sortBy="@ + url_encoded(key)
            &&& parts[3] == "sortOrder="@ + url_encoded(order)
        }),
{
    reveal_strlit("https://export.arxiv.org/api/query");
    reveal_strlit("?search_query=");
    reveal_strlit("https://export.arxiv.org/api/query?search_query=");
    reveal_strlit("&start=");
    reveal_strlit("start=");
    reveal_strlit("&max_results=");
    reveal_strlit("max_results=");
    reveal_strlit("&sortBy=");
    reveal_strlit("sortBy=");
    reveal_strlit("&sortOrder=");
    reveal_strlit("sortOrder=");
    let ampersand = seq!['&'];
    let head = "https://export.arxiv.org/api/query?search_query="@;
    assert(ARXIV_API_ENDPOINT@ + "?search_query="@ =~= head);
    assert("&start="@ =~= ampersand + "start="@);
    assert("&max_results="@ =~= ampersand + "max_results="@);
    assert("&sortBy="@ =~= ampersand + "sortBy="@);
    assert("&sortOrder="@ =~= ampersand + "sortOrder="@);
    let query = params.query@;
    let number = wanted_results(params);
    let start = wanted_start(params);
    let key = sort_key(params);
    let order = sort_direction(params);
    let p0 = head + url_encoded(query);
    let p1 = "start="@ + decimal(start as nat);
    let p2 = "max_results="@ + decimal(number as nat);
    let p3 = "sortBy="@ + url_encoded(key);
    let p4 = "sortOrder="@ + url_encoded(order);
    lemma_encoded_is_one_part(head, query);
    lemma_number_is_one_part("start="@, start as nat);
    lemma_number_is_one_part("max_results="@, number as nat);
    lemma_encoded_is_one_part("sortBy="@, key);
    lemma_encoded_is_one_part("sortOrder="@, order);
    let s3 = p3 + ampersand + p4;
    let s2 = p2 + ampersand + s3;
    let s1 = p1 + ampersand + s2;
    let s0 = p0 + ampersand + s1;
    assert(search_url(params) =~= s0);
    lemma_part_ends(p4, Seq::empty());
    lemma_part_ends(p3, p4);
    lemma_part_ends(p2, s3);
    lemma_part_ends(p1, s2);
    lemma_part_ends(p0, s1);
    assert(pieces_after(s0, ampersand) =~= seq![p1, p2, p3, p4]);
}

/// The URL asks the service for what the parameters ask for, and for nothing else.
/// Between its ampersands stand five parts: the query, the start, the number of
/// papers, the key and the direction. Each reads back as what was given, or as its
/// default where nothing was.
pub proof fn law_url_reads_back(params: SearchParams)
    ensures
        ({
            let first = before(search_url(params), seq!['&']);
            let parts = pieces_after(search_url(params), seq!['&']);
            &&& "https://export.arxiv.org/api/query?search_query="@.is_prefix_of(first)
            &&& percent_decoded(
                first.skip("https://export.arxiv.org/api/query?search_query="@.len() as int),
            ) == encode_utf8(params.query@)
            &&& parts.len() == 4
            &&& "start="@.is_prefix_of(parts[0])
            &&& "max_results="@.is_prefix_of(parts[1])
            &&& "sortBy="@.is_prefix_of(parts[2])
            &&& "sortOrder="@.is_prefix_of(parts[3])
            &&& parsed_u32(parts[0].skip("start="@.len() as int)) == Some(
                match params.start {
                    Some(n) => n,
                    None => 0,
                },
            )
            &&& parsed_u32(parts[1].skip("max_results="@.len() as int)) == Some(
                match params.max_results {
                    Some(n) => if n == 0 {
                        1
                    } else if n <= 25 {
                        n
                    } else {
                        25
                    },
                    None => 5,
                },
            )
            &&& percent_decoded(parts[2].skip("sortBy="@.len() as int)) == encode_utf8(
                match params.sort_by {
                    Some(key) => key@,
                    None => "relevance"@,
                },
            )
            &&& percent_decoded(parts[3].skip("sortOrder="@.len() as int)) == encode_utf8(
                match params.sort_order {
                    Some(order) => order@,
                    None => "descending"@,
                },
            )
        }),
{
    lemma_url_parts(params);
    let parts = pieces_after(search_url(params), seq!['&']);
    let head = "https://export.arxiv.org/api/query?search_query="@;
    let query = params.query@;
    let number = wanted_results(params);
    let start = wanted_start(params);
    let key = sort_key(params);
    let order = sort_direction(params);
    assert(before(search_url(params), seq!['&']).skip(head.len() as int) =~= url_encoded(query));
    assert(parts[0].skip("start="@.len() as int) =~= decimal(start as nat));
    assert(parts[1].skip("max_results="@.len() as int) =~= decimal(number as nat));
    assert(parts[2].skip("sortBy="@.len() as int) =~= url_encoded(key));
    assert(parts[3].skip("sortOrder="@.len() as int) =~= url_encoded(order));
    law_decimal_reads_back(start);
    law_decimal_reads_back(number);
    law_url_encoding_decodes(query);
    law_url_encoding_decodes(key);
    law_url_encoding_decodes(order);
}

/// Searches with the same URL ask for the same query, start, number of papers and
/// sorting.
pub proof fn law_url_tells_searches_apart(a: SearchParams, b: SearchParams)
    requires
        search_url(a) == search_url(b),
    ensures
        a.query@ == b.query@,
        a.start is Some && b.start is Some ==> a.start == b.start,
        a.max_results is Some && b.max_results is Some && 1 <= a.max_results->0 <= 25 && 1
            <= b.max_results->0 <= 25 ==> a.max_results == b.max_results,
        a.sort_by is Some && b.sort_by is Some ==> a.sort_by->0@ == b.sort_by->0@,
        a.sort_order is Some && b.sort_order is Some ==> a.sort_order->0@ == b.sort_order->0@,
{
    law_url_reads_back(a);
    law_url_reads_back(b);
    vstd::utf8::encode_utf8_decode_utf8(a.query@);
    vstd::utf8::encode_utf8_decode_utf8(b.query@);
    if a.sort_by is Some && b.sort_by is Some {
        vstd::utf8::encode_utf8_decode_utf8(a.sort_by->0@);
        vstd::utf8::encode_utf8_decode_utf8(b.sort_by->0@);
    }
    if a.sort_order is Some && b.sort_order is Some {
        vstd::utf8::encode_utf8_decode_utf8(a.sort_order->0@);
        vstd::utf8::encode_utf8_decode_utf8(b.sort_order->0@);
    }
}

/// The headers say that an Atom feed is wanted and who asks, and nothing else.
pub proof fn law_headers_ask_for_a_feed(key: Seq<char>)
    ensures
        shows(header_members(), "Accept"@, Some("application/atom+xml"@)),
        shows(header_members(), "User-Agent"@, Some("IronClaw-arXiv-Tool/0.1"@)),
        header_members().contains_key(key) ==> key == "Accept"@ || key == "User-Agent"@,
{
    reveal_strlit("Accept");
    reveal_strlit("User-Agent");
    assert("Accept"@.len() == 6);
    assert("User-Agent"@.len() == 10);
}

/// The report has the query, the start and the number of papers of the search, the
/// number of results that the feed reports, or zero, and one object for each entry of
/// the feed, in its order, with their number; and nothing else.
pub proof fn law_report_lists_every_entry(search: Search, xml: Seq<char>, key: Seq<char>)
    ensures
        report_document(search, xml) is Object,
        ({
            let m = report_document(search, xml)->Object_0;
            &&& shows(m, "query"@, Some(search.query@))
            &&& counts(m, "start"@, search.start as nat)
            &&& counts(m, "max_results"@, search.max_results as nat)
            &&& total_results(xml) is Some ==> counts(
                m,
                "total_results"@,
                total_results(xml)->0 as nat,
            )
            &&& total_results(xml) is None ==> counts(m, "total_results"@, 0)
            &&& counts(m, "result_count"@, entries(xml).len())
            &&& m.contains_key("results"@)
            &&& m["results"@] is List
            &&& m["results"@]->List_0.len() == entries(xml).len()
            &&& forall|i: int|
                0 <= i < entries(xml).len() ==> #[trigger] m["results"@]->List_0[i]
                    == paper_document(paper_of(entries(xml)[i]))
            &&& m.contains_key(key) ==> key == "query"@ || key == "start"@ || key
                == "max_results"@ || key == "total_results"@ || key == "result_count"@ || key
                == "results"@
        }),
{
    reveal_strlit("query");
    reveal_strlit("start");
    reveal_strlit("max_results");
    reveal_strlit("total_results");
    reveal_strlit("result_count");
    reveal_strlit("results");
    assert("query"@.len() == 5 && "query"@[0] == 'q');
    assert("start"@.len() == 5 && "start"@[0] == 's');
    assert("max_results"@.len() == 11);
    assert("total_results"@.len() == 13);
    assert("result_count"@.len() == 12);
    assert("results"@.len() == 7);
    law_each_entry_gives_one_paper(xml);
}

/// What a reply comes to: the report on a feed that came with a status from 200 to
/// 299, an error for a body that is not UTF-8, another attempt after the first two
/// failures that may pass, and an error for all other replies.
pub proof fn law_replies_come_to_a_report(
    search: Search,
    attempt: u32,
    status: u16,
    body: Vec<u8>,
    error: String,
)
    ensures
        outcome(search, attempt, Err(error)) == OutcomeView::Failed(
            "HTTP request failed: "@ + error@,
        ),
        200 <= status <= 299 && valid_utf8(body@) ==> outcome(
            search,
            attempt,
            Ok((HttpReply { status, body })),
        ) == OutcomeView::Done(json_text(report_document(search, decode_utf8(body@)))),
        200 <= status <= 299 && !valid_utf8(body@) ==> outcome(
            search,
            attempt,
            Ok((HttpReply { status, body })),
        ) == OutcomeView::Failed("Invalid UTF-8 response: "@ + utf8_error_text(body@)),
        (status == 429 || status >= 500) && attempt <= 2 ==> outcome(
            search,
            attempt,
            Ok((HttpReply { status, body })),
        ) == OutcomeView::Retry(
            "arXiv"@ + " API error "@ + decimal(status as nat) + " (attempt "@ + decimal(
                attempt as nat,
            ) + "/3). Retrying..."@,
        ),
        !(200 <= status <= 299) && !((status == 429 || status >= 500) && attempt <= 2) ==> outcome(
            search,
            attempt,
            Ok((HttpReply { status, body })),
        ) == OutcomeView::Failed(
            "arXiv"@ + " API error (HTTP "@ + decimal(status as nat) + "): "@ + lossy_text(body@),
        ),
{
    law_replies_decide("arXiv"@, attempt, status, body, error);
}

/// An outcome shows what it holds.
pub proof fn law_outcomes_show_what_they_hold(outcome: Outcome)
    ensures
        outcome matches Outcome::Retry(text) ==> outcome@ == OutcomeView::Retry(text@),
        outcome matches Outcome::Done(text) ==> outcome@ == OutcomeView::Done(text@),
        outcome matches Outcome::Failed(text) ==> outcome@ == OutcomeView::Failed(text@),
{
}

} // verus!
