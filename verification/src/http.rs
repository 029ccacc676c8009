//! Requests over HTTP: what is sent, and what is made of each reply.
use vstd::prelude::*;
use vstd::utf8::{decode_utf8, valid_utf8};

use crate::number::{decimal, decimal_string};

verus! {

/// How many requests are sent at most.
pub const MAX_RETRIES: u32 = 3;

/// A request that the host is to send.
#[derive(Debug)]
pub struct HttpRequest {
    pub method: String,
    pub url: String,
    /// The headers, as a JSON object.
    pub headers: String,
    pub body: Option<Vec<u8>>,
}

/// A reply to a request.
#[derive(Debug)]
pub struct HttpReply {
    pub status: u16,
    pub body: Vec<u8>,
}

/// What to do with a reply.
#[derive(Debug, PartialEq, Eq)]
pub enum Decision {
    /// Go on with the body of the reply.
    Accept(Vec<u8>),
    /// Log the warning, and send the request again.
    Retry(String),
    /// Give up, with this error.
    Fail(String),
}

/// The values that a decision holds.
pub enum DecisionView {
    Accept(Seq<u8>),
    Retry(Seq<char>),
    Fail(Seq<char>),
}

impl View for Decision {
    type V = DecisionView;

    open spec fn view(&self) -> DecisionView {
        match self {
            Decision::Accept(body) => DecisionView::Accept(body@),
            Decision::Retry(warning) => DecisionView::Retry(warning@),
            Decision::Fail(error) => DecisionView::Fail(error@),
        }
    }
}

// ---------------------------------------------------------------------------
// Bytes as text
// ---------------------------------------------------------------------------

/// How `String::from_utf8` words its error for bytes that are not UTF-8.
pub uninterp spec fn utf8_error_text(bytes: Seq<u8>) -> Seq<char>;

/// What `String::from_utf8_lossy` makes of bytes.
pub uninterp spec fn lossy_text(bytes: Seq<u8>) -> Seq<char>;

/// `String::from_utf8` gives the text of bytes that are UTF-8, and an error for
/// all others. How the error is worded is left unsaid.
#[verifier::external_body]
fn utf8_text(bytes: Vec<u8>) -> (r: Result<String, String>)
    ensures
        r is Ok <==> valid_utf8(bytes@),
        r matches Ok(text) ==> text@ == decode_utf8(bytes@),
        r matches Err(error) ==> error@ == utf8_error_text(bytes@),
{
    String::from_utf8(bytes).map_err(|e| e.to_string())
}

/// `String::from_utf8_lossy` gives the text of bytes that are UTF-8. What stands
/// in the place of other bytes is left unsaid.
#[verifier::external_body]
fn utf8_lossy(bytes: &Vec<u8>) -> (r: String)
    ensures
        r@ == lossy_text(bytes@),
        valid_utf8(bytes@) ==> r@ == decode_utf8(bytes@),
{
    String::from_utf8_lossy(bytes).into_owned()
}

/// The text of the body of a reply.
pub fn decode_body(body: Vec<u8>) -> (r: Result<String, String>)
    ensures
        match r {
            Ok(text) => valid_utf8(body@) && text@ == decode_utf8(body@),
            Err(error) => {
                &&& !valid_utf8(body@)
                &&& error@ == "Invalid UTF-8 response: "@ + utf8_error_text(body@)
            },
        },
{
    match utf8_text(body) {
        Ok(text) => Ok(text),
        Err(error) => Err("Invalid UTF-8 response: ".to_owned().concat(error.as_str())),
    }
}

// ---------------------------------------------------------------------------
// Retrying
// ---------------------------------------------------------------------------

/// The status reports success.
pub open spec fn succeeded(status: u16) -> bool {
    200 <= status < 300
}

/// The status reports a failure that may pass: too many requests, or one on the
/// side of the server.
pub open spec fn may_pass(status: u16) -> bool {
    status == 429 || status >= 500
}

/// The warning about a failure that is tried again.
pub open spec fn warning(service: Seq<char>, status: u16, attempt: u32) -> Seq<char> {
    service + " API error "@ + decimal(status as nat) + " (attempt "@ + decimal(attempt as nat)
        + "/"@ + decimal(MAX_RETRIES as nat) + "). Retrying..."@
}

/// The error for a failure that is not tried again.
pub open spec fn api_error(service: Seq<char>, status: u16, text: Seq<char>) -> Seq<char> {
    service + " API error (HTTP "@ + decimal(status as nat) + "): "@ + text
}

/// What to do with the reply to the request number `attempt`, counted from one.
pub open spec fn decision(
    service: Seq<char>,
    attempt: u32,
    reply: Result<HttpReply, String>,
) -> DecisionView {
    match reply {
        Err(error) => DecisionView::Fail("HTTP request failed: "@ + error@),
        Ok(reply) => if succeeded(reply.status) {
            DecisionView::Accept(reply.body@)
        } else if attempt < MAX_RETRIES && may_pass(reply.status) {
            DecisionView::Retry(warning(service, reply.status, attempt))
        } else {
            DecisionView::Fail(api_error(service, reply.status, lossy_text(reply.body@)))
        },
    }
}

/// A request to a service, and how often it was sent.
#[derive(Debug)]
pub struct Exchange {
    service: String,
    attempts: u32,
}

impl Exchange {
    /// The name of the service.
    pub closed spec fn service(self) -> Seq<char> {
        self.service@
    }

    /// How many replies there were.
    pub closed spec fn attempts(self) -> u32 {
        self.attempts
    }

    /// An exchange with the service, before the first request.
    pub fn new(service: &str) -> (r: Exchange)
        ensures
            r.service() == service@,
            r.attempts() == 0,
    {
        Exchange { service: service.to_owned(), attempts: 0 }
    }

    /// Says what to do with the reply to the next request.
    pub fn on_reply(&mut self, reply: Result<HttpReply, String>) -> (r: Decision)
        requires
            old(self).attempts() < MAX_RETRIES,
        ensures
            final(self).service() == old(self).service(),
            final(self).attempts() == old(self).attempts() + 1,
            r@ == decision(old(self).service(), final(self).attempts(), reply),
            r is Retry ==> final(self).attempts() < MAX_RETRIES,
            r is Fail ==> (reply matches Ok(h) ==> (valid_utf8(h.body@) ==> lossy_text(h.body@)
                == decode_utf8(h.body@))),
            r is Fail ==> (reply matches Ok(h) ==> (valid_utf8(h.body@) ==> r@
                == DecisionView::Fail(
                api_error(old(self).service(), h.status, decode_utf8(h.body@)),
            ))),
    {
        self.attempts = self.attempts + 1;
        match reply {
            Err(error) => Decision::Fail("HTTP request failed: ".to_owned().concat(error.as_str())),
            Ok(reply) => {
                let status = reply.status;
                if 200 <= status && status < 300 {
                    Decision::Accept(reply.body)
                } else if self.attempts < MAX_RETRIES && (status == 429 || status >= 500) {
                    let mut text = self.service.clone();
                    text.append(" API error ");
                    text.append(decimal_string(status as u64).as_str());
                    text.append(" (attempt ");
                    text.append(decimal_string(self.attempts as u64).as_str());
                    text.append("/");
                    text.append(decimal_string(MAX_RETRIES as u64).as_str());
                    text.append("). Retrying...");
                    Decision::Retry(text)
                } else {
                    let body = utf8_lossy(&reply.body);
                    Decision::Fail(failure(self.service.as_str(), status, body.as_str()))
                }
            },
        }
    }
}

/// The error for a failure that is not tried again, with the text of the reply.
pub fn failure(service: &str, status: u16, text: &str) -> (r: String)
    ensures
        r@ == api_error(service@, status, text@),
        r@ == service@ + " API error (HTTP "@ + decimal(status as nat) + "): "@ + text@,
{
    let mut out = service.to_owned();
    out.append(" API error (HTTP ");
    out.append(decimal_string(status as u64).as_str());
    out.append("): ");
    out.append(text);
    out
}

// ---------------------------------------------------------------------------
// Laws
// ---------------------------------------------------------------------------

/// How many requests a loop sends that sends again as long as the decision is
/// to retry, `sent` having been sent before and `replies` being what comes back.
pub open spec fn requests_sent(
    service: Seq<char>,
    sent: u32,
    replies: Seq<Result<HttpReply, String>>,
) -> nat
    decreases replies.len(),
{
    if replies.len() == 0 {
        0
    } else if decision(service, (sent + 1) as u32, replies[0]) is Retry {
        1 + requests_sent(service, (sent + 1) as u32, replies.skip(1))
    } else {
        1
    }
}

/// Whatever comes back, no more than `MAX_RETRIES` requests are sent.
pub proof fn law_requests_are_bounded(service: Seq<char>, replies: Seq<Result<HttpReply, String>>)
    ensures
        requests_sent(service, 0, replies) <= MAX_RETRIES,
{
    lemma_requests_left(service, 0, replies);
}

proof fn lemma_requests_left(
    service: Seq<char>,
    sent: u32,
    replies: Seq<Result<HttpReply, String>>,
)
    requires
        sent < MAX_RETRIES,
    ensures
        sent + requests_sent(service, sent, replies) <= MAX_RETRIES,
    decreases replies.len(),
{
    if replies.len() > 0 && decision(service, (sent + 1) as u32, replies[0]) is Retry {
        lemma_requests_left(service, (sent + 1) as u32, replies.skip(1));
    }
}

/// A successful reply is accepted with its body, whichever request it answers.
pub proof fn law_success_is_accepted(service: Seq<char>, attempt: u32, reply: HttpReply)
    requires
        succeeded(reply.status),
    ensures
        decision(service, attempt, Ok(reply)) == DecisionView::Accept(reply.body@),
{
}

/// A failure that will not pass by itself ends the exchange with the first
/// reply, and the error carries the status and the text of the reply.
pub proof fn law_lasting_failures_are_not_retried(
    service: Seq<char>,
    attempt: u32,
    reply: HttpReply,
)
    requires
        !succeeded(reply.status),
        !may_pass(reply.status),
    ensures
        decision(service, attempt, Ok(reply)) == DecisionView::Fail(
            api_error(service, reply.status, lossy_text(reply.body@)),
        ),
{
}

/// What each reply leads to. A request that was not answered ends with the reason,
/// and a status from 200 to 299 is accepted with the body. Of the others, 429 and
/// those from 500 on are tried again after the first and the second request, with a
/// warning that names the service, the status and the request; all else is an error
/// with the service, the status and the text of the reply.
pub proof fn law_replies_decide(
    service: Seq<char>,
    attempt: u32,
    status: u16,
    body: Vec<u8>,
    error: String,
)
    ensures
        decision(service, attempt, Err(error)) == DecisionView::Fail(
            "HTTP request failed: "@ + error@,
        ),
        200 <= status <= 299 ==> decision(service, attempt, Ok((HttpReply { status, body })))
            == DecisionView::Accept(body@),
        (status == 429 || status >= 500) && attempt <= 2 ==> decision(
            service,
            attempt,
            Ok((HttpReply { status, body })),
        ) == DecisionView::Retry(
            service + " API error "@ + decimal(status as nat) + " (attempt "@ + decimal(
                attempt as nat,
            ) + "/3). Retrying..."@,
        ),
        (status == 429 || status >= 500) && attempt >= 3 ==> decision(
            service,
            attempt,
            Ok((HttpReply { status, body })),
        ) == DecisionView::Fail(
            service + " API error (HTTP "@ + decimal(status as nat) + "): "@ + lossy_text(body@),
        ),
        status < 200 || 300 <= status <= 428 || 430 <= status <= 499 ==> decision(
            service,
            attempt,
            Ok((HttpReply { status, body })),
        ) == DecisionView::Fail(
            service + " API error (HTTP "@ + decimal(status as nat) + "): "@ + lossy_text(body@),
        ),
{
    reveal_strlit("/");
    reveal_strlit("). Retrying...");
    reveal_strlit("/3). Retrying...");
    assert(decimal(3) =~= seq!['3']);
    let start = service + " API error "@ + decimal(status as nat) + " (attempt "@ + decimal(
        attempt as nat,
    );
    assert(start + "/"@ + decimal(3) + "). Retrying..."@ =~= start + "/3). Retrying..."@);
}

/// A service that answers every request with a failure that may pass is asked three
/// times; one that answers anything else at first is asked once.
pub proof fn law_three_requests_at_most(
    service: Seq<char>,
    first: Result<HttpReply, String>,
    second: Result<HttpReply, String>,
    third: Result<HttpReply, String>,
    rest: Seq<Result<HttpReply, String>>,
)
    ensures
        ({
            let replies = seq![first, second, third] + rest;
            let passing = |reply: Result<HttpReply, String>|
                reply matches Ok(h) && (h.status == 429 || h.status >= 500);
            &&& !passing(first) ==> requests_sent(service, 0, replies) == 1
            &&& passing(first) && !passing(second) ==> requests_sent(service, 0, replies) == 2
            &&& passing(first) && passing(second) ==> requests_sent(service, 0, replies) == 3
        }),
{
    let replies = seq![first, second, third] + rest;
    reveal_with_fuel(requests_sent, 4);
    assert(replies[0] == first);
    assert(replies.skip(1)[0] == second);
    assert(replies.skip(1).skip(1)[0] == third);
}

/// A decision shows what it holds.
pub proof fn law_decisions_show_what_they_hold(decision: Decision)
    ensures
        decision matches Decision::Accept(body) ==> decision@ == DecisionView::Accept(body@),
        decision matches Decision::Retry(text) ==> decision@ == DecisionView::Retry(text@),
        decision matches Decision::Fail(text) ==> decision@ == DecisionView::Fail(text@),
{
}

} // verus!
