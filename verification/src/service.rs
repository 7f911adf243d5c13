//! The relay's request handling: routing, the envelope acceptor, and the
//! forwarder's dispatch decisions.
//!
//! Every function here maps plain request data — method, path, body bytes,
//! configuration — to a response or to a forwarding instruction. The
//! transport that reads bodies and performs the upstream call sits outside
//! the library and only carries these values back and forth.

use vstd::prelude::*;
use vstd::string::StrSliceExecFns;
use vstd::string::StringExecFns;
use vstd::utf8::decode_utf8;
use vstd::utf8::encode_utf8;
use vstd::utf8::valid_utf8;
use vstd::utf8::encode_utf8_decode_utf8;
use vstd::utf8::encode_utf8_valid_utf8;
use crate::envelope::Envelope;
use crate::envelope::GIO_DOMAIN;
use crate::envelope::build_envelope;
use crate::envelope::lemma_hex_encode_shape;
use crate::envelope::lossy_text_of;
use crate::envelope::spec_envelope_id;
use crate::envelope::spec_envelope_json;
use crate::parse::is_plain;
use crate::parse::lemma_envelope_json_parses;
use crate::parse::lemma_hex_digit_plain;
use crate::parse::parse_envelope;
use crate::parse::spec_parse_envelope;
use crate::parse::str_eq;

verus! {

/// Where an inbound request is dispatched.
#[derive(Clone, Copy, Debug, PartialEq, Eq, Structural)]
pub enum Route {
    /// The completion entry point: wrap the body into an envelope.
    Completion,
    /// The direct envelope entry point.
    Gio,
    /// No handler: answer with the fixed not-found response.
    NotFound,
}

/// The routing discipline: `POST` on a completion path reaches the
/// forwarder, `POST /gio` reaches the acceptor, everything else is
/// not found.
pub open spec fn spec_route(method: Seq<char>, path: Seq<char>) -> Route {
    if method == "POST"@ && (path == "/completion"@ || path == "/v1/chat/completions"@) {
        Route::Completion
    } else if method == "POST"@ && path == "/gio"@ {
        Route::Gio
    } else {
        Route::NotFound
    }
}

/// Dispatch a request by method and path.
pub fn route(method: &str, path: &str) -> (r: Route)
    ensures
        r == spec_route(method@, path@),
{
    if str_eq(method, "POST") {
        if str_eq(path, "/completion") || str_eq(path, "/v1/chat/completions") {
            Route::Completion
        } else if str_eq(path, "/gio") {
            Route::Gio
        } else {
            Route::NotFound
        }
    } else {
        Route::NotFound
    }
}

/// An undefined method/path pair routes to the fixed not-found response,
/// and only the pairs outside the three defined entries do.
pub proof fn lemma_undefined_routes(method: Seq<char>, path: Seq<char>)
    ensures
        spec_route(method, path) == Route::NotFound <==> !(method == "POST"@ && (path
            == "/completion"@ || path == "/v1/chat/completions"@ || path == "/gio"@)),
{
}

/// A response as the relay hands it to its transport: a status code and a
/// body.
pub struct HttpResponse {
    pub status: u16,
    pub body: Vec<u8>,
}

/// The fixed response for undefined method/path pairs.
pub fn not_found_response() -> (r: HttpResponse)
    ensures
        r.status == 404,
        r.body@ == encode_utf8("Not Found"@),
{
    HttpResponse { status: 404, body: "Not Found".as_bytes_vec() }
}

/// The acceptor's acknowledgement payload.
pub open spec fn gio_success_body() -> Seq<char> {
    "{\"status\":\"success\"}"@
}

/// The acceptor's complaint about a body that is not an envelope document.
pub open spec fn gio_invalid_body() -> Seq<char> {
    "{\"error\":\"Invalid JSON\"}"@
}

/// The status the acceptor answers with: success exactly when the body is
/// UTF-8 text of the envelope shape.
pub open spec fn spec_gio_status(body: Seq<u8>) -> int {
    if valid_utf8(body) && spec_parse_envelope(decode_utf8(body)) is Some {
        200
    } else {
        400
    }
}

/// The body the acceptor answers with.
pub open spec fn spec_gio_body(body: Seq<u8>) -> Seq<u8> {
    if valid_utf8(body) && spec_parse_envelope(decode_utf8(body)) is Some {
        encode_utf8(gio_success_body())
    } else {
        encode_utf8(gio_invalid_body())
    }
}

/// Relies on `core::str::from_utf8`: it succeeds exactly on valid UTF-8
/// input, and then returns the text those bytes encode.
#[verifier::external_body]
fn bytes_to_str(b: &[u8]) -> (r: Option<&str>)
    ensures
        r is Some <==> valid_utf8(b@),
        r matches Some(s) ==> s@ == decode_utf8(b@),
{
    core::str::from_utf8(b).ok()
}

/// The acceptor: parse the body as an envelope document and acknowledge,
/// or reject it as invalid JSON.
pub fn handle_gio(body: &[u8]) -> (r: HttpResponse)
    ensures
        r.status == spec_gio_status(body@),
        r.body@ == spec_gio_body(body@),
{
    match bytes_to_str(body) {
        None => HttpResponse { status: 400, body: "{\"error\":\"Invalid JSON\"}".as_bytes_vec() },
        Some(s) => match parse_envelope(s) {
            Some(_env) => HttpResponse {
                status: 200,
                body: "{\"status\":\"success\"}".as_bytes_vec(),
            },
            None => HttpResponse { status: 400, body: "{\"error\":\"Invalid JSON\"}".as_bytes_vec() },
        },
    }
}

/// The acceptor's response when the transport could not read the body.
pub fn gio_read_error_response() -> (r: HttpResponse)
    ensures
        r.status == 400,
        r.body@ == encode_utf8("{\"error\":\"Could not read request body\"}"@),
{
    HttpResponse { status: 400, body: "{\"error\":\"Could not read request body\"}".as_bytes_vec() }
}

/// The forwarder's response when the transport could not read the body.
pub fn completion_read_error_response() -> (r: HttpResponse)
    ensures
        r.status == 400,
        r.body@ == encode_utf8("Could not read request body"@),
{
    HttpResponse { status: 400, body: "Could not read request body".as_bytes_vec() }
}

/// How the forwarder hands envelopes on: in-process to the acceptor, or by
/// an HTTP POST to a configured upstream base URL. `None` stands for an
/// absent upstream configuration.
pub enum Dispatch {
    Direct,
    HttpForward { base_url: Option<String> },
}

/// What the forwarder decided for one request: a finished response, or an
/// envelope to POST to the given URL, whose upstream answer is then passed
/// through.
pub enum CompletionPlan {
    Respond(HttpResponse),
    Forward { url: String, payload: String },
}

/// The envelope document the forwarder produces for a request body.
pub open spec fn spec_completion_payload(body: Seq<u8>) -> Seq<char> {
    spec_envelope_json(GIO_DOMAIN as nat, spec_envelope_id(body))
}

/// The forwarder's complaint when no upstream URL is configured.
pub open spec fn unconfigured_body() -> Seq<char> {
    "Upstream URL not configured"@
}

/// Every envelope document the forwarder produces is accepted by the
/// acceptor: dispatching an envelope in-process always acknowledges
/// success, whatever the request body was.
pub proof fn lemma_forwarder_output_accepted(body: Seq<u8>)
    ensures
        spec_gio_status(encode_utf8(spec_completion_payload(body))) == 200,
        spec_gio_body(encode_utf8(spec_completion_payload(body))) == encode_utf8(
            gio_success_body(),
        ),
{
    let id = spec_envelope_id(body);
    lemma_hex_encode_shape(encode_utf8(lossy_text_of(body)));
    assert forall|i: int| 0 <= i < id.len() implies is_plain(#[trigger] id[i]) by {
        lemma_hex_digit_plain(id[i]);
    }
    lemma_envelope_json_parses(GIO_DOMAIN, id);
    let payload = spec_completion_payload(body);
    encode_utf8_valid_utf8(payload);
    encode_utf8_decode_utf8(payload);
}

/// The forwarder: build the envelope for the body and decide what to do
/// with it.
///
/// Under direct dispatch the acceptor's own answer is returned; with a
/// configured upstream the envelope document is to be POSTed to the base
/// URL plus the `/gio` suffix; with the upstream configuration absent the
/// request fails with a server error and nothing is forwarded.
pub fn plan_completion(body: &[u8], dispatch: &Dispatch) -> (p: CompletionPlan)
    ensures
        dispatch matches Dispatch::HttpForward { base_url: Some(u) } ==> (p
            matches CompletionPlan::Forward { url, payload } && url@ == u@ + "/gio"@ && payload@
            == spec_completion_payload(body@)),
        dispatch matches Dispatch::HttpForward { base_url: None } ==> (p
            matches CompletionPlan::Respond(r) && r.status == 500 && r.body@ == encode_utf8(
            unconfigured_body(),
        )),
        dispatch is Direct ==> (p matches CompletionPlan::Respond(r) && r.status
            == spec_gio_status(encode_utf8(spec_completion_payload(body@))) && r.body@
            == spec_gio_body(encode_utf8(spec_completion_payload(body@)))),
        dispatch is Direct ==> (p matches CompletionPlan::Respond(r) && r.status == 200 && r.body@
            == encode_utf8(gio_success_body())),
{
    let env = build_envelope(body);
    let payload = env.to_json();
    match dispatch {
        Dispatch::Direct => {
            let r = handle_gio(payload.as_str().as_bytes());
            proof {
                lemma_forwarder_output_accepted(body@);
            }
            CompletionPlan::Respond(r)
        },
        Dispatch::HttpForward { base_url: None } => CompletionPlan::Respond(
            HttpResponse { status: 500, body: "Upstream URL not configured".as_bytes_vec() },
        ),
        Dispatch::HttpForward { base_url: Some(u) } => {
            let url = u.clone().concat("/gio");
            CompletionPlan::Forward { url, payload }
        },
    }
}

/// What came back from the upstream POST: an HTTP answer, or a transport
/// failure before any answer arrived.
pub enum UpstreamOutcome {
    Delivered { status: u16, body: Vec<u8> },
    TransportFailure,
}

/// The forwarder's acknowledgement contract: an upstream answer is passed
/// through to the original caller unchanged, and a transport failure
/// becomes a bad-gateway response.
pub fn upstream_reply(outcome: UpstreamOutcome) -> (r: HttpResponse)
    ensures
        outcome matches UpstreamOutcome::Delivered { status, body } ==> r.status == status
            && r.body@ == body@,
        outcome is TransportFailure ==> r.status == 502 && r.body@ == encode_utf8(
            "Could not forward request"@,
        ),
{
    match outcome {
        UpstreamOutcome::Delivered { status, body } => HttpResponse { status, body },
        UpstreamOutcome::TransportFailure => HttpResponse {
            status: 502,
            body: "Could not forward request".as_bytes_vec(),
        },
    }
}

} // verus!
