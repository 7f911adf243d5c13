use gio_relay::envelope::build_envelope;
use gio_relay::envelope::Envelope;
use gio_relay::envelope::GIO_DOMAIN;
use gio_relay::hexcode::hex_decode;
use gio_relay::parse::parse_envelope;
use gio_relay::service::completion_read_error_response;
use gio_relay::service::gio_read_error_response;
use gio_relay::service::handle_gio;
use gio_relay::service::not_found_response;
use gio_relay::service::plan_completion;
use gio_relay::service::route;
use gio_relay::service::upstream_reply;
use gio_relay::service::CompletionPlan;
use gio_relay::service::Dispatch;
use gio_relay::service::Route;
use gio_relay::service::UpstreamOutcome;

#[test]
fn routes_defined_pairs() {
    assert_eq!(route("POST", "/completion"), Route::Completion);
    assert_eq!(route("POST", "/v1/chat/completions"), Route::Completion);
    assert_eq!(route("POST", "/gio"), Route::Gio);
}

#[test]
fn routes_undefined_pairs_to_not_found() {
    assert_eq!(route("GET", "/gio"), Route::NotFound);
    assert_eq!(route("GET", "/completion"), Route::NotFound);
    assert_eq!(route("POST", "/"), Route::NotFound);
    assert_eq!(route("POST", "/nope"), Route::NotFound);
    assert_eq!(route("DELETE", "/v1/chat/completions"), Route::NotFound);
    assert_eq!(route("", ""), Route::NotFound);
}

#[test]
fn not_found_is_404_with_fixed_body() {
    let r = not_found_response();
    assert_eq!(r.status, 404);
    assert_eq!(r.body, b"Not Found".to_vec());
}

#[test]
fn gio_accepts_a_well_formed_envelope() {
    let r = handle_gio(b"{\"domain\":39,\"id\":\"7b22613a317d\"}");
    assert_eq!(r.status, 200);
    assert_eq!(r.body, b"{\"status\":\"success\"}".to_vec());
}

#[test]
fn gio_rejects_invalid_json() {
    let r = handle_gio(b"not json");
    assert_eq!(r.status, 400);
    assert_eq!(r.body, b"{\"error\":\"Invalid JSON\"}".to_vec());
}

#[test]
fn gio_rejects_non_utf8_bodies() {
    let r = handle_gio(&[0xff, 0xfe, 0x00]);
    assert_eq!(r.status, 400);
    assert_eq!(r.body, b"{\"error\":\"Invalid JSON\"}".to_vec());
}

#[test]
fn gio_rejects_empty_bodies() {
    let r = handle_gio(b"");
    assert_eq!(r.status, 400);
}

#[test]
fn parser_reads_both_member_orders() {
    let e = parse_envelope("{\"domain\":39,\"id\":\"7b\"}").unwrap();
    assert_eq!(e.domain, 39);
    assert_eq!(e.id, "7b");
    let e = parse_envelope("{\"id\":\"7b\",\"domain\":39}").unwrap();
    assert_eq!(e.domain, 39);
    assert_eq!(e.id, "7b");
}

#[test]
fn parser_allows_whitespace_and_empty_id() {
    let e = parse_envelope(" {\n\t\"domain\" : 0 ,\r\n \"id\" : \"\" } ").unwrap();
    assert_eq!(e.domain, 0);
    assert_eq!(e.id, "");
}

#[test]
fn parser_reads_the_largest_domain_tag() {
    let e = parse_envelope("{\"domain\":65535,\"id\":\"ff\"}").unwrap();
    assert_eq!(e.domain, 65535);
}

#[test]
fn parser_rejects_malformed_documents() {
    assert!(parse_envelope("").is_none());
    assert!(parse_envelope("{}").is_none());
    assert!(parse_envelope("{\"domain\":39}").is_none());
    assert!(parse_envelope("{\"id\":\"7b\"}").is_none());
    assert!(parse_envelope("{\"domain\":\"39\",\"id\":\"7b\"}").is_none());
    assert!(parse_envelope("{\"domain\":39,\"id\":7}").is_none());
    assert!(parse_envelope("{\"domain\":39,\"id\":\"7b\"").is_none());
    assert!(parse_envelope("{\"domain\":39,\"id\":\"7b\"}x").is_none());
    assert!(parse_envelope("{\"domain\":-1,\"id\":\"7b\"}").is_none());
    assert!(parse_envelope("{\"domain\":65536,\"id\":\"7b\"}").is_none());
    assert!(parse_envelope("{\"domain\":039,\"id\":\"7b\"}").is_none());
    assert!(parse_envelope("{\"domain\":39.0,\"id\":\"7b\"}").is_none());
    assert!(parse_envelope("[39]").is_none());
}

#[test]
fn parser_rejects_duplicate_members() {
    assert!(parse_envelope("{\"domain\":39,\"domain\":39,\"id\":\"7b\"}").is_none());
    assert!(parse_envelope("{\"id\":\"7b\",\"domain\":39,\"id\":\"7b\"}").is_none());
}

#[test]
fn parser_skips_unrecognized_members() {
    let e = parse_envelope("{\"domain\":39,\"extra\":1,\"id\":\"7b\"}").unwrap();
    assert_eq!(e.domain, 39);
    assert_eq!(e.id, "7b");
    let e = parse_envelope(
        "{\"meta\":{\"a\":[1,-2.5e3,true,null,\"s\"],\"b\":{}},\"domain\":39,\"id\":\"\"}",
    )
    .unwrap();
    assert_eq!(e.domain, 39);
    assert_eq!(e.id, "");
}

#[test]
fn parser_rejects_malformed_skipped_members() {
    assert!(parse_envelope("{\"extra\":[1,,2],\"domain\":39,\"id\":\"7b\"}").is_none());
    assert!(parse_envelope("{\"extra\":01,\"domain\":39,\"id\":\"7b\"}").is_none());
    assert!(parse_envelope("{\"extra\":tru,\"domain\":39,\"id\":\"7b\"}").is_none());
}

#[test]
fn parser_decodes_string_escapes() {
    let e = parse_envelope("{\"domain\":39,\"id\":\"a\\\"b\"}").unwrap();
    assert_eq!(e.id, "a\"b");
    let e = parse_envelope("{\"domain\":39,\"id\":\"\\\\\\/\\b\\f\\n\\r\\t\"}").unwrap();
    assert_eq!(e.id, "\\/\u{8}\u{c}\n\r\t");
    let e = parse_envelope("{\"domain\":39,\"id\":\"\\u0041\\u00e9\"}").unwrap();
    assert_eq!(e.id, "A\u{e9}");
    let e = parse_envelope("{\"domain\":39,\"id\":\"\\ud83d\\ude00\"}").unwrap();
    assert_eq!(e.id, "\u{1f600}");
}

#[test]
fn parser_decodes_escapes_in_keys() {
    let e = parse_envelope("{\"\\u0064omain\":39,\"id\":\"7b\"}").unwrap();
    assert_eq!(e.domain, 39);
}

#[test]
fn parser_rejects_bad_escapes() {
    assert!(parse_envelope("{\"domain\":39,\"id\":\"\\x\"}").is_none());
    assert!(parse_envelope("{\"domain\":39,\"id\":\"\\u12\"}").is_none());
    assert!(parse_envelope("{\"domain\":39,\"id\":\"\\ud800\"}").is_none());
    assert!(parse_envelope("{\"domain\":39,\"id\":\"\\udc00\"}").is_none());
    assert!(parse_envelope("{\"domain\":39,\"id\":\"a\nb\"}").is_none());
}

#[test]
fn gio_accepts_an_envelope_with_extra_members() {
    let r = handle_gio(b"{\"domain\":39,\"extra\":1,\"id\":\"7b\"}");
    assert_eq!(r.status, 200);
    assert_eq!(r.body, b"{\"status\":\"success\"}".to_vec());
}

#[test]
fn envelope_serializes_to_the_wire_form() {
    let e = Envelope { domain: 39, id: String::from("7b") };
    assert_eq!(e.to_json(), "{\"domain\":39,\"id\":\"7b\"}");
    let e = Envelope { domain: 65535, id: String::from("") };
    assert_eq!(e.to_json(), "{\"domain\":65535,\"id\":\"\"}");
}

#[test]
fn built_envelope_carries_the_fixed_domain_and_hex_id() {
    let e = build_envelope(b"{\"a\":1}");
    assert_eq!(e.domain, GIO_DOMAIN);
    assert_eq!(e.domain, 39);
    assert_eq!(e.id, "7b2261223a317d");
}

#[test]
fn built_id_round_trips_valid_utf8() {
    let body = "h\u{e9}llo \u{2603}".as_bytes();
    let e = build_envelope(body);
    let back = hex_decode(&e.id).unwrap();
    assert_eq!(back, body.to_vec());
    assert_eq!(hex::decode(&e.id).unwrap(), body.to_vec());
}

#[test]
fn built_id_substitutes_invalid_utf8() {
    let e = build_envelope(&[0xff, 0x61]);
    assert_eq!(e.id, "efbfbd61");
}

#[test]
fn hex_decode_reads_lowercase_pairs_only() {
    assert_eq!(hex_decode("7b22613a317d").unwrap(), b"{\"a:1}".to_vec());
    assert_eq!(hex_decode("").unwrap(), Vec::<u8>::new());
    assert!(hex_decode("abc").is_none());
    assert!(hex_decode("AB").is_none());
    assert!(hex_decode("zz").is_none());
}

#[test]
fn completion_forwards_to_the_upstream_gio_endpoint() {
    let d = Dispatch::HttpForward { base_url: Some(String::from("http://up")) };
    match plan_completion(b"{\"a\":1}", &d) {
        CompletionPlan::Forward { url, payload } => {
            assert_eq!(url, "http://up/gio");
            let v: serde_json::Value = serde_json::from_str(&payload).unwrap();
            assert_eq!(v["domain"], serde_json::Value::from(39u64));
            let id = v["id"].as_str().unwrap();
            assert_eq!(hex::decode(id).unwrap(), b"{\"a\":1}".to_vec());
        }
        CompletionPlan::Respond(_) => panic!("expected a forward"),
    }
}

#[test]
fn completion_fails_without_upstream_configuration() {
    let d = Dispatch::HttpForward { base_url: None };
    match plan_completion(b"{\"a\":1}", &d) {
        CompletionPlan::Respond(r) => {
            assert_eq!(r.status, 500);
            assert_eq!(r.body, b"Upstream URL not configured".to_vec());
        }
        CompletionPlan::Forward { .. } => panic!("must not forward when unconfigured"),
    }
}

#[test]
fn completion_direct_dispatch_reaches_the_acceptor() {
    match plan_completion(b"{\"a\":1}", &Dispatch::Direct) {
        CompletionPlan::Respond(r) => {
            assert_eq!(r.status, 200);
            assert_eq!(r.body, b"{\"status\":\"success\"}".to_vec());
        }
        CompletionPlan::Forward { .. } => panic!("direct dispatch must not forward"),
    }
}

#[test]
fn upstream_answers_pass_through() {
    let r = upstream_reply(UpstreamOutcome::Delivered { status: 201, body: b"ok".to_vec() });
    assert_eq!(r.status, 201);
    assert_eq!(r.body, b"ok".to_vec());
}

#[test]
fn upstream_transport_failure_is_bad_gateway() {
    let r = upstream_reply(UpstreamOutcome::TransportFailure);
    assert_eq!(r.status, 502);
    assert_eq!(r.body, b"Could not forward request".to_vec());
}

#[test]
fn read_failures_are_client_errors() {
    let r = completion_read_error_response();
    assert_eq!(r.status, 400);
    assert_eq!(r.body, b"Could not read request body".to_vec());
    let r = gio_read_error_response();
    assert_eq!(r.status, 400);
    assert_eq!(r.body, b"{\"error\":\"Could not read request body\"}".to_vec());
}
