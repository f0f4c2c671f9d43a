use minicurl::args::{parse_args, Method, UsageError};
use minicurl::json::{sort_json, JsonValue};
use minicurl::render::{render_response, RenderOutcome};
use minicurl::request::{build_plan, split_form, RequestPlan};
use minicurl::urlcheck::{classify_parse, validate_url, UrlError, UrlParts};

fn toks(ts: &[&str]) -> Vec<String> {
    ts.iter().map(|t| t.to_string()).collect()
}

#[test]
fn data_flag_forces_post_with_pairs() {
    let args = toks(&["-d", "foo=bar&baz=qux", "http://example.com"]);
    let intent = parse_args(&args).unwrap();
    assert_eq!(intent.method, Method::Post);
    assert!(!intent.is_json);
    assert_eq!(intent.data, "foo=bar&baz=qux");
    let vurl = validate_url(&intent.url).unwrap();
    let plan = build_plan(&intent, &vurl).unwrap();
    assert_eq!(
        plan,
        RequestPlan::PostForm {
            url: "http://example.com/".to_string(),
            pairs: vec![
                ("foo".to_string(), "bar".to_string()),
                ("baz".to_string(), "qux".to_string()),
            ],
        }
    );
}

#[test]
fn json_flag_forces_post_with_raw_body() {
    let args = toks(&["--json", "{\"a\":1}", "http://example.com"]);
    let intent = parse_args(&args).unwrap();
    assert_eq!(intent.method, Method::Post);
    assert!(intent.is_json);
    let vurl = validate_url(&intent.url).unwrap();
    let plan = build_plan(&intent, &vurl).unwrap();
    assert_eq!(
        plan,
        RequestPlan::PostJson {
            url: "http://example.com/".to_string(),
            body: "{\"a\":1}".to_string(),
        }
    );
}

#[test]
fn later_data_flag_still_forces_post() {
    let args = toks(&["-X", "GET", "-d", "foo=1", "http://example.com"]);
    let intent = parse_args(&args).unwrap();
    assert_eq!(intent.method, Method::Post);
}

#[test]
fn later_method_flag_overrides_post() {
    let args = toks(&["-d", "foo=1", "-X", "GET", "http://example.com"]);
    let intent = parse_args(&args).unwrap();
    assert_eq!(intent.method, Method::Get);
}

#[test]
fn method_is_uppercased() {
    let args = toks(&["-X", "post", "http://example.com"]);
    let intent = parse_args(&args).unwrap();
    assert_eq!(intent.method, Method::Post);
}

#[test]
fn missing_url_is_an_error() {
    assert_eq!(parse_args(&toks(&[])), Err(UsageError::MissingUrl));
    assert_eq!(parse_args(&toks(&["-X", "GET"])), Err(UsageError::MissingUrl));
}

#[test]
fn second_positional_token_is_unknown() {
    assert_eq!(
        parse_args(&toks(&["http://a", "stray"])),
        Err(UsageError::UnknownArgument("stray".to_string()))
    );
}

#[test]
fn dangling_flags_are_errors() {
    assert_eq!(parse_args(&toks(&["-X"])), Err(UsageError::MissingMethodArg));
    assert_eq!(parse_args(&toks(&["-d"])), Err(UsageError::MissingDataArg));
    assert_eq!(parse_args(&toks(&["--json"])), Err(UsageError::MissingJsonArg));
}

#[test]
fn unsupported_method_is_rejected() {
    assert_eq!(
        parse_args(&toks(&["-X", "put", "http://a"])),
        Err(UsageError::UnsupportedMethod("PUT".to_string()))
    );
}

#[test]
fn valid_urls_pass() {
    let v = validate_url("https://example.com").unwrap();
    assert_eq!(v.as_text(), "https://example.com/");
    let v = validate_url("http://example.com:8080/p?q=1").unwrap();
    assert_eq!(v.as_text(), "http://example.com:8080/p?q=1");
}

#[test]
fn port_out_of_range_fails_before_any_request() {
    assert_eq!(validate_url("http://127.0.0.1:65536/"), Err(UrlError::InvalidPort));
}

#[test]
fn port_zero_is_invalid() {
    assert_eq!(validate_url("http://127.0.0.1:0/"), Err(UrlError::InvalidPort));
}

#[test]
fn bad_ipv4_is_classified() {
    assert_eq!(validate_url("https://255.255.255.256"), Err(UrlError::InvalidIpv4));
}

#[test]
fn bad_ipv6_is_classified() {
    assert_eq!(validate_url("https://[1::2::3]"), Err(UrlError::InvalidIpv6));
}

#[test]
fn foreign_scheme_is_invalid_protocol() {
    assert_eq!(validate_url("data://example.com"), Err(UrlError::InvalidProtocol));
    assert_eq!(validate_url("ftp://example.com"), Err(UrlError::InvalidProtocol));
}

#[test]
fn missing_scheme_is_relative() {
    assert_eq!(validate_url("example.com"), Err(UrlError::RelativeWithoutBase));
    assert_eq!(validate_url("http//example.com"), Err(UrlError::RelativeWithoutBase));
}

#[test]
fn empty_host_is_other_failure() {
    assert_eq!(validate_url("http://"), Err(UrlError::Other));
}

#[test]
fn parsed_url_without_host_is_missing_host() {
    let parts = UrlParts {
        text: "http:".to_string(),
        scheme: "http".to_string(),
        has_host: false,
        port: None,
    };
    assert_eq!(classify_parse(Ok(parts)), Err(UrlError::MissingHost));
}

#[test]
fn form_split_edge_cases() {
    assert_eq!(
        split_form("a=b&"),
        vec![("a".to_string(), "b".to_string()), ("".to_string(), "".to_string())]
    );
    assert_eq!(split_form("x"), vec![("x".to_string(), "".to_string())]);
    assert_eq!(split_form(""), vec![("".to_string(), "".to_string())]);
    assert_eq!(split_form("k=v=w"), vec![("k".to_string(), "v=w".to_string())]);
}

#[test]
fn get_plan_has_no_body() {
    let args = toks(&["http://example.com"]);
    let intent = parse_args(&args).unwrap();
    assert_eq!(intent.method, Method::Get);
    let vurl = validate_url(&intent.url).unwrap();
    let plan = build_plan(&intent, &vurl).unwrap();
    assert_eq!(plan, RequestPlan::Get { url: "http://example.com/".to_string() });
}

#[test]
fn bare_post_sends_one_empty_form_pair() {
    let args = toks(&["-X", "POST", "http://example.com"]);
    let intent = parse_args(&args).unwrap();
    let vurl = validate_url(&intent.url).unwrap();
    let plan = build_plan(&intent, &vurl).unwrap();
    assert_eq!(
        plan,
        RequestPlan::PostForm {
            url: "http://example.com/".to_string(),
            pairs: vec![("".to_string(), "".to_string())],
        }
    );
}

#[test]
fn bad_json_payload_fails_before_dispatch() {
    let args = toks(&["--json", "{oops", "http://example.com"]);
    let intent = parse_args(&args).unwrap();
    let vurl = validate_url(&intent.url).unwrap();
    assert!(build_plan(&intent, &vurl).is_err());
}

fn obj(entries: Vec<(&str, JsonValue)>) -> JsonValue {
    JsonValue::Obj(entries.into_iter().map(|(k, v)| (k.to_string(), v)).collect())
}

fn num(n: &str) -> JsonValue {
    JsonValue::Num(n.to_string())
}

#[test]
fn sort_json_orders_keys_recursively() {
    let v = obj(vec![
        ("b", num("2")),
        ("a", obj(vec![("d", num("4")), ("c", num("3"))])),
    ]);
    let expected = obj(vec![
        ("a", obj(vec![("c", num("3")), ("d", num("4"))])),
        ("b", num("2")),
    ]);
    assert_eq!(sort_json(&v), expected);
}

#[test]
fn sort_json_keeps_array_order() {
    let v = JsonValue::Arr(vec![
        num("3"),
        obj(vec![("y", num("2")), ("x", num("1"))]),
        JsonValue::Bool(true),
    ]);
    let expected = JsonValue::Arr(vec![
        num("3"),
        obj(vec![("x", num("1")), ("y", num("2"))]),
        JsonValue::Bool(true),
    ]);
    assert_eq!(sort_json(&v), expected);
}

#[test]
fn sort_json_is_idempotent_on_a_value() {
    let v = obj(vec![
        ("z", JsonValue::Arr(vec![obj(vec![("b", num("1")), ("a", num("0"))])])),
        ("a", JsonValue::Null),
    ]);
    let once = sort_json(&v);
    let twice = sort_json(&once);
    assert_eq!(twice, once);
}

#[test]
fn sort_json_is_order_independent() {
    let first = obj(vec![("a", num("1")), ("b", num("2")), ("c", num("3"))]);
    let second = obj(vec![("c", num("3")), ("a", num("1")), ("b", num("2"))]);
    assert_eq!(sort_json(&first), sort_json(&second));
}

#[test]
fn successful_json_body_renders_sorted_and_pretty() {
    let r = render_response(200, "{\"b\":2,\"a\":1}");
    assert_eq!(
        r,
        RenderOutcome::JsonBody("{\n  \"a\": 1,\n  \"b\": 2\n}".to_string())
    );
}

#[test]
fn permuted_json_texts_render_identically() {
    let r1 = render_response(200, "{\"b\":{\"d\":4,\"c\":3},\"a\":1}");
    let r2 = render_response(200, "{\"a\":1,\"b\":{\"c\":3,\"d\":4}}");
    assert_eq!(r1, r2);
    assert!(matches!(r1, RenderOutcome::JsonBody(_)));
}

#[test]
fn failing_status_reports_the_code() {
    assert_eq!(render_response(404, "{\"a\":1}"), RenderOutcome::StatusFailure(404));
    assert_eq!(render_response(199, ""), RenderOutcome::StatusFailure(199));
    assert_eq!(render_response(300, ""), RenderOutcome::StatusFailure(300));
}

#[test]
fn non_json_body_is_shown_verbatim() {
    assert_eq!(
        render_response(204, "plain text"),
        RenderOutcome::RawBody("plain text".to_string())
    );
}
