use rtools::fields::FieldMap;
use rtools::httpclient::{
    check_outcome, check_request, get_request, post_request, reads_body, request_failed, Stage,
    TimeLimit,
};
use rtools::{HttpMethod, HttpRequest, HttpResponse, RtoolsError};

#[test]
fn method_parse_whatever_the_case() {
    assert_eq!(HttpMethod::parse("GET"), Some(HttpMethod::GET));
    assert_eq!(HttpMethod::parse("get"), Some(HttpMethod::GET));
    assert_eq!(HttpMethod::parse("Post"), Some(HttpMethod::POST));
    assert_eq!(HttpMethod::parse("put"), Some(HttpMethod::PUT));
    assert_eq!(HttpMethod::parse("delete"), Some(HttpMethod::DELETE));
    assert_eq!(HttpMethod::parse("hEaD"), Some(HttpMethod::HEAD));
    assert_eq!(HttpMethod::parse("options"), Some(HttpMethod::OPTIONS));
    assert_eq!(HttpMethod::parse("PATCH"), None);
    assert_eq!(HttpMethod::parse(""), None);
    assert_eq!(HttpMethod::parse(" GET"), None);
    assert_eq!(HttpMethod::from_uppercased("get"), None);
    assert_eq!(HttpMethod::from_uppercased("GET"), Some(HttpMethod::GET));
}

#[test]
fn request_defaults() {
    let r = HttpRequest::new(HttpMethod::PUT, "http://x/y".to_string());
    assert_eq!(r.method, HttpMethod::PUT);
    assert_eq!(r.url, "http://x/y");
    assert!(r.headers.is_empty());
    assert_eq!(r.body, None);
    assert_eq!(r.timeout, Some(TimeLimit { secs: 30, nanos: 0 }));
    assert!(r.follow_redirects);

    let d = HttpRequest::default();
    assert_eq!(d.method, HttpMethod::GET);
    assert_eq!(d.url, "");
    assert_eq!(d.timeout, Some(TimeLimit::from_secs(30)));
    assert!(d.follow_redirects);
}

#[test]
fn request_builders_set_one_thing_each() {
    let r = HttpRequest::new(HttpMethod::POST, "u".to_string())
        .with_header("Accept".to_string(), "a".to_string())
        .with_header("X".to_string(), "1".to_string())
        .with_header("Accept".to_string(), "b".to_string())
        .with_body("payload".to_string())
        .with_timeout(TimeLimit { secs: 2, nanos: 500 })
        .with_follow_redirects(false);
    assert_eq!(r.method, HttpMethod::POST);
    assert_eq!(r.url, "u");
    assert_eq!(r.headers.len(), 2);
    assert_eq!(r.headers.get("Accept"), Some(&"b".to_string()));
    assert_eq!(r.headers.get("X"), Some(&"1".to_string()));
    assert_eq!(r.headers.get("accept"), None);
    assert_eq!(r.headers.name_at(0), "Accept");
    assert_eq!(r.headers.value_at(1), "1");
    assert_eq!(r.body, Some("payload".to_string()));
    assert_eq!(r.timeout, Some(TimeLimit { secs: 2, nanos: 500 }));
    assert!(!r.follow_redirects);
}

#[test]
fn ready_made_requests() {
    let g = get_request("http://a");
    assert_eq!(g.method, HttpMethod::GET);
    assert_eq!(g.url, "http://a");
    assert_eq!(g.body, None);
    let p = post_request("http://a", "b=1");
    assert_eq!(p.method, HttpMethod::POST);
    assert_eq!(p.body, Some("b=1".to_string()));
    assert_eq!(p.timeout, Some(TimeLimit::from_secs(30)));
    let c = check_request("http://a");
    assert_eq!(c.method, HttpMethod::HEAD);
    assert_eq!(c.timeout, Some(TimeLimit::from_secs(10)));
    assert_eq!(c.body, None);
}

fn with_status(code: u16) -> HttpResponse {
    let mut r = HttpResponse::new();
    r.status_code = code;
    r
}

#[test]
fn status_classes() {
    let r = HttpResponse::new();
    assert_eq!(r.status_code, 0);
    assert_eq!(r.status_text, "");
    assert!(r.headers.is_empty());
    assert_eq!(r.body, "");
    assert_eq!(r.content_length, None);
    assert_eq!(r.content_type, None);
    assert_eq!(r.response_time_ms, 0);
    assert!(!r.is_success() && !r.is_redirect() && !r.is_client_error() && !r.is_server_error());

    assert!(!with_status(199).is_success());
    assert!(with_status(200).is_success());
    assert!(with_status(299).is_success());
    assert!(!with_status(300).is_success());
    assert!(with_status(300).is_redirect());
    assert!(with_status(399).is_redirect());
    assert!(!with_status(400).is_redirect());
    assert!(with_status(400).is_client_error());
    assert!(with_status(499).is_client_error());
    assert!(!with_status(500).is_client_error());
    assert!(with_status(500).is_server_error());
    assert!(with_status(599).is_server_error());
    assert!(!with_status(600).is_server_error());
}

#[test]
fn response_is_put_together_from_what_was_sent() {
    let raw = vec![
        ("content-type".to_string(), Some("text/html".to_string())),
        ("set-cookie".to_string(), Some("a=1".to_string())),
        ("x-binary".to_string(), None),
        ("content-length".to_string(), Some("42".to_string())),
        ("set-cookie".to_string(), Some("b=2".to_string())),
        ("content-type".to_string(), Some("text/plain".to_string())),
    ];
    let r = HttpResponse::assemble(HttpMethod::GET, 200, "OK", &raw, "<html>".to_string(), 17);
    assert_eq!(r.status_code, 200);
    assert_eq!(r.status_text, "OK");
    assert_eq!(r.response_time_ms, 17);
    assert_eq!(r.body, "<html>");
    assert_eq!(r.content_type, Some("text/html".to_string()));
    assert_eq!(r.content_length, Some(42));
    assert_eq!(r.headers.len(), 3);
    assert_eq!(r.headers.get("content-type"), Some(&"text/plain".to_string()));
    assert_eq!(r.headers.get("set-cookie"), Some(&"b=2".to_string()));
    assert_eq!(r.headers.get("content-length"), Some(&"42".to_string()));
    assert_eq!(r.headers.get("x-binary"), None);
}

#[test]
fn head_response_has_no_body() {
    let r = HttpResponse::assemble(HttpMethod::HEAD, 204, "", &Vec::new(), "ignored".to_string(), 1);
    assert_eq!(r.body, "");
    assert_eq!(r.content_type, None);
    assert_eq!(r.content_length, None);
    assert!(!reads_body(HttpMethod::HEAD));
    assert!(reads_body(HttpMethod::GET));
    assert!(reads_body(HttpMethod::OPTIONS));
}

#[test]
fn content_length_must_be_a_number() {
    let one = |value: Option<&str>| {
        let raw = vec![("content-length".to_string(), value.map(|v| v.to_string()))];
        HttpResponse::assemble(HttpMethod::GET, 200, "OK", &raw, String::new(), 0).content_length
    };
    assert_eq!(one(Some("0")), Some(0));
    assert_eq!(one(Some("+7")), Some(7));
    assert_eq!(one(Some("007")), Some(7));
    assert_eq!(one(Some("")), None);
    assert_eq!(one(Some("+")), None);
    assert_eq!(one(Some("-7")), None);
    assert_eq!(one(Some(" 7")), None);
    assert_eq!(one(Some("7a")), None);
    assert_eq!(one(Some("99999999999999999999999999")), None);
    assert_eq!(one(None), Some(0));
}

#[test]
fn check_outcome_wants_success() {
    assert!(check_outcome(&Ok(with_status(200))));
    assert!(!check_outcome(&Ok(with_status(301))));
    assert!(!check_outcome(&Ok(with_status(404))));
    assert!(!check_outcome(&Err(RtoolsError::NetworkError("x".to_string()))));
}

#[test]
fn request_failures_name_the_stage() {
    assert_eq!(request_failed(Stage::Client, "tls").message(), "网络错误: 客户端创建失败: tls");
    assert_eq!(request_failed(Stage::Request, "refused").message(), "网络错误: 请求失败: refused");
    assert_eq!(request_failed(Stage::Body, "eof").message(), "网络错误: 读取响应体失败: eof");
}

#[test]
fn field_map_keeps_first_order_and_last_value() {
    let mut m = FieldMap::new();
    assert!(m.is_empty());
    m.insert("b".to_string(), "1".to_string());
    m.insert("a".to_string(), "2".to_string());
    m.insert("b".to_string(), "3".to_string());
    assert_eq!(m.len(), 2);
    assert_eq!(m.name_at(0), "b");
    assert_eq!(m.value_at(0), "3");
    assert_eq!(m.name_at(1), "a");
    assert_eq!(m.get("a"), Some(&"2".to_string()));
    assert_eq!(m.get("c"), None);
    let copy = m.duplicate();
    assert_eq!(copy.len(), 2);
    assert_eq!(copy.get("b"), Some(&"3".to_string()));
}
