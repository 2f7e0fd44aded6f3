use fetchr::http::{
    assemble_headers, prepare_request, AuthData, AuthKind, BodyKind, Credentials, FormDataField,
    HttpRequest, KeyValue, PartContent, Payload,
};

fn kv(key: &str, value: &str, enabled: bool) -> KeyValue {
    KeyValue { key: key.to_string(), value: value.to_string(), enabled }
}

fn no_auth() -> AuthData {
    AuthData { username: None, password: None, token: None, key: None, value_field: None }
}

fn request(headers: Vec<KeyValue>, body_type: &str, body: &str, auth_type: &str, auth: AuthData) -> HttpRequest {
    HttpRequest {
        method: "GET".to_string(),
        url: "http://example.com".to_string(),
        headers,
        body: body.to_string(),
        body_type: body_type.to_string(),
        auth_type: auth_type.to_string(),
        auth_data: auth,
        form_data: None,
    }
}

fn header_pairs(plan_headers: &[fetchr::http::WireHeader]) -> Vec<(String, String)> {
    plan_headers.iter().map(|h| (h.name.clone(), h.value.clone())).collect()
}

#[test]
fn disabled_header_is_not_sent() {
    let hs = vec![kv("X-A", "1", true), kv("X-B", "2", false)];
    let out = assemble_headers(&hs).unwrap();
    assert_eq!(header_pairs(&out), vec![("x-a".to_string(), "1".to_string())]);
}

#[test]
fn enabled_header_appears_once_last_value_wins() {
    let hs = vec![kv("Accept", "a", true), kv("X-Y", "y", true), kv("accept", "b", true)];
    let out = assemble_headers(&hs).unwrap();
    assert_eq!(
        header_pairs(&out),
        vec![("accept".to_string(), "b".to_string()), ("x-y".to_string(), "y".to_string())]
    );
}

#[test]
fn invalid_header_name_fails_before_sending() {
    let r = request(vec![kv("Bad Name", "v", true)], "none", "", "none", no_auth());
    assert!(prepare_request(&r).is_err());
}

#[test]
fn invalid_header_value_fails_before_sending() {
    let r = request(vec![kv("X-Ok", "line\nbreak", true)], "none", "", "none", no_auth());
    assert!(prepare_request(&r).is_err());
}

#[test]
fn disabled_invalid_header_is_ignored() {
    let r = request(vec![kv("Bad Name", "v", false)], "none", "", "none", no_auth());
    assert!(prepare_request(&r).is_ok());
}

#[test]
fn malformed_method_fails() {
    let mut r = request(vec![], "none", "", "none", no_auth());
    r.method = "GE T".to_string();
    assert!(prepare_request(&r).is_err());
    r.method = String::new();
    assert!(prepare_request(&r).is_err());
}

#[test]
fn method_and_url_are_kept() {
    let mut r = request(vec![], "none", "", "none", no_auth());
    r.method = "PATCH".to_string();
    let p = prepare_request(&r).unwrap();
    assert_eq!(p.method, "PATCH");
    assert_eq!(p.url, "http://example.com");
}

#[test]
fn basic_auth_without_password_adds_nothing() {
    let mut a = no_auth();
    a.username = Some("alice".to_string());
    a.token = Some("stray".to_string());
    let p = prepare_request(&request(vec![], "none", "", "basic", a)).unwrap();
    assert!(matches!(p.credentials, Credentials::Nothing));
    assert!(p.headers.is_empty());
}

#[test]
fn basic_auth_with_both_fields() {
    let mut a = no_auth();
    a.username = Some("alice".to_string());
    a.password = Some("secret".to_string());
    let p = prepare_request(&request(vec![], "none", "", "basic", a)).unwrap();
    match p.credentials {
        Credentials::Basic { username, password } => {
            assert_eq!(username, "alice");
            assert_eq!(password, "secret");
        }
        _ => panic!("expected basic credentials"),
    }
    assert!(p.headers.is_empty());
}

#[test]
fn bearer_auth_uses_token() {
    let mut a = no_auth();
    a.token = Some("tok".to_string());
    let p = prepare_request(&request(vec![], "none", "", "bearer", a)).unwrap();
    assert!(matches!(p.credentials, Credentials::Bearer { ref token } if token == "tok"));
    let p2 = prepare_request(&request(vec![], "none", "", "bearer", no_auth())).unwrap();
    assert!(matches!(p2.credentials, Credentials::Nothing));
}

#[test]
fn api_key_header_is_added() {
    let mut a = no_auth();
    a.key = Some("X-Api-Key".to_string());
    a.value_field = Some("k1".to_string());
    let p = prepare_request(&request(vec![kv("A", "1", true)], "none", "", "apikey", a)).unwrap();
    assert_eq!(
        header_pairs(&p.headers),
        vec![("a".to_string(), "1".to_string()), ("x-api-key".to_string(), "k1".to_string())]
    );
}

#[test]
fn api_key_missing_value_is_a_no_op() {
    let mut a = no_auth();
    a.key = Some("X-Api-Key".to_string());
    let p = prepare_request(&request(vec![], "none", "", "apikey", a)).unwrap();
    assert!(p.headers.is_empty());
}

#[test]
fn api_key_with_bad_name_fails() {
    let mut a = no_auth();
    a.key = Some("bad key".to_string());
    a.value_field = Some("v".to_string());
    assert!(prepare_request(&request(vec![], "none", "", "apikey", a)).is_err());
}

#[test]
fn unknown_auth_tag_is_ignored() {
    let mut a = no_auth();
    a.username = Some("u".to_string());
    a.password = Some("p".to_string());
    let p = prepare_request(&request(vec![], "none", "", "digest", a)).unwrap();
    assert!(matches!(p.credentials, Credentials::Nothing));
}

#[test]
fn json_body_sets_content_type_once() {
    let p = prepare_request(&request(vec![kv("X", "1", true)], "json", "{\"a\":1}", "none", no_auth())).unwrap();
    assert!(matches!(p.payload, Payload::Text { ref text } if text == "{\"a\":1}"));
    let ct: Vec<_> = p.headers.iter().filter(|h| h.name == "content-type").collect();
    assert_eq!(ct.len(), 1);
    assert_eq!(ct[0].value, "application/json");
}

#[test]
fn json_body_overrides_user_content_type() {
    let hs = vec![kv("Content-Type", "text/plain", true), kv("X", "1", true)];
    let p = prepare_request(&request(hs, "json", "{}", "none", no_auth())).unwrap();
    assert_eq!(
        header_pairs(&p.headers),
        vec![
            ("content-type".to_string(), "application/json".to_string()),
            ("x".to_string(), "1".to_string()),
        ]
    );
}

#[test]
fn api_key_sets_its_header() {
    let mut a = no_auth();
    a.key = Some("X-Api-Key".to_string());
    a.value_field = Some("new".to_string());
    let hs = vec![kv("x-api-key", "old", true), kv("B", "2", true)];
    let p = prepare_request(&request(hs, "none", "", "apikey", a)).unwrap();
    assert_eq!(
        header_pairs(&p.headers),
        vec![("x-api-key".to_string(), "new".to_string()), ("b".to_string(), "2".to_string())]
    );
}

#[test]
fn json_body_is_not_validated() {
    let p = prepare_request(&request(vec![], "json", "not json", "none", no_auth())).unwrap();
    assert!(matches!(p.payload, Payload::Text { ref text } if text == "not json"));
}

#[test]
fn empty_json_body_is_no_body() {
    let p = prepare_request(&request(vec![], "json", "", "none", no_auth())).unwrap();
    assert!(matches!(p.payload, Payload::Empty));
    assert!(p.headers.is_empty());
}

#[test]
fn raw_body_has_no_content_type() {
    let p = prepare_request(&request(vec![], "raw", "hello", "none", no_auth())).unwrap();
    assert!(matches!(p.payload, Payload::Text { ref text } if text == "hello"));
    assert!(p.headers.is_empty());
}

#[test]
fn empty_raw_body_is_sent_as_given() {
    let p = prepare_request(&request(vec![], "raw", "", "none", no_auth())).unwrap();
    assert!(matches!(p.payload, Payload::Text { ref text } if text.is_empty()));
}

#[test]
fn none_body_sends_nothing() {
    let p = prepare_request(&request(vec![], "none", "ignored", "none", no_auth())).unwrap();
    assert!(matches!(p.payload, Payload::Empty));
}

#[test]
fn form_body_keeps_enabled_fields_in_order() {
    let mut r = request(vec![], "form", "", "none", no_auth());
    r.form_data = Some(vec![
        FormDataField { key: "a".into(), value: "1".into(), field_type: "text".into(), enabled: true, file_path: None },
        FormDataField { key: "b".into(), value: "2".into(), field_type: "text".into(), enabled: false, file_path: None },
        FormDataField { key: "f".into(), value: "".into(), field_type: "file".into(), enabled: true, file_path: Some("/tmp/up/report.pdf".into()) },
        FormDataField { key: "g".into(), value: "".into(), field_type: "file".into(), enabled: true, file_path: Some("/".into()) },
        FormDataField { key: "h".into(), value: "".into(), field_type: "file".into(), enabled: true, file_path: None },
    ]);
    let p = prepare_request(&r).unwrap();
    let parts = match p.payload {
        Payload::Multipart { parts } => parts,
        _ => panic!("expected multipart"),
    };
    assert_eq!(parts.len(), 3);
    assert_eq!(parts[0].name, "a");
    assert!(matches!(parts[0].content, PartContent::Text { ref value } if value == "1"));
    assert_eq!(parts[1].name, "f");
    assert!(matches!(parts[1].content, PartContent::File { ref path, ref file_name }
        if path == "/tmp/up/report.pdf" && file_name == "report.pdf"));
    assert!(matches!(parts[2].content, PartContent::File { ref file_name, .. } if file_name == "file"));
}

#[test]
fn form_body_without_fields_sends_nothing() {
    let p = prepare_request(&request(vec![], "form", "", "none", no_auth())).unwrap();
    assert!(matches!(p.payload, Payload::Empty));
}

#[test]
fn tags_parse_once() {
    assert_eq!(AuthKind::from_tag("basic"), AuthKind::Basic);
    assert_eq!(AuthKind::from_tag("apikey"), AuthKind::ApiKey);
    assert_eq!(AuthKind::from_tag("Basic"), AuthKind::NoAuth);
    assert_eq!(BodyKind::from_tag("urlencoded"), BodyKind::Form);
    assert_eq!(BodyKind::from_tag("json"), BodyKind::Json);
    assert_eq!(BodyKind::from_tag("xml"), BodyKind::NoBody);
}
