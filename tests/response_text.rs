use fetchr::interpolate::{interpolate_variables, Variable};
use fetchr::response::{normalize_response, parse_set_cookie};

fn var(k: &str, v: &str) -> Variable {
    Variable { key: Some(k.to_string()), value: Some(v.to_string()) }
}

#[test]
fn cookie_from_set_cookie_header() {
    let c = parse_set_cookie("sid=abc123; Path=/; HttpOnly").unwrap();
    assert_eq!(c.name, "sid");
    assert_eq!(c.value, "abc123");
    assert_eq!(c.domain, None);
    assert_eq!(c.path, None);
}

#[test]
fn cookie_parts_are_trimmed_and_split_once() {
    let c = parse_set_cookie("  token = a=b ;x").unwrap();
    assert_eq!(c.name, "token");
    assert_eq!(c.value, "a=b");
}

#[test]
fn malformed_cookie_is_dropped() {
    assert!(parse_set_cookie("novalue; Path=/").is_none());
    assert!(parse_set_cookie("").is_none());
}

#[test]
fn response_is_normalised() {
    let headers = vec![
        ("content-type".to_string(), Some("text/plain".to_string())),
        ("set-cookie".to_string(), Some("a=1; Path=/".to_string())),
        ("x-bin".to_string(), None),
        ("set-cookie".to_string(), Some("broken".to_string())),
        ("set-cookie".to_string(), Some("b=2".to_string())),
    ];
    let body = b"hello".to_vec();
    let r = normalize_response(200, &headers, &body, 42);
    assert_eq!(r.status, 200);
    assert_eq!(r.status_text, "OK");
    assert_eq!(r.body, "hello");
    assert_eq!(r.size, 5);
    assert_eq!(r.response_time, 42);
    let hs: Vec<(String, String)> = r.headers.iter().map(|h| (h.name.clone(), h.value.clone())).collect();
    assert_eq!(
        hs,
        vec![
            ("content-type".to_string(), "text/plain".to_string()),
            ("set-cookie".to_string(), "b=2".to_string()),
            ("x-bin".to_string(), String::new()),
        ]
    );
    let cs: Vec<(String, String)> = r.cookies.iter().map(|c| (c.name.clone(), c.value.clone())).collect();
    assert_eq!(cs, vec![("a".to_string(), "1".to_string()), ("b".to_string(), "2".to_string())]);
}

#[test]
fn unknown_status_and_lossy_body() {
    let body = vec![b'o', b'k', 0xff, b'!'];
    let r = normalize_response(599, &vec![], &body, 0);
    assert_eq!(r.status_text, "Unknown");
    assert_eq!(r.body, "ok\u{fffd}!");
    assert_eq!(r.size, 4);
    let r2 = normalize_response(404, &vec![], &vec![], 1);
    assert_eq!(r2.status_text, "Not Found");
}

#[test]
fn interpolation_substitutes_in_order() {
    let vars = vec![var("host", "example.com"), var("id", "7"), Variable { key: Some("x".into()), value: None }];
    let r = interpolate_variables("https://{{host}}/items/{{id}}?q={{x}}&r={{missing}}".to_string(), &Some(vars));
    assert_eq!(r, "https://example.com/items/7?q={{x}}&r={{missing}}");
}

#[test]
fn interpolation_without_environment_is_identity() {
    let r = interpolate_variables("{{host}}".to_string(), &None);
    assert_eq!(r, "{{host}}");
}

#[test]
fn interpolation_does_not_rescan_values() {
    let vars = vec![var("a", "{{b}}")];
    let r = interpolate_variables("{{a}}".to_string(), &Some(vars));
    assert_eq!(r, "{{b}}");
    let vars2 = vec![var("a", "{{b}}"), var("b", "x")];
    let r2 = interpolate_variables("{{a}}".to_string(), &Some(vars2));
    assert_eq!(r2, "x");
}

#[test]
fn interpolation_twice_equals_once() {
    let vars = Some(vec![var("host", "h"), var("port", "80")]);
    let once = interpolate_variables("{{host}}:{{port}}/{{host}}".to_string(), &vars);
    let twice = interpolate_variables(once.clone(), &vars);
    assert_eq!(once, "h:80/h");
    assert_eq!(twice, once);
}
