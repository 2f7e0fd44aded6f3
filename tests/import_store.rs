use fetchr::import::{flatten_collection, parse_auth, ImportedCollection, ImportedFolder};
use fetchr::postman::{
    default_enabled, PostmanAuth, PostmanAuthParam, PostmanBody, PostmanCollection, PostmanFormData,
    PostmanHeader, PostmanInfo, PostmanItem, PostmanRequest, PostmanUrl, PostmanUrlObject,
};
use fetchr::store::{export_collection, link_imported, plan_import, Collection, Request};

fn req(method: &str, url: &str) -> PostmanRequest {
    PostmanRequest {
        method: method.to_string(),
        header: Some(vec![]),
        body: None,
        url: PostmanUrl::String(url.to_string()),
        auth: None,
    }
}

fn leaf(name: &str, r: PostmanRequest) -> PostmanItem {
    PostmanItem { name: name.to_string(), item: None, request: Some(r) }
}

fn folder(name: &str, children: Vec<PostmanItem>) -> PostmanItem {
    PostmanItem { name: name.to_string(), item: Some(children), request: None }
}

fn collection(name: &str, items: Vec<PostmanItem>) -> PostmanCollection {
    PostmanCollection { info: PostmanInfo { name: name.to_string(), postman_id: None }, item: items }
}

fn param(k: &str, v: &str) -> PostmanAuthParam {
    PostmanAuthParam { key: Some(k.to_string()), value: Some(v.to_string()) }
}

fn auth(t: &str) -> PostmanAuth {
    PostmanAuth { auth_type: Some(t.to_string()), basic: None, bearer: None, apikey: None }
}

fn json(s: &str) -> serde_json::Value {
    serde_json::from_str(s).unwrap()
}

#[test]
fn demo_collection_scenario() {
    let c = collection("Demo", vec![folder("Folder1", vec![leaf("Req1", req("GET", "http://x"))])]);
    let out = flatten_collection(&c);
    assert_eq!(out.name, "Demo");
    assert_eq!(out.folders.len(), 1);
    assert_eq!(out.folders[0].name, "Folder1");
    assert!(out.folders[0].parent_path.is_empty());
    assert_eq!(out.requests.len(), 1);
    let r = &out.requests[0];
    assert_eq!(r.name, "Req1");
    assert_eq!(r.method, "GET");
    assert_eq!(r.url, "http://x");
    assert_eq!(r.folder_path, vec!["Folder1".to_string()]);
    assert_eq!(r.body_type, "none");
    assert_eq!(r.auth_type, "none");
    assert_eq!(r.auth_data, "{}");
}

#[test]
fn nested_folders_carry_their_paths() {
    let c = collection("C", vec![folder("A", vec![folder("B", vec![leaf("R", req("POST", "u"))])])]);
    let out = flatten_collection(&c);
    assert_eq!(out.folders.len(), 2);
    assert_eq!(out.folders[1].name, "B");
    assert_eq!(out.folders[1].parent_path, vec!["A".to_string()]);
    assert_eq!(out.requests[0].folder_path, vec!["A".to_string(), "B".to_string()]);
}

#[test]
fn relinking_restores_ancestry() {
    let c = collection("C", vec![
        folder("A", vec![folder("B", vec![leaf("R", req("POST", "u"))])]),
        leaf("Top", req("GET", "v")),
    ]);
    let out = flatten_collection(&c);
    let ids = vec!["id-a".to_string(), "id-b".to_string()];
    let links = link_imported(&out, &"root".to_string(), &ids);
    assert_eq!(links.folder_parents, vec![Some("root".to_string()), Some("id-a".to_string())]);
    assert_eq!(links.request_collections, vec!["id-b".to_string(), "root".to_string()]);
}

#[test]
fn unmatched_paths_fall_back() {
    let imported = ImportedCollection {
        name: "X".to_string(),
        folders: vec![ImportedFolder { name: "F".to_string(), parent_path: vec!["Nowhere".to_string()] }],
        requests: vec![],
    };
    let links = link_imported(&imported, &"root".to_string(), &vec!["f".to_string()]);
    assert_eq!(links.folder_parents, vec![None]);
}

#[test]
fn document_order_is_depth_first() {
    let c = collection("C", vec![
        leaf("R0", req("GET", "0")),
        folder("F1", vec![leaf("R1", req("GET", "1")), folder("F2", vec![])]),
        folder("F3", vec![]),
        PostmanItem { name: "empty".to_string(), item: None, request: None },
        leaf("R2", req("GET", "2")),
    ]);
    let out = flatten_collection(&c);
    let fnames: Vec<&str> = out.folders.iter().map(|f| f.name.as_str()).collect();
    assert_eq!(fnames, vec!["F1", "F2", "F3"]);
    let rnames: Vec<&str> = out.requests.iter().map(|r| r.name.as_str()).collect();
    assert_eq!(rnames, vec!["R0", "R1", "R2"]);
}

#[test]
fn folder_with_request_fields_is_a_folder() {
    let mut f = folder("F", vec![]);
    f.request = Some(req("GET", "x"));
    let out = flatten_collection(&collection("C", vec![f]));
    assert_eq!(out.folders.len(), 1);
    assert!(out.requests.is_empty());
}

#[test]
fn request_fields_are_normalised() {
    let mut r = req("PUT", "");
    r.url = PostmanUrl::Object(PostmanUrlObject { raw: "http://obj".to_string() });
    r.header = Some(vec![
        PostmanHeader { key: "A".into(), value: "1".into(), disabled: default_enabled() },
        PostmanHeader { key: "B".into(), value: "2".into(), disabled: true },
    ]);
    r.body = Some(PostmanBody { mode: "raw".into(), raw: Some("{\"k\":1}".into()), formdata: None, urlencoded: None });
    let out = flatten_collection(&collection("C", vec![leaf("R", r)]));
    let q = &out.requests[0];
    assert_eq!(q.url, "http://obj");
    assert_eq!(q.headers.len(), 2);
    assert!(q.headers[0].enabled);
    assert!(!q.headers[1].enabled);
    assert_eq!(q.body, "{\"k\":1}");
    assert_eq!(q.body_type, "json");
    assert!(q.folder_path.is_empty());
}

#[test]
fn form_bodies_are_normalised() {
    let field = |k: &str, t: Option<&str>, src: Option<&str>| PostmanFormData {
        key: k.to_string(),
        value: None,
        field_type: t.map(|s| s.to_string()),
        src: src.map(|s| s.to_string()),
    };
    let mut r1 = req("POST", "u");
    r1.body = Some(PostmanBody {
        mode: "formdata".into(),
        raw: None,
        formdata: Some(vec![field("a", None, None), field("f", Some("file"), Some("/x/y.bin"))]),
        urlencoded: None,
    });
    let mut r2 = req("POST", "u");
    r2.body = Some(PostmanBody {
        mode: "urlencoded".into(),
        raw: None,
        formdata: None,
        urlencoded: Some(vec![field("e", Some("file"), Some("/ignored"))]),
    });
    let mut r3 = req("POST", "u");
    r3.body = Some(PostmanBody { mode: "graphql".into(), raw: Some("q".into()), formdata: None, urlencoded: None });
    let out = flatten_collection(&collection("C", vec![leaf("1", r1), leaf("2", r2), leaf("3", r3)]));
    let f = &out.requests[0].form_data;
    assert_eq!(out.requests[0].body_type, "form");
    assert_eq!(f[0].field_type, "text");
    assert_eq!(f[0].value, "");
    assert!(f[0].enabled);
    assert_eq!(f[1].field_type, "file");
    assert_eq!(f[1].file_path, Some("/x/y.bin".to_string()));
    let g = &out.requests[1].form_data;
    assert_eq!(out.requests[1].body_type, "urlencoded");
    assert_eq!(g[0].field_type, "text");
    assert_eq!(g[0].file_path, None);
    assert_eq!(out.requests[2].body_type, "none");
    assert_eq!(out.requests[2].body, "");
}

#[test]
fn basic_auth_block() {
    let mut a = auth("basic");
    a.basic = Some(vec![param("username", "u"), param("password", "p"), param("other", "z")]);
    let (t, d) = parse_auth(&a);
    assert_eq!(t, "basic");
    assert_eq!(json(&d), json("{\"username\":\"u\",\"password\":\"p\"}"));
}

#[test]
fn bearer_auth_block() {
    let mut a = auth("bearer");
    a.bearer = Some(vec![PostmanAuthParam { key: Some("token".into()), value: None }, param("token", "t1"), param("token", "t2")]);
    let (t, d) = parse_auth(&a);
    assert_eq!(t, "bearer");
    assert_eq!(json(&d), json("{\"token\":\"t1\"}"));
    let mut b = auth("bearer");
    b.bearer = Some(vec![param("nottoken", "x")]);
    assert_eq!(parse_auth(&b), ("none".to_string(), "{}".to_string()));
}

#[test]
fn apikey_auth_block() {
    let mut a = auth("apikey");
    a.apikey = Some(vec![param("key", "X-K"), param("value", "v"), param("in", "header")]);
    let (t, d) = parse_auth(&a);
    assert_eq!(t, "apikey");
    assert_eq!(json(&d), json("{\"key\":\"X-K\",\"value_field\":\"v\"}"));
}

#[test]
fn malformed_auth_blocks_are_none() {
    assert_eq!(parse_auth(&auth("basic")), ("none".to_string(), "{}".to_string()));
    assert_eq!(parse_auth(&auth("oauth2")), ("none".to_string(), "{}".to_string()));
    let untyped = PostmanAuth { auth_type: None, basic: Some(vec![]), bearer: None, apikey: None };
    assert_eq!(parse_auth(&untyped), ("none".to_string(), "{}".to_string()));
}

#[test]
fn plan_gives_fresh_ids_and_links() {
    let c = collection("C", vec![folder("A", vec![folder("B", vec![leaf("R", req("GET", "u"))])])]);
    let out = flatten_collection(&c);
    let plan = plan_import(&out);
    assert_eq!(plan.collections.len(), 3);
    assert_eq!(plan.collections[0].name, "C");
    assert_eq!(plan.collections[0].parent_id, None);
    assert_eq!(plan.collections[1].parent_id, Some(plan.collections[0].id.clone()));
    assert_eq!(plan.collections[2].parent_id, Some(plan.collections[1].id.clone()));
    assert_ne!(plan.collections[1].id, plan.collections[2].id);
    assert_eq!(plan.requests.len(), 1);
    assert_eq!(plan.requests[0].collection_id, plan.collections[2].id);
}

fn stored(id: &str, headers: &str, auth_data: &str) -> Request {
    Request {
        id: id.to_string(),
        collection_id: "c1".to_string(),
        name: "n".to_string(),
        method: "GET".to_string(),
        url: "u".to_string(),
        headers: headers.to_string(),
        body: "b".to_string(),
        body_type: "raw".to_string(),
        auth_type: "none".to_string(),
        auth_data: auth_data.to_string(),
        created_at: String::new(),
        updated_at: String::new(),
    }
}

fn col(id: &str, name: &str) -> Collection {
    Collection { id: id.to_string(), name: name.to_string(), parent_id: None, is_folder: true, created_at: String::new() }
}

#[test]
fn export_absorbs_bad_json() {
    let cols = vec![col("c0", "Other"), col("c1", "Mine")];
    let reqs = vec![stored("r1", "[{\"key\":\"a\"}]", "{\"token\":\"t\"}"), stored("r2", "not json", "{oops")];
    let doc = export_collection(&cols, "c1", &reqs).unwrap();
    assert_eq!(doc.name, "Mine");
    assert_eq!(doc.requests.len(), 2);
    assert_eq!(doc.requests[0].headers, "[{\"key\":\"a\"}]");
    assert_eq!(doc.requests[0].auth_data, "{\"token\":\"t\"}");
    assert_eq!(doc.requests[1].headers, "[]");
    assert_eq!(doc.requests[1].auth_data, "{}");
    assert_eq!(doc.requests[1].body_type, "raw");
}

#[test]
fn export_of_unknown_collection_fails() {
    let r = export_collection(&vec![col("c0", "Other")], "zz", &vec![]);
    assert!(matches!(r, Err(ref m) if m == "Collection not found"));
}

#[test]
fn header_disabled_flag_defaults_to_false() {
    assert!(!default_enabled());
}
