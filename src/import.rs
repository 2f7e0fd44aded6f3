//! Translation of a nested foreign collection into flat folder and request lists,
//! each tagged with the path of folder names above it.
use vstd::prelude::*;
use vstd::string::*;
use crate::postman::{
    PostmanAuth, PostmanAuthParam, PostmanBody, PostmanCollection, PostmanFormData, PostmanHeader,
    PostmanItem, PostmanRequest, PostmanUrl,
};
use crate::text::{copy_texts, owned, same_text};

verus! {

/// The compact JSON text of an object whose members are the given text pairs.
pub uninterp spec fn json_object_text(pairs: Seq<(Seq<char>, Seq<char>)>) -> Seq<char>;

pub open spec fn pair_views(pairs: Seq<(String, String)>) -> Seq<(Seq<char>, Seq<char>)> {
    pairs.map_values(|p: (String, String)| (p.0@, p.1@))
}

/// Relies on `serde_json::Value::Object` of `Value::String` members and its
/// `to_string`: the compact JSON text of that object.
#[verifier::external_body]
fn json_object(pairs: Vec<(String, String)>) -> (r: String)
    ensures
        r@ == json_object_text(pair_views(pairs@)),
{
    serde_json::Value::Object(
        pairs.into_iter().map(|(k, v)| (k, serde_json::Value::String(v))).collect(),
    ).to_string()
}

/// The value of the last entry named `name` that has both key and value, or the
/// empty text.
pub open spec fn last_value(ps: Seq<PostmanAuthParam>, name: Seq<char>) -> Seq<char>
    decreases ps.len(),
{
    if ps.len() == 0 {
        Seq::empty()
    } else {
        let p = ps.last();
        if p.key is Some && p.value is Some && p.key->Some_0@ == name {
            p.value->Some_0@
        } else {
            last_value(ps.drop_last(), name)
        }
    }
}

/// The value of the first entry named `name` that has both key and value.
pub open spec fn first_value(ps: Seq<PostmanAuthParam>, name: Seq<char>) -> Option<Seq<char>>
    decreases ps.len(),
{
    if ps.len() == 0 {
        None
    } else {
        let p = ps[0];
        if p.key is Some && p.value is Some && p.key->Some_0@ == name {
            Some(p.value->Some_0@)
        } else {
            first_value(ps.drop_first(), name)
        }
    }
}

/// The normalised auth tag and the JSON text of its data; anything unrecognised
/// or malformed is `none` with an empty object.
pub open spec fn auth_of(a: PostmanAuth) -> (Seq<char>, Seq<char>) {
    let none = ("none"@, "{}"@);
    if a.auth_type is None {
        none
    } else {
        let t = a.auth_type->Some_0@;
        if t == "basic"@ && a.basic is Some {
            let ps = a.basic->Some_0@;
            (
                "basic"@,
                json_object_text(
                    seq![("username"@, last_value(ps, "username"@)), ("password"@, last_value(ps, "password"@))],
                ),
            )
        } else if t == "bearer"@ && a.bearer is Some && first_value(
            a.bearer->Some_0@,
            "token"@,
        ) is Some {
            ("bearer"@, json_object_text(seq![("token"@, first_value(a.bearer->Some_0@, "token"@)->Some_0)]))
        } else if t == "apikey"@ && a.apikey is Some {
            let ps = a.apikey->Some_0@;
            (
                "apikey"@,
                json_object_text(
                    seq![("key"@, last_value(ps, "key"@)), ("value_field"@, last_value(ps, "value"@))],
                ),
            )
        } else {
            none
        }
    }
}

/// The value of the last usable entry named `name`.
fn find_last(ps: &Vec<PostmanAuthParam>, name: &str) -> (r: String)
    ensures
        r@ == last_value(ps@, name@),
{
    let mut r = String::new();
    let mut i: usize = 0;
    while i < ps.len()
        invariant
            0 <= i <= ps.len(),
            r@ == last_value(ps@.take(i as int), name@),
        decreases ps.len() - i,
    {
        assert(ps@.take(i + 1).drop_last() == ps@.take(i as int));
        let p = &ps[i];
        assert(ps@.take(i + 1).last() == p);
        match (&p.key, &p.value) {
            (Some(k), Some(v)) => {
                if same_text(k.as_str(), name) {
                    r = v.clone();
                }
            },
            _ => {},
        }
        i += 1;
    }
    assert(ps@.take(ps.len() as int) =~= ps@);
    r
}

/// The value of the first usable entry named `name`.
fn find_first(ps: &Vec<PostmanAuthParam>, name: &str) -> (r: Option<String>)
    ensures
        r is Some <==> first_value(ps@, name@) is Some,
        r is Some ==> first_value(ps@, name@) == Some(r->Some_0@),
{
    let mut i: usize = 0;
    assert(ps@.skip(0) =~= ps@);
    while i < ps.len()
        invariant
            0 <= i <= ps.len(),
            first_value(ps@, name@) == first_value(ps@.skip(i as int), name@),
        decreases ps.len() - i,
    {
        let p = &ps[i];
        assert(ps@.skip(i as int)[0] == p);
        assert(ps@.skip(i as int).drop_first() =~= ps@.skip(i + 1));
        match (&p.key, &p.value) {
            (Some(k), Some(v)) => {
                if same_text(k.as_str(), name) {
                    return Some(v.clone());
                }
            },
            _ => {},
        }
        i += 1;
    }
    None
}

/// Reads an auth block into the normalised tag and the JSON text of its data.
pub fn parse_auth(a: &PostmanAuth) -> (r: (String, String))
    ensures
        (r.0@, r.1@) == auth_of(*a),
{
    proof {
        reveal_strlit("{}");
    }
    match &a.auth_type {
        None => (owned("none"), owned("{}")),
        Some(t) => {
            if same_text(t.as_str(), "basic") && a.basic.is_some() {
                let ps = a.basic.as_ref().unwrap();
                let pairs = vec![
                    (owned("username"), find_last(ps, "username")),
                    (owned("password"), find_last(ps, "password")),
                ];
                assert(pair_views(pairs@) =~= seq![("username"@, last_value(ps@, "username"@)), ("password"@, last_value(ps@, "password"@))]);
                return (owned("basic"), json_object(pairs));
            }
            if same_text(t.as_str(), "bearer") && a.bearer.is_some() {
                let ps = a.bearer.as_ref().unwrap();
                match find_first(ps, "token") {
                    Some(v) => {
                        let pairs = vec![(owned("token"), v)];
                        assert(pair_views(pairs@) =~= seq![("token"@, first_value(ps@, "token"@)->Some_0)]);
                        return (owned("bearer"), json_object(pairs));
                    },
                    None => {},
                }
            }
            if same_text(t.as_str(), "apikey") && a.apikey.is_some() {
                let ps = a.apikey.as_ref().unwrap();
                let pairs = vec![
                    (owned("key"), find_last(ps, "key")),
                    (owned("value_field"), find_last(ps, "value")),
                ];
                assert(pair_views(pairs@) =~= seq![("key"@, last_value(ps@, "key"@)), ("value_field"@, last_value(ps@, "value"@))]);
                return (owned("apikey"), json_object(pairs));
            }
            (owned("none"), owned("{}"))
        },
    }
}

} // verus!

verus! {

/// The flat result of an import: collection name, folders and requests in
/// depth-first document order.
pub struct ImportedCollection {
    pub name: String,
    pub folders: Vec<ImportedFolder>,
    pub requests: Vec<ImportedRequest>,
}

/// A folder and the names of the folders above it, from the top.
pub struct ImportedFolder {
    pub name: String,
    pub parent_path: Vec<String>,
}

pub struct ImportedRequest {
    pub name: String,
    pub method: String,
    pub url: String,
    pub headers: Vec<ImportedHeader>,
    pub body: String,
    pub body_type: String,
    pub auth_type: String,
    pub auth_data: String,
    pub form_data: Vec<ImportedFormData>,
    pub folder_path: Vec<String>,
}

pub struct ImportedHeader {
    pub key: String,
    pub value: String,
    pub enabled: bool,
}

pub struct ImportedFormData {
    pub key: String,
    pub value: String,
    pub field_type: String,
    pub enabled: bool,
    pub file_path: Option<String>,
}

pub open spec fn names(v: Seq<String>) -> Seq<Seq<char>> {
    v.map_values(|s: String| s@)
}

pub open spec fn opt_text(o: Option<String>) -> Option<Seq<char>> {
    match o {
        Some(s) => Some(s@),
        None => None,
    }
}

pub open spec fn text_or_empty(o: Option<String>) -> Seq<char> {
    match o {
        Some(s) => s@,
        None => Seq::empty(),
    }
}

pub ghost struct FolderSpec {
    pub name: Seq<char>,
    pub parent_path: Seq<Seq<char>>,
}

pub ghost struct FormSpec {
    pub key: Seq<char>,
    pub value: Seq<char>,
    pub field_type: Seq<char>,
    pub enabled: bool,
    pub file_path: Option<Seq<char>>,
}

pub ghost struct RequestSpec {
    pub name: Seq<char>,
    pub method: Seq<char>,
    pub url: Seq<char>,
    pub headers: Seq<(Seq<char>, Seq<char>, bool)>,
    pub body: Seq<char>,
    pub body_type: Seq<char>,
    pub auth_type: Seq<char>,
    pub auth_data: Seq<char>,
    pub form_data: Seq<FormSpec>,
    pub folder_path: Seq<Seq<char>>,
}

impl View for ImportedFolder {
    type V = FolderSpec;

    open spec fn view(&self) -> FolderSpec {
        FolderSpec { name: self.name@, parent_path: names(self.parent_path@) }
    }
}

impl View for ImportedHeader {
    type V = (Seq<char>, Seq<char>, bool);

    open spec fn view(&self) -> (Seq<char>, Seq<char>, bool) {
        (self.key@, self.value@, self.enabled)
    }
}

impl View for ImportedFormData {
    type V = FormSpec;

    open spec fn view(&self) -> FormSpec {
        FormSpec {
            key: self.key@,
            value: self.value@,
            field_type: self.field_type@,
            enabled: self.enabled,
            file_path: opt_text(self.file_path),
        }
    }
}

impl View for ImportedRequest {
    type V = RequestSpec;

    open spec fn view(&self) -> RequestSpec {
        RequestSpec {
            name: self.name@,
            method: self.method@,
            url: self.url@,
            headers: self.headers@.map_values(|h: ImportedHeader| h@),
            body: self.body@,
            body_type: self.body_type@,
            auth_type: self.auth_type@,
            auth_data: self.auth_data@,
            form_data: self.form_data@.map_values(|f: ImportedFormData| f@),
            folder_path: names(self.folder_path@),
        }
    }
}

pub open spec fn url_of(u: PostmanUrl) -> Seq<char> {
    match u {
        PostmanUrl::String(s) => s@,
        PostmanUrl::Object(o) => o.raw@,
    }
}

/// Foreign headers are enabled unless marked disabled.
pub open spec fn headers_of(h: Option<Vec<PostmanHeader>>) -> Seq<(Seq<char>, Seq<char>, bool)> {
    match h {
        Some(hs) => hs@.map_values(|x: PostmanHeader| (x.key@, x.value@, !x.disabled)),
        None => Seq::empty(),
    }
}

/// A multipart field; its type defaults to text.
pub open spec fn form_field_of(f: PostmanFormData) -> FormSpec {
    FormSpec {
        key: f.key@,
        value: text_or_empty(f.value),
        field_type: match f.field_type {
            Some(t) => t@,
            None => "text"@,
        },
        enabled: true,
        file_path: opt_text(f.src),
    }
}

/// A url-encoded field: always text, never a file.
pub open spec fn encoded_field_of(f: PostmanFormData) -> FormSpec {
    FormSpec {
        key: f.key@,
        value: text_or_empty(f.value),
        field_type: "text"@,
        enabled: true,
        file_path: None,
    }
}

/// Body text, body tag and form fields of a foreign body.
pub open spec fn body_of(b: Option<PostmanBody>) -> (Seq<char>, Seq<char>, Seq<FormSpec>) {
    match b {
        None => (Seq::empty(), "none"@, Seq::empty()),
        Some(b) => if b.mode@ == "raw"@ {
            (text_or_empty(b.raw), "json"@, Seq::empty())
        } else if b.mode@ == "formdata"@ {
            (
                Seq::empty(),
                "form"@,
                match b.formdata {
                    Some(fs) => fs@.map_values(|f: PostmanFormData| form_field_of(f)),
                    None => Seq::empty(),
                },
            )
        } else if b.mode@ == "urlencoded"@ {
            (
                Seq::empty(),
                "urlencoded"@,
                match b.urlencoded {
                    Some(fs) => fs@.map_values(|f: PostmanFormData| encoded_field_of(f)),
                    None => Seq::empty(),
                },
            )
        } else {
            (Seq::empty(), "none"@, Seq::empty())
        },
    }
}

/// The normalised form of one foreign request, placed under `path`.
pub open spec fn request_of(name: Seq<char>, r: PostmanRequest, path: Seq<Seq<char>>) -> RequestSpec {
    let body = body_of(r.body);
    let auth = match r.auth {
        Some(a) => auth_of(a),
        None => ("none"@, "{}"@),
    };
    RequestSpec {
        name,
        method: r.method@,
        url: url_of(r.url),
        headers: headers_of(r.header),
        body: body.0,
        body_type: body.1,
        auth_type: auth.0,
        auth_data: auth.1,
        form_data: body.2,
        folder_path: path,
    }
}

fn import_headers(h: &Option<Vec<PostmanHeader>>) -> (r: Vec<ImportedHeader>)
    ensures
        r@.map_values(|x: ImportedHeader| x@) == headers_of(*h),
{
    let mut out: Vec<ImportedHeader> = Vec::new();
    match h {
        None => {},
        Some(hs) => {
            let mut i: usize = 0;
            while i < hs.len()
                invariant
                    0 <= i <= hs.len(),
                    out@.map_values(|x: ImportedHeader| x@) =~= hs@.take(i as int).map_values(
                        |x: PostmanHeader| (x.key@, x.value@, !x.disabled),
                    ),
                decreases hs.len() - i,
            {
                let x = &hs[i];
                let ghost prev = out@.map_values(|y: ImportedHeader| y@);
                out.push(ImportedHeader { key: x.key.clone(), value: x.value.clone(), enabled: !x.disabled });
                assert(out@.map_values(|y: ImportedHeader| y@) =~= prev.push((x.key@, x.value@, !x.disabled)));
                assert(hs@.take(i + 1) =~= hs@.take(i as int).push(*x));
                i += 1;
            }
            assert(hs@.take(hs.len() as int) =~= hs@);
        },
    }
    out
}

fn import_fields(fs: &Option<Vec<PostmanFormData>>, encoded: bool) -> (r: Vec<ImportedFormData>)
    ensures
        r@.map_values(|x: ImportedFormData| x@) == match *fs {
            Some(v) => if encoded {
                v@.map_values(|f: PostmanFormData| encoded_field_of(f))
            } else {
                v@.map_values(|f: PostmanFormData| form_field_of(f))
            },
            None => Seq::empty(),
        },
{
    let mut out: Vec<ImportedFormData> = Vec::new();
    match fs {
        None => {},
        Some(v) => {
            let mut i: usize = 0;
            while i < v.len()
                invariant
                    0 <= i <= v.len(),
                    out@.map_values(|x: ImportedFormData| x@) =~= (if encoded {
                        v@.take(i as int).map_values(|f: PostmanFormData| encoded_field_of(f))
                    } else {
                        v@.take(i as int).map_values(|f: PostmanFormData| form_field_of(f))
                    }),
                decreases v.len() - i,
            {
                let f = &v[i];
                let value = match &f.value {
                    Some(x) => x.clone(),
                    None => String::new(),
                };
                let field = if encoded {
                    ImportedFormData {
                        key: f.key.clone(),
                        value,
                        field_type: owned("text"),
                        enabled: true,
                        file_path: None,
                    }
                } else {
                    ImportedFormData {
                        key: f.key.clone(),
                        value,
                        field_type: match &f.field_type {
                            Some(t) => t.clone(),
                            None => owned("text"),
                        },
                        enabled: true,
                        file_path: match &f.src {
                            Some(s) => Some(s.clone()),
                            None => None,
                        },
                    }
                };
                let ghost prev = out@.map_values(|y: ImportedFormData| y@);
                assert(field@ == if encoded { encoded_field_of(*f) } else { form_field_of(*f) });
                out.push(field);
                assert(out@.map_values(|y: ImportedFormData| y@) =~= prev.push(field@));
                assert(v@.take(i + 1) =~= v@.take(i as int).push(*f));
                i += 1;
            }
            assert(v@.take(v.len() as int) =~= v@);
        },
    }
    out
}

fn import_body(b: &Option<PostmanBody>) -> (r: (String, String, Vec<ImportedFormData>))
    ensures
        (r.0@, r.1@, r.2@.map_values(|x: ImportedFormData| x@)) == body_of(*b),
{
    proof {
        reveal_strlit("");
    }
    match b {
        None => (String::new(), owned("none"), Vec::new()),
        Some(body) => {
            if same_text(body.mode.as_str(), "raw") {
                let text = match &body.raw {
                    Some(t) => t.clone(),
                    None => String::new(),
                };
                let empty: Vec<ImportedFormData> = Vec::new();
                assert(empty@.map_values(|x: ImportedFormData| x@) =~= Seq::<FormSpec>::empty());
                (text, owned("json"), empty)
            } else if same_text(body.mode.as_str(), "formdata") {
                (String::new(), owned("form"), import_fields(&body.formdata, false))
            } else if same_text(body.mode.as_str(), "urlencoded") {
                (String::new(), owned("urlencoded"), import_fields(&body.urlencoded, true))
            } else {
                let empty: Vec<ImportedFormData> = Vec::new();
                assert(empty@.map_values(|x: ImportedFormData| x@) =~= Seq::<FormSpec>::empty());
                (String::new(), owned("none"), empty)
            }
        },
    }
}

} // verus!

verus! {

broadcast use vstd::std_specs::vec::group_vec_axioms, vstd::seq::group_seq_axioms;

/// Folders and requests of the first `n` items under `path`, depth first in
/// document order: a folder is listed before its contents, with the path above it;
/// a request carries the path of the folder it sits in. An item that is neither a
/// folder nor a request contributes nothing.
pub open spec fn flat(items: Seq<PostmanItem>, n: int, path: Seq<Seq<char>>) -> (
    Seq<FolderSpec>,
    Seq<RequestSpec>,
)
    decreases items, n,
{
    if n <= 0 || n > items.len() {
        (Seq::empty(), Seq::empty())
    } else {
        let prev = flat(items, n - 1, path);
        let it = items[n - 1];
        match it.item {
            Some(ch) => {
                let sub = flat(ch@, ch@.len() as int, path.push(it.name@));
                (
                    prev.0 + seq![FolderSpec { name: it.name@, parent_path: path }] + sub.0,
                    prev.1 + sub.1,
                )
            },
            None => match it.request {
                Some(r) => (prev.0, prev.1.push(request_of(it.name@, r, path))),
                None => prev,
            },
        }
    }
}

/// The whole item list under `path`.
pub open spec fn flat_all(items: Seq<PostmanItem>, path: Seq<Seq<char>>) -> (
    Seq<FolderSpec>,
    Seq<RequestSpec>,
) {
    flat(items, items.len() as int, path)
}

pub open spec fn folder_views(v: Seq<ImportedFolder>) -> Seq<FolderSpec> {
    v.map_values(|f: ImportedFolder| f@)
}

pub open spec fn request_views(v: Seq<ImportedRequest>) -> Seq<RequestSpec> {
    v.map_values(|r: ImportedRequest| r@)
}

fn import_request(name: &String, r: &PostmanRequest, path: &Vec<String>) -> (out: ImportedRequest)
    ensures
        out@ == request_of(name@, *r, names(path@)),
{
    let url = match &r.url {
        PostmanUrl::String(s) => s.clone(),
        PostmanUrl::Object(o) => o.raw.clone(),
    };
    let headers = import_headers(&r.header);
    let (body, body_type, form_data) = import_body(&r.body);
    let (auth_type, auth_data) = match &r.auth {
        Some(a) => parse_auth(a),
        None => (owned("none"), owned("{}")),
    };
    ImportedRequest {
        name: name.clone(),
        method: r.method.clone(),
        url,
        headers,
        body,
        body_type,
        auth_type,
        auth_data,
        form_data,
        folder_path: copy_texts(path),
    }
}

/// Walks `items` under the folder path `path`, appending folders and requests.
fn process_items(
    items: &Vec<PostmanItem>,
    folders: &mut Vec<ImportedFolder>,
    requests: &mut Vec<ImportedRequest>,
    path: &mut Vec<String>,
)
    ensures
        folder_views(final(folders)@) == folder_views(old(folders)@) + flat_all(
            items@,
            names(old(path)@),
        ).0,
        request_views(final(requests)@) == request_views(old(requests)@) + flat_all(
            items@,
            names(old(path)@),
        ).1,
        final(path)@ == old(path)@,
    decreases items@,
{
    let ghost p = names(path@);
    let ghost f0 = folder_views(folders@);
    let ghost r0 = request_views(requests@);
    let mut i: usize = 0;
    while i < items.len()
        invariant
            0 <= i <= items.len(),
            names(path@) == p,
            path@ == old(path)@,
            p == names(old(path)@),
            folder_views(folders@) == f0 + flat(items@, i as int, p).0,
            request_views(requests@) == r0 + flat(items@, i as int, p).1,
        decreases items.len() - i,
    {
        let it = &items[i];
        let ghost prev = flat(items@, i as int, p);
        match &it.item {
            Some(children) => {
                let ghost fa = folder_views(folders@);
                folders.push(ImportedFolder { name: it.name.clone(), parent_path: copy_texts(path) });
                assert(folder_views(folders@) =~= fa.push(FolderSpec { name: it.name@, parent_path: p }));
                let ghost fb = folder_views(folders@);
                let ghost rb = request_views(requests@);
                path.push(it.name.clone());
                assert(names(path@) =~= p.push(it.name@));
                process_items(children, folders, requests, path);
                path.pop();
                assert(path@ =~= old(path)@);
                let ghost sub = flat(children@, children@.len() as int, p.push(it.name@));
                assert(folder_views(folders@) =~= f0 + (prev.0 + seq![FolderSpec { name: it.name@, parent_path: p }] + sub.0));
                assert(request_views(requests@) =~= r0 + (prev.1 + sub.1));
            },
            None => match &it.request {
                Some(r) => {
                    let ghost ra = request_views(requests@);
                    requests.push(import_request(&it.name, r, path));
                    assert(request_views(requests@) =~= ra.push(request_of(it.name@, *r, p)));
                },
                None => {},
            },
        }
        i += 1;
    }
}

/// Flattens a foreign collection into its name, folder list and request list.
pub fn flatten_collection(c: &PostmanCollection) -> (r: ImportedCollection)
    ensures
        r.name@ == c.info.name@,
        folder_views(r.folders@) == flat_all(c.item@, Seq::empty()).0,
        request_views(r.requests@) == flat_all(c.item@, Seq::empty()).1,
{
    let mut folders: Vec<ImportedFolder> = Vec::new();
    let mut requests: Vec<ImportedRequest> = Vec::new();
    let mut path: Vec<String> = Vec::new();
    assert(names(path@) =~= Seq::<Seq<char>>::empty());
    assert(folder_views(folders@) =~= Seq::<FolderSpec>::empty());
    assert(request_views(requests@) =~= Seq::<RequestSpec>::empty());
    process_items(&c.item, &mut folders, &mut requests, &mut path);
    assert(folder_views(folders@) =~= flat_all(c.item@, Seq::empty()).0);
    assert(request_views(requests@) =~= flat_all(c.item@, Seq::empty()).1);
    ImportedCollection { name: c.info.name.clone(), folders, requests }
}

} // verus!
