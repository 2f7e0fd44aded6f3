//! The outbound request descriptor and its translation into a wire plan.
use vstd::prelude::*;
use crate::text::{owned, same_text};
use vstd::string::*;
use crate::wire::{
    is_header_name, is_header_value, is_method_token, lower_name, parse_header_name,
    parse_header_value, parse_method,
};

verus! {

/// One header entry of a request descriptor; disabled entries are kept but not sent.
pub struct KeyValue {
    pub key: String,
    pub value: String,
    pub enabled: bool,
}

/// A header as it goes on the wire: normalised name and value.
pub struct WireHeader {
    pub name: String,
    pub value: String,
}

pub open spec fn wire_pair(h: WireHeader) -> (Seq<char>, Seq<char>) {
    (h.name@, h.value@)
}

pub open spec fn wire_pairs(hs: Seq<WireHeader>) -> Seq<(Seq<char>, Seq<char>)> {
    hs.map_values(|h: WireHeader| wire_pair(h))
}

/// Inserting into a header map: an existing name has its value replaced in place,
/// a new name goes at the end.
pub open spec fn put_header(acc: Seq<(Seq<char>, Seq<char>)>, n: Seq<char>, v: Seq<char>) -> Seq<
    (Seq<char>, Seq<char>),
> {
    if exists|k: int| 0 <= k < acc.len() && (#[trigger] acc[k]).0 == n {
        let k = choose|k: int| 0 <= k < acc.len() && (#[trigger] acc[k]).0 == n;
        acc.update(k, (n, v))
    } else {
        acc.push((n, v))
    }
}

/// The header map built from the enabled entries, in order: the last enabled entry
/// of a name wins, at the place where that name first appeared.
pub open spec fn wire_headers(e: Seq<KeyValue>) -> Seq<(Seq<char>, Seq<char>)>
    decreases e.len(),
{
    if e.len() == 0 {
        seq![]
    } else {
        let acc = wire_headers(e.drop_last());
        let h = e.last();
        if h.enabled {
            put_header(acc, lower_name(h.key@), h.value@)
        } else {
            acc
        }
    }
}

/// Every enabled entry has a wire-legal name and value.
pub open spec fn entries_ok(e: Seq<KeyValue>) -> bool {
    forall|i: int|
        0 <= i < e.len() && (#[trigger] e[i]).enabled ==> is_header_name(e[i].key@)
            && is_header_value(e[i].value@)
}

pub open spec fn unique_names(acc: Seq<(Seq<char>, Seq<char>)>) -> bool {
    forall|i: int, j: int| 0 <= i < j < acc.len() ==> (#[trigger] acc[i]).0 != (#[trigger] acc[j]).0
}

pub proof fn lemma_put_unique(acc: Seq<(Seq<char>, Seq<char>)>, n: Seq<char>, v: Seq<char>)
    requires
        unique_names(acc),
    ensures
        unique_names(put_header(acc, n, v)),
        forall|k: int| 0 <= k < acc.len() && acc[k].0 == n ==> put_header(acc, n, v) == acc.update(k, (n, v)),
{
    let r = put_header(acc, n, v);
    if exists|k: int| 0 <= k < acc.len() && (#[trigger] acc[k]).0 == n {
        let k = choose|k: int| 0 <= k < acc.len() && (#[trigger] acc[k]).0 == n;
        assert forall|i: int, j: int| 0 <= i < j < r.len() implies (#[trigger] r[i]).0 != (#[trigger] r[j]).0 by {
            assert(acc[i].0 != acc[j].0);
        }
    } else {
        assert forall|i: int, j: int| 0 <= i < j < r.len() implies (#[trigger] r[i]).0 != (#[trigger] r[j]).0 by {
            if j < acc.len() {
                assert(acc[i].0 != acc[j].0);
            } else {
                assert(acc[i].0 != n);
            }
        }
    }
}

proof fn lemma_wire_unique(e: Seq<KeyValue>)
    ensures
        unique_names(wire_headers(e)),
    decreases e.len(),
{
    if e.len() > 0 {
        lemma_wire_unique(e.drop_last());
        let h = e.last();
        if h.enabled {
            lemma_put_unique(wire_headers(e.drop_last()), lower_name(h.key@), h.value@);
        }
    }
}

/// A disabled entry contributes nothing to the wire: every wire header carries the
/// normalised name of some enabled entry.
pub proof fn lemma_wire_from_enabled(e: Seq<KeyValue>)
    ensures
        forall|k: int|
            0 <= k < wire_headers(e).len() ==> exists|i: int|
                0 <= i < e.len() && e[i].enabled && lower_name(e[i].key@) == (
                #[trigger] wire_headers(e)[k]).0,
    decreases e.len(),
{
    if e.len() > 0 {
        let d = e.drop_last();
        lemma_wire_from_enabled(d);
        let acc = wire_headers(d);
        let w = wire_headers(e);
        assert forall|k: int| 0 <= k < w.len() implies exists|i: int|
            0 <= i < e.len() && e[i].enabled && lower_name(e[i].key@) == (#[trigger] w[k]).0 by {
            let last = e.len() - 1;
            if k < acc.len() && w[k] == acc[k] {
                let i = choose|i: int|
                    0 <= i < d.len() && d[i].enabled && lower_name(d[i].key@) == (
                    #[trigger] acc[k]).0;
                assert(e[i] == d[i]);
            } else {
                assert(e[last].enabled && lower_name(e[last].key@) == w[k].0);
            }
        }
    }
}

/// An enabled entry that no later enabled entry of the same normalised name
/// overrides appears on the wire exactly once, with the value it was given.
pub proof fn lemma_wire_keeps_enabled(e: Seq<KeyValue>, i: int)
    requires
        0 <= i < e.len(),
        e[i].enabled,
        forall|j: int|
            i < j < e.len() && (#[trigger] e[j]).enabled ==> lower_name(e[j].key@) != lower_name(
                e[i].key@,
            ),
    ensures
        exists|k: int|
            0 <= k < wire_headers(e).len() && #[trigger] wire_headers(e)[k] == (
                lower_name(e[i].key@),
                e[i].value@,
            ),
        forall|k1: int, k2: int|
            0 <= k1 < wire_headers(e).len() && 0 <= k2 < wire_headers(e).len() && (
            #[trigger] wire_headers(e)[k1]).0 == lower_name(e[i].key@) && (
            #[trigger] wire_headers(e)[k2]).0 == lower_name(e[i].key@) ==> k1 == k2,
    decreases e.len(),
{
    let n = lower_name(e[i].key@);
    let d = e.drop_last();
    let acc = wire_headers(d);
    let w = wire_headers(e);
    lemma_wire_unique(e);
    lemma_wire_unique(d);
    if i == e.len() - 1 {
        lemma_put_unique(acc, n, e[i].value@);
        if exists|k: int| 0 <= k < acc.len() && (#[trigger] acc[k]).0 == n {
            let k = choose|k: int| 0 <= k < acc.len() && (#[trigger] acc[k]).0 == n;
            assert(w[k] == (n, e[i].value@));
        } else {
            assert(w[acc.len() as int] == (n, e[i].value@));
        }
    } else {
        assert forall|j: int| i < j < d.len() && (#[trigger] d[j]).enabled implies lower_name(
            d[j].key@,
        ) != lower_name(d[i].key@) by {
            assert(d[j] == e[j]);
        }
        lemma_wire_keeps_enabled(d, i);
        let k = choose|k: int| 0 <= k < acc.len() && #[trigger] acc[k] == (n, e[i].value@);
        let h = e.last();
        if h.enabled {
            let m = lower_name(h.key@);
            assert(m != n);
            lemma_put_unique(acc, m, h.value@);
            assert(w[k] == acc[k]);
        }
        assert(w[k] == (n, e[i].value@));
    }
}

/// Inserts into a header map kept as a list with unique names.
pub fn put_entry(out: &mut Vec<WireHeader>, name: String, value: String)
    requires
        unique_names(wire_pairs(old(out)@)),
    ensures
        wire_pairs(final(out)@) == put_header(wire_pairs(old(out)@), name@, value@),
        unique_names(wire_pairs(final(out)@)),
{
    let ghost acc = wire_pairs(out@);
    proof {
        lemma_put_unique(acc, name@, value@);
    }
    let mut j: usize = 0;
    let mut found = false;
    while j < out.len()
        invariant_except_break
            !found,
        invariant
            0 <= j <= out.len(),
            acc == wire_pairs(out@),
            forall|k: int| 0 <= k < j ==> (#[trigger] acc[k]).0 != name@,
        ensures
            found ==> j < out.len() && acc[j as int].0 == name@,
            !found ==> j == out.len(),
            forall|k: int| 0 <= k < j ==> (#[trigger] acc[k]).0 != name@,
        decreases out.len() - j,
    {
        if out[j].name == name {
            found = true;
            break;
        }
        j += 1;
    }
    if found {
        let ghost nv = (name@, value@);
        out[j] = WireHeader { name, value };
        assert(wire_pairs(out@) =~= acc.update(j as int, nv));
    } else {
        assert(!exists|k: int| 0 <= k < acc.len() && (#[trigger] acc[k]).0 == name@);
        let ghost nv = (name@, value@);
        out.push(WireHeader { name, value });
        assert(wire_pairs(out@) =~= acc.push(nv));
    }
}

/// Collects the enabled header entries into a header map, checking each name and
/// value on the way; the first entry that is not wire-legal ends the work with the
/// transport library's message.
pub fn assemble_headers(entries: &Vec<KeyValue>) -> (r: Result<Vec<WireHeader>, String>)
    ensures
        r is Ok <==> entries_ok(entries@),
        r is Ok ==> wire_pairs(r->Ok_0@) == wire_headers(entries@),
{
    let mut out: Vec<WireHeader> = Vec::new();
    let mut i: usize = 0;
    while i < entries.len()
        invariant
            0 <= i <= entries.len(),
            wire_pairs(out@) == wire_headers(entries@.take(i as int)),
            unique_names(wire_pairs(out@)),
            entries_ok(entries@.take(i as int)),
        decreases entries.len() - i,
    {
        let ghost before = entries@.take(i as int);
        let ghost after = entries@.take(i + 1);
        assert(after.drop_last() == before);
        let h = &entries[i];
        if h.enabled {
            let name = match parse_header_name(h.key.as_str()) {
                Ok(n) => n,
                Err(msg) => {
                    assert(entries@[i as int] == h);
                    return Err(msg);
                },
            };
            let value = match parse_header_value(h.value.as_str()) {
                Ok(v) => v,
                Err(msg) => {
                    assert(entries@[i as int] == h);
                    return Err(msg);
                },
            };
            put_entry(&mut out, name, value);
        }
        proof {
            assert forall|k: int| 0 <= k < after.len() && (#[trigger] after[k]).enabled implies is_header_name(after[k].key@)
                && is_header_value(after[k].value@) by {
                if k < i {
                    assert(after[k] == before[k]);
                }
            }
        }
        i += 1;
    }
    assert(entries@.take(entries.len() as int) =~= entries@);
    Ok(out)
}

} // verus!

verus! {

/// One field of a multipart form: text, or a reference to a local file.
pub struct FormDataField {
    pub key: String,
    pub value: String,
    pub field_type: String,
    pub enabled: bool,
    pub file_path: Option<String>,
}

/// Credentials of every scheme; only those of the active scheme are read.
pub struct AuthData {
    pub username: Option<String>,
    pub password: Option<String>,
    pub token: Option<String>,
    pub key: Option<String>,
    pub value_field: Option<String>,
}

/// A request as the user describes it.
pub struct HttpRequest {
    pub method: String,
    pub url: String,
    pub headers: Vec<KeyValue>,
    pub body: String,
    pub body_type: String,
    pub auth_type: String,
    pub auth_data: AuthData,
    pub form_data: Option<Vec<FormDataField>>,
}

/// The authentication schemes, parsed once from their tag.
#[derive(PartialEq, Eq, Structural, Clone, Copy, Debug)]
pub enum AuthKind {
    NoAuth,
    Basic,
    Bearer,
    ApiKey,
}

/// The body encodings, parsed once from their tag.
#[derive(PartialEq, Eq, Structural, Clone, Copy, Debug)]
pub enum BodyKind {
    NoBody,
    Raw,
    Json,
    Form,
}

pub open spec fn auth_kind_of(tag: Seq<char>) -> AuthKind {
    if tag == "basic"@ {
        AuthKind::Basic
    } else if tag == "bearer"@ {
        AuthKind::Bearer
    } else if tag == "apikey"@ {
        AuthKind::ApiKey
    } else {
        AuthKind::NoAuth
    }
}

/// Url-encoded forms go on the wire as multipart forms.
pub open spec fn body_kind_of(tag: Seq<char>) -> BodyKind {
    if tag == "json"@ {
        BodyKind::Json
    } else if tag == "raw"@ {
        BodyKind::Raw
    } else if tag == "form"@ || tag == "urlencoded"@ {
        BodyKind::Form
    } else {
        BodyKind::NoBody
    }
}

impl AuthKind {
    pub fn from_tag(tag: &str) -> (k: AuthKind)
        ensures
            k == auth_kind_of(tag@),
    {
        if same_text(tag, "basic") {
            AuthKind::Basic
        } else if same_text(tag, "bearer") {
            AuthKind::Bearer
        } else if same_text(tag, "apikey") {
            AuthKind::ApiKey
        } else {
            AuthKind::NoAuth
        }
    }
}

impl BodyKind {
    pub fn from_tag(tag: &str) -> (k: BodyKind)
        ensures
            k == body_kind_of(tag@),
    {
        if same_text(tag, "json") {
            BodyKind::Json
        } else if same_text(tag, "raw") {
            BodyKind::Raw
        } else if same_text(tag, "form") || same_text(tag, "urlencoded") {
            BodyKind::Form
        } else {
            BodyKind::NoBody
        }
    }
}

} // verus!

verus! {

/// Credentials that the transport encodes into an `Authorization` header.
pub enum Credentials {
    Nothing,
    Basic { username: String, password: String },
    Bearer { token: String },
}

pub ghost enum CredentialsSpec {
    Nothing,
    Basic(Seq<char>, Seq<char>),
    Bearer(Seq<char>),
}

impl View for Credentials {
    type V = CredentialsSpec;

    open spec fn view(&self) -> CredentialsSpec {
        match self {
            Credentials::Nothing => CredentialsSpec::Nothing,
            Credentials::Basic { username, password } => CredentialsSpec::Basic(
                username@,
                password@,
            ),
            Credentials::Bearer { token } => CredentialsSpec::Bearer(token@),
        }
    }
}

/// What one multipart part carries.
pub enum PartContent {
    Text { value: String },
    File { path: String, file_name: String },
}

/// One part of a multipart payload, under its field name.
pub struct PlannedPart {
    pub name: String,
    pub content: PartContent,
}

pub ghost enum PartSpec {
    Text(Seq<char>, Seq<char>),
    File(Seq<char>, Seq<char>, Seq<char>),
}

impl View for PlannedPart {
    type V = PartSpec;

    open spec fn view(&self) -> PartSpec {
        match &self.content {
            PartContent::Text { value } => PartSpec::Text(self.name@, value@),
            PartContent::File { path, file_name } => PartSpec::File(
                self.name@,
                path@,
                file_name@,
            ),
        }
    }
}

/// The payload of an outbound request.
pub enum Payload {
    Empty,
    Text { text: String },
    Multipart { parts: Vec<PlannedPart> },
}

pub ghost enum PayloadSpec {
    Empty,
    Text(Seq<char>),
    Multipart(Seq<PartSpec>),
}

impl View for Payload {
    type V = PayloadSpec;

    open spec fn view(&self) -> PayloadSpec {
        match self {
            Payload::Empty => PayloadSpec::Empty,
            Payload::Text { text } => PayloadSpec::Text(text@),
            Payload::Multipart { parts } => PayloadSpec::Multipart(parts@.map_values(|p: PlannedPart| p@)),
        }
    }
}

/// Everything the transport needs to dispatch a request: method, URL, the headers
/// in the order they are added, credentials, and payload.
pub struct OutboundPlan {
    pub method: String,
    pub url: String,
    pub headers: Vec<WireHeader>,
    pub credentials: Credentials,
    pub payload: Payload,
}

/// The final component of a path, where it has one that is text.
pub uninterp spec fn path_file_name(path: Seq<char>) -> Option<Seq<char>>;

/// Relies on `std::path::Path::file_name` and `OsStr::to_str`: the final component of
/// the path, when there is one and it is text.
#[verifier::external_body]
fn file_name(path: &str) -> (r: Option<String>)
    ensures
        r is Some <==> path_file_name(path@) is Some,
        r is Some ==> path_file_name(path@) == Some(r->Some_0@),
{
    std::path::Path::new(path).file_name().and_then(|n| n.to_str()).map(|n| n.to_string())
}

/// The name under which a file part is sent.
pub open spec fn upload_name(path: Seq<char>) -> Seq<char> {
    match path_file_name(path) {
        Some(n) => n,
        None => "file"@,
    }
}

/// The part that one form field contributes, if any: disabled fields and file
/// fields without a path contribute nothing.
pub open spec fn field_part(f: FormDataField) -> Option<PartSpec> {
    if !f.enabled {
        None
    } else if f.field_type@ == "file"@ {
        match f.file_path {
            Some(p) => Some(PartSpec::File(f.key@, p@, upload_name(p@))),
            None => None,
        }
    } else {
        Some(PartSpec::Text(f.key@, f.value@))
    }
}

pub open spec fn planned_parts(fs: Seq<FormDataField>) -> Seq<PartSpec>
    decreases fs.len(),
{
    if fs.len() == 0 {
        seq![]
    } else {
        let acc = planned_parts(fs.drop_last());
        match field_part(fs.last()) {
            Some(p) => acc.push(p),
            None => acc,
        }
    }
}

/// The payload that a request's body descriptor calls for.
pub open spec fn payload_of(r: HttpRequest) -> PayloadSpec {
    let k = body_kind_of(r.body_type@);
    if (k == BodyKind::Json && r.body@.len() > 0) || k == BodyKind::Raw {
        PayloadSpec::Text(r.body@)
    } else if k == BodyKind::Form && r.form_data is Some {
        PayloadSpec::Multipart(planned_parts(r.form_data->Some_0@))
    } else {
        PayloadSpec::Empty
    }
}

/// Whether the body sets a JSON content type.
pub open spec fn sends_json(r: HttpRequest) -> bool {
    body_kind_of(r.body_type@) == BodyKind::Json && r.body@.len() > 0
}

/// The credentials that a request's auth descriptor calls for; incomplete
/// credentials are no credentials.
pub open spec fn credentials_of(r: HttpRequest) -> CredentialsSpec {
    let a = r.auth_data;
    match auth_kind_of(r.auth_type@) {
        AuthKind::Basic => if a.username is Some && a.password is Some {
            CredentialsSpec::Basic(a.username->Some_0@, a.password->Some_0@)
        } else {
            CredentialsSpec::Nothing
        },
        AuthKind::Bearer => if a.token is Some {
            CredentialsSpec::Bearer(a.token->Some_0@)
        } else {
            CredentialsSpec::Nothing
        },
        _ => CredentialsSpec::Nothing,
    }
}

/// Whether the API-key scheme is active with both its header name and value.
pub open spec fn has_api_key(r: HttpRequest) -> bool {
    auth_kind_of(r.auth_type@) == AuthKind::ApiKey && r.auth_data.key is Some
        && r.auth_data.value_field is Some
}

pub open spec fn api_key_ok(r: HttpRequest) -> bool {
    has_api_key(r) ==> is_header_name(r.auth_data.key->Some_0@) && is_header_value(
        r.auth_data.value_field->Some_0@,
    )
}

/// The headers of the plan: the header map of the enabled entries, where the
/// API-key scheme then sets its header and a JSON body then sets the content type.
pub open spec fn plan_headers(r: HttpRequest) -> Seq<(Seq<char>, Seq<char>)> {
    let base = wire_headers(r.headers@);
    let keyed = if has_api_key(r) {
        put_header(base, lower_name(r.auth_data.key->Some_0@), r.auth_data.value_field->Some_0@)
    } else {
        base
    };
    if sends_json(r) {
        put_header(keyed, "content-type"@, "application/json"@)
    } else {
        keyed
    }
}

/// Whether the request can be built: a valid method, wire-legal enabled headers,
/// and a wire-legal API-key header where that scheme is active.
pub open spec fn request_ok(r: HttpRequest) -> bool {
    is_method_token(r.method@) && entries_ok(r.headers@) && api_key_ok(r)
}

/// The credentials step of the authentication strategy.
pub fn plan_credentials(kind: AuthKind, a: &AuthData) -> (c: Credentials)
    ensures
        c@ == (match kind {
            AuthKind::Basic => if a.username is Some && a.password is Some {
                CredentialsSpec::Basic(a.username->Some_0@, a.password->Some_0@)
            } else {
                CredentialsSpec::Nothing
            },
            AuthKind::Bearer => if a.token is Some {
                CredentialsSpec::Bearer(a.token->Some_0@)
            } else {
                CredentialsSpec::Nothing
            },
            _ => CredentialsSpec::Nothing,
        }),
{
    match kind {
        AuthKind::Basic => match (&a.username, &a.password) {
            (Some(u), Some(p)) => Credentials::Basic { username: u.clone(), password: p.clone() },
            _ => Credentials::Nothing,
        },
        AuthKind::Bearer => match &a.token {
            Some(t) => Credentials::Bearer { token: t.clone() },
            None => Credentials::Nothing,
        },
        _ => Credentials::Nothing,
    }
}

/// The parts of a multipart payload: enabled fields in order, text fields as text,
/// file fields (with a path) as files named after the path's final component.
pub fn plan_parts(fields: &Vec<FormDataField>) -> (r: Vec<PlannedPart>)
    ensures
        r@.map_values(|p: PlannedPart| p@) == planned_parts(fields@),
{
    let mut out: Vec<PlannedPart> = Vec::new();
    let mut i: usize = 0;
    while i < fields.len()
        invariant
            0 <= i <= fields.len(),
            out@.map_values(|p: PlannedPart| p@) == planned_parts(fields@.take(i as int)),
        decreases fields.len() - i,
    {
        let ghost before = out@.map_values(|p: PlannedPart| p@);
        assert(fields@.take(i + 1).drop_last() == fields@.take(i as int));
        let f = &fields[i];
        assert(fields@.take(i + 1).last() == f);
        if f.enabled {
            if same_text(f.field_type.as_str(), "file") {
                match &f.file_path {
                    Some(p) => {
                        let name = match file_name(p.as_str()) {
                            Some(n) => n,
                            None => owned("file"),
                        };
                        out.push(
                            PlannedPart {
                                name: f.key.clone(),
                                content: PartContent::File { path: p.clone(), file_name: name },
                            },
                        );
                        assert(out@.map_values(|p: PlannedPart| p@) =~= before.push(
                            field_part(*f)->Some_0,
                        ));
                    },
                    None => {},
                }
            } else {
                out.push(
                    PlannedPart {
                        name: f.key.clone(),
                        content: PartContent::Text { value: f.value.clone() },
                    },
                );
                assert(out@.map_values(|p: PlannedPart| p@) =~= before.push(
                    field_part(*f)->Some_0,
                ));
            }
        }
        i += 1;
    }
    assert(fields@.take(fields.len() as int) =~= fields@);
    out
}

/// The body strategy: raw text goes verbatim, JSON text too unless it is empty,
/// forms as multipart; anything else sends no payload.
pub fn plan_payload(kind: BodyKind, body: &String, form_data: &Option<Vec<FormDataField>>) -> (p:
    Payload)
    ensures
        p@ == (if (kind == BodyKind::Json && body@.len() > 0) || kind == BodyKind::Raw {
            PayloadSpec::Text(body@)
        } else if kind == BodyKind::Form && form_data is Some {
            PayloadSpec::Multipart(planned_parts(form_data->Some_0@))
        } else {
            PayloadSpec::Empty
        }),
{
    match kind {
        BodyKind::Json => {
            if body.unicode_len() > 0 {
                Payload::Text { text: body.clone() }
            } else {
                Payload::Empty
            }
        },
        BodyKind::Raw => Payload::Text { text: body.clone() },
        BodyKind::Form => match form_data {
            Some(fs) => Payload::Multipart { parts: plan_parts(fs) },
            None => Payload::Empty,
        },
        BodyKind::NoBody => Payload::Empty,
    }
}

} // verus!

verus! {

/// Builds the wire plan of a request: parses the method, assembles the enabled
/// headers, applies the authentication strategy and then the body strategy. Fails,
/// before any network work, on a malformed method or a header that is not
/// wire-legal, with the transport library's message.
pub fn prepare_request(req: &HttpRequest) -> (r: Result<OutboundPlan, String>)
    ensures
        r is Ok <==> request_ok(*req),
        r is Ok ==> ({
            let p = r->Ok_0;
            &&& p.method@ == req.method@
            &&& p.url@ == req.url@
            &&& wire_pairs(p.headers@) == plan_headers(*req)
            &&& p.credentials@ == credentials_of(*req)
            &&& p.payload@ == payload_of(*req)
        }),
{
    let method = match parse_method(req.method.as_str()) {
        Ok(m) => m,
        Err(msg) => return Err(msg),
    };
    let mut headers = match assemble_headers(&req.headers) {
        Ok(h) => h,
        Err(msg) => return Err(msg),
    };
    proof {
        lemma_wire_unique(req.headers@);
    }
    let auth = AuthKind::from_tag(req.auth_type.as_str());
    let credentials = plan_credentials(auth, &req.auth_data);
    if auth == AuthKind::ApiKey {
        match (&req.auth_data.key, &req.auth_data.value_field) {
            (Some(k), Some(v)) => {
                let name = match parse_header_name(k.as_str()) {
                    Ok(n) => n,
                    Err(msg) => return Err(msg),
                };
                let value = match parse_header_value(v.as_str()) {
                    Ok(x) => x,
                    Err(msg) => return Err(msg),
                };
                put_entry(&mut headers, name, value);
            },
            _ => {},
        }
    }
    let kind = BodyKind::from_tag(req.body_type.as_str());
    if kind == BodyKind::Json && req.body.unicode_len() > 0 {
        put_entry(&mut headers, owned("content-type"), owned("application/json"));
    }
    let payload = plan_payload(kind, &req.body, &req.form_data);
    Ok(OutboundPlan { method, url: req.url.clone(), headers, credentials, payload })
}

/// The pair that was put is in the map afterwards.
proof fn lemma_put_contains(acc: Seq<(Seq<char>, Seq<char>)>, n: Seq<char>, v: Seq<char>)
    requires
        unique_names(acc),
    ensures
        exists|k: int| 0 <= k < put_header(acc, n, v).len() && #[trigger] put_header(acc, n, v)[k] == (n, v),
{
    let r = put_header(acc, n, v);
    if exists|k: int| 0 <= k < acc.len() && (#[trigger] acc[k]).0 == n {
        let k = choose|k: int| 0 <= k < acc.len() && (#[trigger] acc[k]).0 == n;
        lemma_put_unique(acc, n, v);
        assert(r[k] == (n, v));
    } else {
        assert(r[acc.len() as int] == (n, v));
    }
}

/// Basic authentication adds no header of its own: with a username but no
/// password it adds no credentials either; with both it adds exactly these
/// credentials, which the transport encodes into the one `Authorization` header.
pub proof fn lemma_basic_auth(r: HttpRequest)
    requires
        auth_kind_of(r.auth_type@) == AuthKind::Basic,
    ensures
        plan_headers(r) == (if sends_json(r) {
            put_header(wire_headers(r.headers@), "content-type"@, "application/json"@)
        } else {
            wire_headers(r.headers@)
        }),
        r.auth_data.password is None ==> credentials_of(r) == CredentialsSpec::Nothing,
        r.auth_data.username is Some && r.auth_data.password is Some ==> credentials_of(r)
            == CredentialsSpec::Basic(r.auth_data.username->Some_0@, r.auth_data.password->Some_0@),
{
}

/// A JSON body with text is sent verbatim, and the plan's headers hold the content
/// type `application/json` exactly once, whatever header entries the request has.
pub proof fn lemma_json_body(r: HttpRequest)
    requires
        body_kind_of(r.body_type@) == BodyKind::Json,
        r.body@.len() > 0,
    ensures
        payload_of(r) == PayloadSpec::Text(r.body@),
        ({
            let all = plan_headers(r);
            &&& exists|k: int| 0 <= k < all.len() && #[trigger] all[k] == ("content-type"@, "application/json"@)
            &&& forall|k1: int, k2: int|
                0 <= k1 < all.len() && 0 <= k2 < all.len() && (#[trigger] all[k1]).0
                    == "content-type"@ && (#[trigger] all[k2]).0 == "content-type"@ ==> k1 == k2
        }),
{
    let base = wire_headers(r.headers@);
    lemma_wire_unique(r.headers@);
    let keyed = if has_api_key(r) {
        put_header(base, lower_name(r.auth_data.key->Some_0@), r.auth_data.value_field->Some_0@)
    } else {
        base
    };
    if has_api_key(r) {
        lemma_put_unique(base, lower_name(r.auth_data.key->Some_0@), r.auth_data.value_field->Some_0@);
    }
    lemma_put_unique(keyed, "content-type"@, "application/json"@);
    lemma_put_contains(keyed, "content-type"@, "application/json"@);
    let all = plan_headers(r);
    assert(all == put_header(keyed, "content-type"@, "application/json"@));
    assert forall|k1: int, k2: int|
        0 <= k1 < all.len() && 0 <= k2 < all.len() && (#[trigger] all[k1]).0 == "content-type"@
            && (#[trigger] all[k2]).0 == "content-type"@ implies k1 == k2 by {
        if k1 < k2 {
            assert(all[k1].0 != all[k2].0);
        } else if k2 < k1 {
            assert(all[k2].0 != all[k1].0);
        }
    }
}

} // verus!
