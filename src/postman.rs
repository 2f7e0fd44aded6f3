//! The foreign collection format: nested folders and requests, as plain values.
use vstd::prelude::*;

verus! {

/// A foreign collection: its info block and its top-level items.
pub struct PostmanCollection {
    pub info: PostmanInfo,
    pub item: Vec<PostmanItem>,
}

pub struct PostmanInfo {
    pub name: String,
    pub postman_id: Option<String>,
}

/// A node of the tree: a folder when it has a child list, otherwise a request
/// when it carries one.
pub struct PostmanItem {
    pub name: String,
    pub item: Option<Vec<PostmanItem>>,
    pub request: Option<PostmanRequest>,
}

pub struct PostmanRequest {
    pub method: String,
    pub header: Option<Vec<PostmanHeader>>,
    pub body: Option<PostmanBody>,
    pub url: PostmanUrl,
    pub auth: Option<PostmanAuth>,
}

pub struct PostmanHeader {
    pub key: String,
    pub value: String,
    pub disabled: bool,
}

/// The value of a header's `disabled` flag when the document leaves it out.
pub fn default_enabled() -> (r: bool)
    ensures
        r == false,
{
    false
}

pub struct PostmanBody {
    pub mode: String,
    pub raw: Option<String>,
    pub formdata: Option<Vec<PostmanFormData>>,
    pub urlencoded: Option<Vec<PostmanFormData>>,
}

pub struct PostmanFormData {
    pub key: String,
    pub value: Option<String>,
    pub field_type: Option<String>,
    pub src: Option<String>,
}

/// A URL, given either as text or as an object with its text under `raw`.
pub enum PostmanUrl {
    String(String),
    Object(PostmanUrlObject),
}

pub struct PostmanUrlObject {
    pub raw: String,
}

/// One `{key, value}` entry of an auth block; each is present only where the
/// document gives it as text.
pub struct PostmanAuthParam {
    pub key: Option<String>,
    pub value: Option<String>,
}

/// An auth block: its declared type (where it is text), and the entry list under
/// each scheme's name (where that is a list).
pub struct PostmanAuth {
    pub auth_type: Option<String>,
    pub basic: Option<Vec<PostmanAuthParam>>,
    pub bearer: Option<Vec<PostmanAuthParam>>,
    pub apikey: Option<Vec<PostmanAuthParam>>,
}

} // verus!
