//! Stored records, the linking of an imported collection into parent-referencing
//! records, and the flat export of a collection.
use vstd::prelude::*;
use vstd::string::*;
use crate::import::{flat, flat_all, names, FolderSpec, ImportedCollection, ImportedFolder};
use crate::postman::PostmanItem;
use crate::text::{copy_texts, owned, same_text};

verus! {

/// A collection or folder; folders point at their parent by id.
pub struct Collection {
    pub id: String,
    pub name: String,
    pub parent_id: Option<String>,
    pub is_folder: bool,
    pub created_at: String,
}

/// A stored request; headers and auth data are kept as JSON text.
pub struct Request {
    pub id: String,
    pub collection_id: String,
    pub name: String,
    pub method: String,
    pub url: String,
    pub headers: String,
    pub body: String,
    pub body_type: String,
    pub auth_type: String,
    pub auth_data: String,
    pub created_at: String,
    pub updated_at: String,
}

/// A named set of variables, kept as JSON text; at most one is active.
pub struct Environment {
    pub id: String,
    pub name: String,
    pub variables: String,
    pub is_active: bool,
    pub created_at: String,
}

/// One entry of the send history.
pub struct History {
    pub id: String,
    pub method: String,
    pub url: String,
    pub status: i32,
    pub response_time: i32,
    pub created_at: String,
}

/// The path of a folder including its own name.
pub open spec fn full_path(f: FolderSpec) -> Seq<Seq<char>> {
    f.parent_path.push(f.name)
}

/// The path-to-id table after the first `n` folders: the root under the empty
/// path, then each folder under its full path.
pub open spec fn path_table(
    fs: Seq<FolderSpec>,
    ids: Seq<Seq<char>>,
    root: Seq<char>,
    n: int,
) -> Seq<(Seq<Seq<char>>, Seq<char>)>
    decreases n,
{
    if n <= 0 {
        seq![(Seq::empty(), root)]
    } else {
        path_table(fs, ids, root, n - 1).push((full_path(fs[n - 1]), ids[n - 1]))
    }
}

/// The id last entered under `key`.
pub open spec fn lookup(t: Seq<(Seq<Seq<char>>, Seq<char>)>, key: Seq<Seq<char>>) -> Option<Seq<char>>
    decreases t.len(),
{
    if t.len() == 0 {
        None
    } else if t.last().0 == key {
        Some(t.last().1)
    } else {
        lookup(t.drop_last(), key)
    }
}

pub open spec fn opt_view(o: Option<String>) -> Option<Seq<char>> {
    match o {
        Some(s) => Some(s@),
        None => None,
    }
}

/// Where each folder and each request of an import is linked: the parent id of
/// each folder (none where its path matches nothing), and the collection id of
/// each request (the root where its path matches nothing).
pub struct ImportLinks {
    pub folder_parents: Vec<Option<String>>,
    pub request_collections: Vec<String>,
}

pub open spec fn folder_specs(v: Seq<ImportedFolder>) -> Seq<FolderSpec> {
    v.map_values(|f: ImportedFolder| f@)
}

pub open spec fn links_ok(
    imported: ImportedCollection,
    root: Seq<char>,
    ids: Seq<Seq<char>>,
    l: ImportLinks,
) -> bool {
    let fs = folder_specs(imported.folders@);
    &&& l.folder_parents@.len() == fs.len()
    &&& forall|i: int|
        0 <= i < fs.len() ==> opt_view(#[trigger] l.folder_parents@[i]) == lookup(
            path_table(fs, ids, root, i),
            fs[i].parent_path,
        )
    &&& l.request_collections@.len() == imported.requests@.len()
    &&& forall|j: int|
        0 <= j < imported.requests@.len() ==> (#[trigger] l.request_collections@[j])@ == match lookup(
            path_table(fs, ids, root, fs.len() as int),
            names(imported.requests@[j].folder_path@),
        ) {
            Some(id) => id,
            None => root,
        }
}

/// Whether two folder paths hold the same names in the same order.
fn same_path(a: &Vec<String>, b: &Vec<String>) -> (r: bool)
    ensures
        r == (names(a@) == names(b@)),
{
    if a.len() != b.len() {
        assert(names(a@).len() != names(b@).len());
        return false;
    }
    let mut i: usize = 0;
    while i < a.len()
        invariant
            0 <= i <= a.len(),
            a.len() == b.len(),
            forall|k: int| 0 <= k < i ==> (#[trigger] a@[k])@ == b@[k]@,
        decreases a.len() - i,
    {
        if a[i] != b[i] {
            assert(names(a@)[i as int] != names(b@)[i as int]);
            return false;
        }
        i += 1;
    }
    assert(names(a@) =~= names(b@));
    true
}

fn table_lookup(t: &Vec<(Vec<String>, String)>, key: &Vec<String>) -> (r: Option<String>)
    ensures
        opt_view(r) == lookup(t@.map_values(|e: (Vec<String>, String)| (names(e.0@), e.1@)), names(key@)),
{
    let ghost tv = t@.map_values(|e: (Vec<String>, String)| (names(e.0@), e.1@));
    let mut n: usize = t.len();
    assert(tv.take(n as int) =~= tv);
    while n > 0
        invariant
            0 <= n <= t.len(),
            tv == t@.map_values(|e: (Vec<String>, String)| (names(e.0@), e.1@)),
            lookup(tv, names(key@)) == lookup(tv.take(n as int), names(key@)),
        decreases n,
    {
        let e = &t[n - 1];
        assert(tv.take(n as int).last() == (names(e.0@), e.1@));
        assert(tv.take(n as int).drop_last() =~= tv.take(n - 1));
        if same_path(&e.0, key) {
            return Some(e.1.clone());
        }
        n -= 1;
    }
    None
}

/// Links an imported collection: `root` is the id of the collection itself and
/// `folder_ids[i]` that of the `i`-th folder. Folders are entered into a path table
/// in order, so a folder finds its parent among those before it.
pub fn link_imported(imported: &ImportedCollection, root: &String, folder_ids: &Vec<String>) -> (l:
    ImportLinks)
    requires
        folder_ids@.len() == imported.folders@.len(),
    ensures
        links_ok(*imported, root@, names(folder_ids@), l),
{
    let ghost fs = folder_specs(imported.folders@);
    let ghost ids = names(folder_ids@);
    let mut table: Vec<(Vec<String>, String)> = Vec::new();
    let top: Vec<String> = Vec::new();
    assert(names(top@) =~= Seq::<Seq<char>>::empty());
    table.push((top, root.clone()));
    let mut parents: Vec<Option<String>> = Vec::new();
    let mut i: usize = 0;
    assert(table@.map_values(|e: (Vec<String>, String)| (names(e.0@), e.1@)) =~= path_table(fs, ids, root@, 0));
    while i < imported.folders.len()
        invariant
            0 <= i <= imported.folders.len(),
            folder_ids@.len() == imported.folders@.len(),
            fs == folder_specs(imported.folders@),
            ids == names(folder_ids@),
            table@.map_values(|e: (Vec<String>, String)| (names(e.0@), e.1@)) == path_table(fs, ids, root@, i as int),
            parents@.len() == i,
            forall|k: int|
                0 <= k < i ==> opt_view(#[trigger] parents@[k]) == lookup(
                    path_table(fs, ids, root@, k),
                    fs[k].parent_path,
                ),
        decreases imported.folders.len() - i,
    {
        let f = &imported.folders[i];
        let p = table_lookup(&table, &f.parent_path);
        parents.push(p);
        let mut full = copy_texts(&f.parent_path);
        full.push(f.name.clone());
        let ghost before = table@.map_values(|e: (Vec<String>, String)| (names(e.0@), e.1@));
        table.push((full, folder_ids[i].clone()));
        assert(names(full@) =~= full_path(fs[i as int]));
        assert(table@.map_values(|e: (Vec<String>, String)| (names(e.0@), e.1@)) =~= before.push((full_path(fs[i as int]), ids[i as int])));
        i += 1;
    }
    let mut cols: Vec<String> = Vec::new();
    let mut j: usize = 0;
    while j < imported.requests.len()
        invariant
            0 <= j <= imported.requests.len(),
            table@.map_values(|e: (Vec<String>, String)| (names(e.0@), e.1@)) == path_table(fs, ids, root@, fs.len() as int),
            fs == folder_specs(imported.folders@),
            cols@.len() == j,
            forall|k: int|
                0 <= k < j ==> (#[trigger] cols@[k])@ == match lookup(
                    path_table(fs, ids, root@, fs.len() as int),
                    names(imported.requests@[k].folder_path@),
                ) {
                    Some(id) => id,
                    None => root@,
                },
        decreases imported.requests.len() - j,
    {
        let c = match table_lookup(&table, &imported.requests[j].folder_path) {
            Some(id) => id,
            None => root.clone(),
        };
        cols.push(c);
        j += 1;
    }
    ImportLinks { folder_parents: parents, request_collections: cols }
}

} // verus!

verus! {

/// Relies on `uuid::Uuid::new_v4` and its `to_string`: a fresh random identifier.
#[verifier::external_body]
fn new_id() -> (r: String) {
    uuid::Uuid::new_v4().to_string()
}

/// Relies on `chrono::Utc::now` and `to_rfc3339`: the current time as RFC 3339 text.
#[verifier::external_body]
fn now_rfc3339() -> (r: String) {
    chrono::Utc::now().to_rfc3339()
}

/// What to store for a request of an import: its fresh id, the collection it
/// belongs to, and its creation time.
pub struct RequestSlot {
    pub id: String,
    pub collection_id: String,
    pub created_at: String,
}

/// The records an import becomes: the root collection followed by one folder
/// record per imported folder, and a slot per imported request.
pub struct ImportPlan {
    pub collections: Vec<Collection>,
    pub links: ImportLinks,
    pub requests: Vec<RequestSlot>,
}

/// The ids given to the folders of a plan, in folder order.
pub open spec fn folder_ids(p: ImportPlan) -> Seq<Seq<char>> {
    p.collections@.skip(1).map_values(|c: Collection| c.id@)
}

/// Gives the imported collection and each of its folders a fresh id, links them by
/// path, and assigns each request its collection.
pub fn plan_import(imported: &ImportedCollection) -> (p: ImportPlan)
    ensures
        p.collections@.len() == imported.folders@.len() + 1,
        p.collections@[0].name@ == imported.name@,
        p.collections@[0].parent_id is None,
        p.collections@[0].is_folder,
        links_ok(*imported, p.collections@[0].id@, folder_ids(p), p.links),
        forall|i: int|
            0 <= i < imported.folders@.len() ==> {
                let c = #[trigger] p.collections@[i + 1];
                &&& c.name@ == imported.folders@[i].name@
                &&& c.is_folder
                &&& opt_view(c.parent_id) == opt_view(p.links.folder_parents@[i])
            },
        p.requests@.len() == imported.requests@.len(),
        forall|j: int|
            0 <= j < imported.requests@.len() ==> (#[trigger] p.requests@[j]).collection_id@
                == p.links.request_collections@[j]@,
{
    let root_id = new_id();
    let mut ids: Vec<String> = Vec::new();
    let mut i: usize = 0;
    while i < imported.folders.len()
        invariant
            0 <= i <= imported.folders.len(),
            ids@.len() == i,
        decreases imported.folders.len() - i,
    {
        ids.push(new_id());
        i += 1;
    }
    let links = link_imported(imported, &root_id, &ids);
    let mut collections: Vec<Collection> = Vec::new();
    collections.push(
        Collection {
            id: root_id.clone(),
            name: imported.name.clone(),
            parent_id: None,
            is_folder: true,
            created_at: now_rfc3339(),
        },
    );
    let mut k: usize = 0;
    while k < imported.folders.len()
        invariant
            0 <= k <= imported.folders.len(),
            ids@.len() == imported.folders@.len(),
            links.folder_parents@.len() == imported.folders@.len(),
            collections@.len() == k + 1,
            collections@[0].id@ == root_id@,
            collections@[0].name@ == imported.name@,
            collections@[0].parent_id is None,
            collections@[0].is_folder,
            forall|m: int|
                0 <= m < k ==> {
                    let c = #[trigger] collections@[m + 1];
                    &&& c.id@ == ids@[m]@
                    &&& c.name@ == imported.folders@[m].name@
                    &&& c.is_folder
                    &&& opt_view(c.parent_id) == opt_view(links.folder_parents@[m])
                },
        decreases imported.folders.len() - k,
    {
        let parent_id = match &links.folder_parents[k] {
            Some(x) => Some(x.clone()),
            None => None,
        };
        collections.push(
            Collection {
                id: ids[k].clone(),
                name: imported.folders[k].name.clone(),
                parent_id,
                is_folder: true,
                created_at: now_rfc3339(),
            },
        );
        k += 1;
    }
    let mut requests: Vec<RequestSlot> = Vec::new();
    let mut j: usize = 0;
    while j < imported.requests.len()
        invariant
            0 <= j <= imported.requests.len(),
            links.request_collections@.len() == imported.requests@.len(),
            requests@.len() == j,
            forall|m: int|
                0 <= m < j ==> (#[trigger] requests@[m]).collection_id@
                    == links.request_collections@[m]@,
        decreases imported.requests.len() - j,
    {
        requests.push(
            RequestSlot {
                id: new_id(),
                collection_id: links.request_collections[j].clone(),
                created_at: now_rfc3339(),
            },
        );
        j += 1;
    }
    let p = ImportPlan { collections, links, requests };
    assert(folder_ids(p) =~= names(ids@));
    p
}

/// One request as exported: the stored fields, with headers and auth data as JSON
/// text that is known to parse.
pub struct ExportedRequest {
    pub name: String,
    pub method: String,
    pub url: String,
    pub headers: String,
    pub body: String,
    pub body_type: String,
    pub auth_type: String,
    pub auth_data: String,
}

/// An exported collection: its name and its requests, flat.
pub struct ExportDocument {
    pub name: String,
    pub requests: Vec<ExportedRequest>,
}

/// Whether a text is one JSON value.
pub uninterp spec fn json_parses(s: Seq<char>) -> bool;

/// Relies on `serde_json::from_str` into `serde_json::Value`: whether the text
/// parses as JSON.
#[verifier::external_body]
fn is_json(s: &str) -> (r: bool)
    ensures
        r == json_parses(s@),
{
    serde_json::from_str::<serde_json::Value>(s).is_ok()
}

/// Stored JSON text that does not parse is exported as the given empty default.
pub open spec fn json_or(s: Seq<char>, default: Seq<char>) -> Seq<char> {
    if json_parses(s) {
        s
    } else {
        default
    }
}

pub open spec fn exported_ok(r: Request, e: ExportedRequest) -> bool {
    &&& e.name@ == r.name@
    &&& e.method@ == r.method@
    &&& e.url@ == r.url@
    &&& e.headers@ == json_or(r.headers@, "[]"@)
    &&& e.body@ == r.body@
    &&& e.body_type@ == r.body_type@
    &&& e.auth_type@ == r.auth_type@
    &&& e.auth_data@ == json_or(r.auth_data@, "{}"@)
}

/// The export entry of one stored request.
pub fn export_request(r: &Request) -> (e: ExportedRequest)
    ensures
        exported_ok(*r, e),
{
    let headers = if is_json(r.headers.as_str()) {
        r.headers.clone()
    } else {
        owned("[]")
    };
    let auth_data = if is_json(r.auth_data.as_str()) {
        r.auth_data.clone()
    } else {
        owned("{}")
    };
    ExportedRequest {
        name: r.name.clone(),
        method: r.method.clone(),
        url: r.url.clone(),
        headers,
        body: r.body.clone(),
        body_type: r.body_type.clone(),
        auth_type: r.auth_type.clone(),
        auth_data,
    }
}

/// Exports the collection with id `collection_id` (the first such among
/// `collections`) with its stored `requests`, flat; fails when no collection has
/// that id.
pub fn export_collection(
    collections: &Vec<Collection>,
    collection_id: &str,
    requests: &Vec<Request>,
) -> (r: Result<ExportDocument, String>)
    ensures
        r is Err <==> forall|i: int|
            0 <= i < collections@.len() ==> (#[trigger] collections@[i]).id@ != collection_id@,
        r is Err ==> r->Err_0@ == "Collection not found"@,
        r is Ok ==> exists|i: int|
            0 <= i < collections@.len() && (#[trigger] collections@[i]).id@ == collection_id@
                && (forall|k: int| 0 <= k < i ==> (#[trigger] collections@[k]).id@ != collection_id@)
                && r->Ok_0.name@ == collections@[i].name@,
        r is Ok ==> r->Ok_0.requests@.len() == requests@.len() && forall|j: int|
            0 <= j < requests@.len() ==> exported_ok(
                #[trigger] requests@[j],
                r->Ok_0.requests@[j],
            ),
{
    let mut i: usize = 0;
    while i < collections.len()
        invariant
            0 <= i <= collections.len(),
            forall|k: int| 0 <= k < i ==> (#[trigger] collections@[k]).id@ != collection_id@,
        decreases collections.len() - i,
    {
        if same_text(collections[i].id.as_str(), collection_id) {
            let mut out: Vec<ExportedRequest> = Vec::new();
            let mut j: usize = 0;
            while j < requests.len()
                invariant
                    0 <= j <= requests.len(),
                    out@.len() == j,
                    forall|m: int| 0 <= m < j ==> exported_ok(#[trigger] requests@[m], out@[m]),
                decreases requests.len() - j,
            {
                out.push(export_request(&requests[j]));
                j += 1;
            }
            return Ok(ExportDocument { name: collections[i].name.clone(), requests: out });
        }
        i += 1;
    }
    Err(owned("Collection not found"))
}

} // verus!

verus! {

broadcast use vstd::std_specs::vec::group_vec_axioms, vstd::seq::group_seq_axioms;

/// Each folder of a flattened list sits either directly under `path` or under an
/// earlier folder whose full path is its parent path; each request likewise sits
/// under `path` or under a listed folder.
proof fn lemma_flat_linked(items: Seq<PostmanItem>, n: int, path: Seq<Seq<char>>)
    requires
        0 <= n <= items.len(),
    ensures
        forall|i: int|
            0 <= i < flat(items, n, path).0.len() ==> (#[trigger] flat(items, n, path).0[i]).parent_path
                == path || exists|j: int|
                0 <= j < i && full_path(flat(items, n, path).0[j]) == flat(
                    items,
                    n,
                    path,
                ).0[i].parent_path,
        forall|k: int|
            0 <= k < flat(items, n, path).1.len() ==> (#[trigger] flat(items, n, path).1[k]).folder_path
                == path || exists|j: int|
                0 <= j < flat(items, n, path).0.len() && full_path(flat(items, n, path).0[j])
                    == flat(items, n, path).1[k].folder_path,
    decreases items, n,
{
    if n > 0 {
        lemma_flat_linked(items, n - 1, path);
        let prev = flat(items, n - 1, path);
        let it = items[n - 1];
        let cur = flat(items, n, path);
        match it.item {
            Some(ch) => {
                let p2 = path.push(it.name@);
                lemma_flat_linked(ch@, ch@.len() as int, p2);
                let sub = flat(ch@, ch@.len() as int, p2);
                let fold = FolderSpec { name: it.name@, parent_path: path };
                let base = prev.0.len() as int;
                assert(cur.0 == prev.0 + seq![fold] + sub.0);
                assert(cur.1 == prev.1 + sub.1);
                assert(cur.0[base] == fold);
                assert(full_path(fold) == p2);
                assert forall|i: int| 0 <= i < cur.0.len() implies (#[trigger] cur.0[i]).parent_path
                    == path || exists|j: int|
                    0 <= j < i && full_path(cur.0[j]) == cur.0[i].parent_path by {
                    if i < base {
                        assert(cur.0[i] == prev.0[i]);
                        if prev.0[i].parent_path != path {
                            let j = choose|j: int|
                                0 <= j < i && full_path(prev.0[j]) == prev.0[i].parent_path;
                            assert(cur.0[j] == prev.0[j]);
                        }
                    } else if i > base {
                        let i2 = i - base - 1;
                        assert(cur.0[i] == sub.0[i2]);
                        if sub.0[i2].parent_path == p2 {
                            assert(full_path(cur.0[base]) == cur.0[i].parent_path);
                        } else {
                            let j2 = choose|j: int|
                                0 <= j < i2 && full_path(sub.0[j]) == sub.0[i2].parent_path;
                            assert(cur.0[j2 + base + 1] == sub.0[j2]);
                        }
                    }
                }
                assert forall|k: int| 0 <= k < cur.1.len() implies (#[trigger] cur.1[k]).folder_path
                    == path || exists|j: int|
                    0 <= j < cur.0.len() && full_path(cur.0[j]) == cur.1[k].folder_path by {
                    if k < prev.1.len() {
                        assert(cur.1[k] == prev.1[k]);
                        if prev.1[k].folder_path != path {
                            let j = choose|j: int|
                                0 <= j < prev.0.len() && full_path(prev.0[j]) == prev.1[k].folder_path;
                            assert(cur.0[j] == prev.0[j]);
                        }
                    } else {
                        let k2 = k - prev.1.len();
                        assert(cur.1[k] == sub.1[k2]);
                        if sub.1[k2].folder_path == p2 {
                            assert(full_path(cur.0[base]) == cur.1[k].folder_path);
                        } else {
                            let j2 = choose|j: int|
                                0 <= j < sub.0.len() && full_path(sub.0[j]) == sub.1[k2].folder_path;
                            assert(cur.0[j2 + base + 1] == sub.0[j2]);
                        }
                    }
                }
            },
            None => {
                assert(cur.0 == prev.0);
                assert forall|k: int| 0 <= k < cur.1.len() implies (#[trigger] cur.1[k]).folder_path
                    == path || exists|j: int|
                    0 <= j < cur.0.len() && full_path(cur.0[j]) == cur.1[k].folder_path by {
                    if k < prev.1.len() {
                        assert(cur.1[k] == prev.1[k]);
                        if prev.1[k].folder_path != path {
                            let j = choose|j: int|
                                0 <= j < prev.0.len() && full_path(prev.0[j]) == prev.1[k].folder_path;
                            assert(cur.0[j] == prev.0[j]);
                        }
                    } else {
                        assert(cur.1[k].folder_path == path);
                    }
                }
            },
        }
    }
}

/// The empty path always finds the root: no folder's full path is empty.
proof fn lemma_lookup_root(fs: Seq<FolderSpec>, ids: Seq<Seq<char>>, root: Seq<char>, n: int)
    requires
        0 <= n <= fs.len(),
    ensures
        lookup(path_table(fs, ids, root, n), Seq::empty()) == Some(root),
    decreases n,
{
    if n > 0 {
        lemma_lookup_root(fs, ids, root, n - 1);
        let t = path_table(fs, ids, root, n);
        assert(t.last().0.len() > 0);
        assert(t.drop_last() == path_table(fs, ids, root, n - 1));
    }
}

/// A path that is the full path of one of the first `n` folders finds the id of
/// such a folder.
proof fn lemma_lookup_found(
    fs: Seq<FolderSpec>,
    ids: Seq<Seq<char>>,
    root: Seq<char>,
    n: int,
    key: Seq<Seq<char>>,
)
    requires
        0 <= n <= fs.len(),
        ids.len() == fs.len(),
        exists|j: int| 0 <= j < n && full_path(fs[j]) == key,
    ensures
        exists|j: int|
            0 <= j < n && full_path(fs[j]) == key && lookup(path_table(fs, ids, root, n), key)
                == Some(#[trigger] ids[j]),
    decreases n,
{
    let t = path_table(fs, ids, root, n);
    assert(t.drop_last() == path_table(fs, ids, root, n - 1));
    if full_path(fs[n - 1]) == key {
        assert(lookup(t, key) == Some(ids[n - 1]));
    } else {
        let j = choose|j: int| 0 <= j < n && full_path(fs[j]) == key;
        assert(j < n - 1);
        lemma_lookup_found(fs, ids, root, n - 1, key);
    }
}

/// Relinking a flattened tree by exact path match reconstructs its ancestry: a
/// top-level folder or request lands under the root, and every other one under
/// the id of a folder whose own path plus name is exactly its path (for a folder,
/// one listed before it).
pub proof fn lemma_relink_flattened(items: Seq<PostmanItem>, root: Seq<char>, ids: Seq<Seq<char>>)
    requires
        ids.len() == flat_all(items, Seq::empty()).0.len(),
    ensures
        ({
            let fs = flat_all(items, Seq::empty()).0;
            forall|i: int|
                0 <= i < fs.len() ==> if (#[trigger] fs[i]).parent_path.len() == 0 {
                    lookup(path_table(fs, ids, root, i), fs[i].parent_path) == Some(root)
                } else {
                    exists|j: int|
                        0 <= j < i && full_path(fs[j]) == fs[i].parent_path && lookup(
                            path_table(fs, ids, root, i),
                            fs[i].parent_path,
                        ) == Some(#[trigger] ids[j])
                }
        }),
        ({
            let fs = flat_all(items, Seq::empty()).0;
            let rs = flat_all(items, Seq::empty()).1;
            forall|k: int|
                0 <= k < rs.len() ==> if (#[trigger] rs[k]).folder_path.len() == 0 {
                    lookup(path_table(fs, ids, root, fs.len() as int), rs[k].folder_path) == Some(
                        root,
                    )
                } else {
                    exists|j: int|
                        0 <= j < fs.len() && full_path(fs[j]) == rs[k].folder_path && lookup(
                            path_table(fs, ids, root, fs.len() as int),
                            rs[k].folder_path,
                        ) == Some(#[trigger] ids[j])
                }
        }),
{
    let e = Seq::<Seq<char>>::empty();
    let fs = flat_all(items, e).0;
    let rs = flat_all(items, e).1;
    lemma_flat_linked(items, items.len() as int, e);
    assert forall|i: int| 0 <= i < fs.len() implies if (#[trigger] fs[i]).parent_path.len() == 0 {
        lookup(path_table(fs, ids, root, i), fs[i].parent_path) == Some(root)
    } else {
        exists|j: int|
            0 <= j < i && full_path(fs[j]) == fs[i].parent_path && lookup(
                path_table(fs, ids, root, i),
                fs[i].parent_path,
            ) == Some(#[trigger] ids[j])
    } by {
        if fs[i].parent_path.len() == 0 {
            assert(fs[i].parent_path == e);
            lemma_lookup_root(fs, ids, root, i);
        } else {
            lemma_lookup_found(fs, ids, root, i, fs[i].parent_path);
        }
    }
    assert forall|k: int| 0 <= k < rs.len() implies if (#[trigger] rs[k]).folder_path.len() == 0 {
        lookup(path_table(fs, ids, root, fs.len() as int), rs[k].folder_path) == Some(root)
    } else {
        exists|j: int|
            0 <= j < fs.len() && full_path(fs[j]) == rs[k].folder_path && lookup(
                path_table(fs, ids, root, fs.len() as int),
                rs[k].folder_path,
            ) == Some(#[trigger] ids[j])
    } by {
        if rs[k].folder_path.len() == 0 {
            assert(rs[k].folder_path == e);
            lemma_lookup_root(fs, ids, root, fs.len() as int);
        } else {
            lemma_lookup_found(fs, ids, root, fs.len() as int, rs[k].folder_path);
        }
    }
}

} // verus!
