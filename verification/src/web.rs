//! What the polling interface answers, apart from the transport.
//!
//! A consumer polls for three things: a description of the server, the
//! changes since a time it names, and the instances that stand for a list of
//! routes. A request that carries a body is taken only as JSON text within a
//! size bound.

use crate::plugin::{option_routes, Plugin, PluginChain};
use crate::rbx::{RbxItem, RbxTree};
use crate::route::Route;
use crate::vfs::{changes_after, Vfs, VfsChange, VfsTree};
use vstd::prelude::*;
use vstd::string::StrSliceExecFns;
use vstd::utf8::{decode_utf8, encode_utf8, encode_utf8_decode_utf8, valid_utf8};

verus! {

/// The largest request body that is read, in bytes.
pub const MAX_BODY_SIZE: usize = 25 * 1024 * 1025;

/// The version of the protocol that the answers follow.
pub const PROTOCOL_VERSION: u64 = 1;

/// What a content type has to begin with for the body to count as JSON.
pub open spec fn json_content_type() -> Seq<char> {
    "application/json"@
}

/// Whether a request body is taken as JSON text: its content type is given and
/// begins with `application/json`, it is no longer than [`MAX_BODY_SIZE`], and
/// it is UTF-8.
pub open spec fn is_json_body(content_type: Option<Seq<char>>, body: Seq<u8>) -> bool {
    &&& content_type matches Some(header)
    &&& json_content_type().is_prefix_of(header)
    &&& body.len() <= MAX_BODY_SIZE
    &&& valid_utf8(body)
}

/// The list of routes that a JSON text holds, as `serde_json` reads a list of
/// lists of strings; `None` where it reads none.
pub uninterp spec fn json_routes(text: Seq<char>) -> Option<Seq<Seq<Seq<char>>>>;

/// The lists of strings that `lists` stand for, each string as its characters.
pub open spec fn string_lists(lists: Seq<Vec<String>>) -> Seq<Seq<Seq<char>>> {
    lists.map_values(|list: Vec<String>| list@.map_values(|s: String| s@))
}

/// `serde_json::Error`: why a text could not be read. It is carried, never
/// looked into.
#[verifier::external_type_specification]
#[verifier::external_body]
pub struct ExJsonError(serde_json::Error);

/// `serde_json::from_str`, reading a list of lists of strings. Whether it
/// reads one, and which, depends on the text alone: that is all the contract
/// claims, by naming the result [`json_routes`].
#[verifier::external_body]
fn parse_string_lists(text: &str) -> (result: Result<Vec<Vec<String>>, serde_json::Error>)
    ensures
        json_routes(text@) == match result {
            Ok(lists) => Some(string_lists(lists@)),
            Err(_) => None,
        },
{
    serde_json::from_str(text)
}

/// `String::from_utf8`: the string that the bytes encode, where they are
/// UTF-8, and `None` where they are not.
#[verifier::external_body]
fn string_from_utf8(bytes: Vec<u8>) -> (text: Option<String>)
    ensures
        text is Some <==> valid_utf8(bytes@),
        text matches Some(text) ==> encode_utf8(text@) == bytes@,
{
    match String::from_utf8(bytes) {
        Ok(text) => Some(text),
        Err(_) => None,
    }
}

/// The characters of a text, where there is a text.
pub open spec fn option_text(text: Option<&str>) -> Option<Seq<char>> {
    match text {
        Some(text) => Some(text@),
        None => None,
    }
}

/// Whether `text` begins with `prefix`.
fn starts_with(text: &str, prefix: &str) -> (b: bool)
    ensures
        b == prefix@.is_prefix_of(text@),
{
    let n = prefix.unicode_len();
    let m = text.unicode_len();
    if m < n {
        return false;
    }
    let mut i: usize = 0;
    while i < n
        invariant
            i <= n <= m,
            n == prefix@.len(),
            m == text@.len(),
            forall|j: int| 0 <= j < i ==> text@[j] == prefix@[j],
        decreases n - i,
    {
        if text.get_char(i) != prefix.get_char(i) {
            assert(text@.subrange(0, n as int)[i as int] != prefix@[i as int]);
            return false;
        }
        i += 1;
    }
    assert(text@.subrange(0, n as int) =~= prefix@);
    true
}

/// The text of a request body that is taken as JSON: `None` where the content
/// type is missing or does not begin with `application/json`, where the body
/// is longer than [`MAX_BODY_SIZE`], or where it is not UTF-8.
pub fn read_json_text(content_type: Option<&str>, body: Vec<u8>) -> (text: Option<String>)
    ensures
        text is Some <==> is_json_body(option_text(content_type), body@),
        text matches Some(text) ==> text@ == decode_utf8(body@),
{
    match content_type {
        Some(header) => {
            if !starts_with(header, "application/json") {
                return None;
            }
        },
        None => {
            return None;
        },
    }
    if body.len() > MAX_BODY_SIZE {
        return None;
    }
    let text = string_from_utf8(body);
    proof {
        if text is Some {
            encode_utf8_decode_utf8(text.unwrap()@);
        }
    }
    text
}

/// The routes that `lists` hold: each list of strings is the segments of one
/// route.
pub fn routes_of(lists: &Vec<Vec<String>>) -> (routes: Vec<Route>)
    ensures
        Route::views(routes@) == string_lists(lists@),
{
    let mut routes: Vec<Route> = Vec::new();
    let mut i: usize = 0;
    while i < lists.len()
        invariant
            i <= lists.len(),
            routes.len() == i,
            forall|j: int| 0 <= j < i ==> (#[trigger] routes@[j])@ == string_lists(lists@)[j],
        decreases lists.len() - i,
    {
        let route = Route::from_segments(&lists[i]);
        routes.push(route);
        i += 1;
    }
    assert(Route::views(routes@) =~= string_lists(lists@));
    routes
}

/// What a request body asks for: the routes that its text holds, where the
/// body is taken as JSON text and holds a list of lists of strings, and `None`
/// otherwise.
pub open spec fn requested_routes(content_type: Option<Seq<char>>, body: Seq<u8>) -> Option<
    Seq<Seq<Seq<char>>>,
> {
    if is_json_body(content_type, body) {
        json_routes(decode_utf8(body))
    } else {
        None
    }
}

/// The routes that a request body asks for: the body is taken as JSON text
/// ([`is_json_body`]) and read as a list of lists of strings. `None` where the
/// body is not taken, or holds no such list.
pub fn read_json(content_type: Option<&str>, body: Vec<u8>) -> (routes: Option<Vec<Route>>)
    ensures
        option_routes(routes) == requested_routes(option_text(content_type), body@),
{
    let text = match read_json_text(content_type, body) {
        Some(text) => text,
        None => {
            return None;
        },
    };
    match parse_string_lists(text.as_str()) {
        Ok(lists) => Some(routes_of(&lists)),
        Err(_) => None,
    }
}

/// The description of the server.
#[derive(Debug, PartialEq, Eq)]
pub struct ServerInfo {
    pub protocol_version: u64,
    pub server_id: String,
    pub current_time: u64,
}

/// The answer to a query for changes.
#[derive(Debug, PartialEq, Eq)]
pub struct ChangesResult {
    pub changes: Vec<VfsChange>,
    pub server_id: String,
    pub current_time: u64,
}

/// The answer to a query for the instances at a list of routes.
#[derive(Debug, PartialEq, Eq)]
pub struct ReadResult {
    pub items: Vec<Option<RbxItem>>,
    pub server_id: String,
    pub current_time: u64,
}

/// What a read makes of one route: the instance that the chain makes of the
/// node at the route, and nothing where no node is there or the chain makes
/// nothing of it.
pub open spec fn read_item<P: Plugin>(
    tree: VfsTree,
    plugins: Seq<P>,
    route: Seq<Seq<char>>,
) -> Option<RbxTree> {
    match tree.lookup(route) {
        Some(node) => PluginChain::file_result(plugins, node),
        None => None,
    }
}

/// Describes the server: the protocol version, the server's identifier, and
/// the time of the store's clock.
pub fn server_info(vfs: &Vfs, server_id: &str) -> (info: ServerInfo)
    ensures
        info.protocol_version == PROTOCOL_VERSION,
        info.server_id@ == server_id@,
        info.current_time == vfs.time(),
{
    ServerInfo {
        protocol_version: PROTOCOL_VERSION,
        server_id: server_id.to_owned(),
        current_time: vfs.current_time(),
    }
}

/// Answers a query for the changes since `last_time`: the records later than
/// it, in the order of the log, with the server's identifier and the time of
/// the store's clock.
pub fn changes(vfs: &Vfs, server_id: &str, last_time: u64) -> (result: ChangesResult)
    ensures
        VfsChange::views(result.changes@) == changes_after(vfs.log(), last_time),
        result.server_id@ == server_id@,
        result.current_time == vfs.time(),
{
    let current_time = vfs.current_time();
    let since = vfs.changes_since(last_time);
    let mut changes: Vec<VfsChange> = Vec::new();
    let mut i: usize = 0;
    while i < since.len()
        invariant
            i <= since.len(),
            changes.len() == i,
            forall|j: int| 0 <= j < i ==> (#[trigger] changes@[j])@ == since@[j]@,
        decreases since.len() - i,
    {
        changes.push(since[i].clone());
        i += 1;
    }
    assert(VfsChange::views(changes@) =~= VfsChange::views(since@));
    ChangesResult { changes, server_id: server_id.to_owned(), current_time }
}

/// Answers a query for the instances at `routes`: for each route, in the same
/// order, the instance that the chain makes of the node there, or `None`. A
/// route that addresses nothing gives `None` for itself and leaves the others
/// as they are.
pub fn read<P: Plugin>(
    vfs: &Vfs,
    plugins: &PluginChain<P>,
    server_id: &str,
    routes: &Vec<Route>,
) -> (result: ReadResult)
    ensures
        result.items@.len() == routes@.len(),
        forall|i: int|
            0 <= i < routes@.len() ==> RbxItem::option_view(#[trigger] result.items@[i])
                == read_item(vfs.tree(), plugins@, routes@[i]@),
        result.server_id@ == server_id@,
        result.current_time == vfs.time(),
{
    let current_time = vfs.current_time();
    let mut items: Vec<Option<RbxItem>> = Vec::new();
    let mut i: usize = 0;
    while i < routes.len()
        invariant
            i <= routes.len(),
            items.len() == i,
            forall|j: int|
                0 <= j < i ==> RbxItem::option_view(#[trigger] items@[j]) == read_item(
                    vfs.tree(),
                    plugins@,
                    routes@[j]@,
                ),
        decreases routes.len() - i,
    {
        let item = match vfs.read(&routes[i]) {
            Ok(vfs_item) => plugins.transform_file(vfs_item),
            Err(_) => None,
        };
        items.push(item);
        i += 1;
    }
    ReadResult { items, server_id: server_id.to_owned(), current_time }
}

} // verus!
