//! What the account server decides about a request.

use vstd::prelude::*;
use vstd::utf8::encode_utf8;

use crate::auth::{
    authenticate, claim_in, find_header, find_permission, header_value, is_group_address, names_group, opt_members,
    permission_for, read_claim, requestor, CallV,
};
use crate::error::{bare, fail, message_of, seen, Error, ErrorV, Fault};
use crate::fields::{
    byte_pairs, header_fields, metadata_of, metadata_of_attributes, read_metadata_attributes, read_metadata_headers,
    write_metadata_headers,
};
use crate::http::{
    header, response_bytes, sort_pairs, sorted, text_headers, write_response, write_text, Request, RequestV,
};
use crate::listing::{content_type, entries_view, list_dir, listing, type_of, DirectoryEntry, EntryV, Layout};
use crate::membership::{copy_error, find_identity, identity_at, Directory};
use crate::metadata::{
    get_member, member_at, metadata_verified, signature_verified, verify_metadata, verify_metadata_signature,
};
use crate::number::{decimal, format_u64, format_usize};
use crate::paths::{file_name, join_names, joined_names, last_name, path_segments, segments};
use crate::primitives::{parse_url, percent_decode_text, percent_decoded, url_parts};
use crate::text::{
    before, concat, copy_bytes, cut, find, from_chars, opt_str, opt_text, part, runs, same, same_bytes, same_chars,
    split, split_on, starts_with, texts, to_chars, trim_front, trim_start, Trim,
};
use crate::types::{
    members_view, opt_hash, pairs, permission_name, Identity, IdentityV, Key, Member, MemberV, Metadata, MetadataV,
    Permission, Tagged,
};

verus! {

// Routing.

/// An answer in plain text.
#[derive(Debug)]
pub struct Reply {
    pub status: u16,
    pub body: Vec<u8>,
}

/// The view of an answer in plain text.
#[verifier::ext_equal]
pub struct ReplyV {
    pub status: u16,
    pub body: Seq<u8>,
}

impl View for Reply {
    type V = ReplyV;

    open spec fn view(&self) -> ReplyV {
        ReplyV { status: self.status, body: self.body@ }
    }
}

/// The answer with a status and a text.
pub open spec fn says(status: u16, text: Seq<char>) -> ReplyV {
    ReplyV { status, body: encode_utf8(text) }
}

fn say(status: u16, text: &str) -> (r: Reply)
    ensures
        r@ == says(status, text@),
{
    Reply { status, body: copy_bytes(text.as_bytes()) }
}

impl Reply {
    /// The bytes of the answer.
    pub fn write(&self) -> (r: Vec<u8>)
        ensures
            r@ == response_bytes(self@.status, text_headers(), self@.body),
    {
        write_text(self.status, &self.body)
    }
}

/// Where a request goes.
#[derive(Debug)]
pub struct Place {
    /// The name of the account.
    pub account: String,
    /// The path, as the request is signed.
    pub path: String,
    /// The file, from the root of the server.
    pub file: String,
    /// The query, which is not signed.
    pub query: Option<String>,
}

/// The view of a place.
#[verifier::ext_equal]
pub struct PlaceV {
    pub account: Seq<char>,
    pub path: Seq<char>,
    pub file: Seq<char>,
    pub query: Option<Seq<char>>,
}

impl View for Place {
    type V = PlaceV;

    open spec fn view(&self) -> PlaceV {
        PlaceV { account: self.account@, path: self.path@, file: self.file@, query: opt_text(self.query) }
    }
}

/// The view of the outcome of routing.
pub open spec fn placed(r: Result<Place, Reply>) -> Result<PlaceV, ReplyV> {
    match r {
        Ok(p) => Ok(p@),
        Err(e) => Err(e@),
    }
}

/// Whether a method only reads.
pub open spec fn reads(method: Seq<char>) -> bool {
    method == "GET"@ || method == "HEAD"@
}

/// Where a request for a path goes: below `/ark/<account>`, and to the account
/// itself only to read.
pub open spec fn place_of(method: Seq<char>, path: Seq<char>, query: Option<Seq<char>>) -> Result<PlaceV, ReplyV> {
    let names = segments(path);
    if names.len() < 2 || names[0] != "ark"@ {
        Err(says(403, "forbidden"@))
    } else if names.len() == 2 && !reads(method) {
        Err(says(405, "method not allowed"@))
    } else {
        Ok(PlaceV { account: names[1], path, file: trim_front(path, Trim::Slash), query })
    }
}

/// Finds out where a request for a path goes.
pub fn place_at(method: &str, path: &str, query: Option<String>) -> (r: Result<Place, Reply>)
    ensures
        placed(r) == place_of(method@, path@, opt_text(query)),
{
    let names = path_segments(path);
    assert(texts(names@).len() == names@.len());
    if names.len() < 2 {
        return Err(say(403, "forbidden"));
    }
    assert(texts(names@)[0] == names@[0]@ && texts(names@)[1] == names@[1]@);
    if !same(&names[0], "ark") {
        return Err(say(403, "forbidden"));
    }
    if names.len() == 2 && !same(method, "GET") && !same(method, "HEAD") {
        return Err(say(405, "method not allowed"));
    }
    let chars = to_chars(path);
    Ok(
        Place {
            account: names[1].clone(),
            path: path.to_owned(),
            file: from_chars(trim_start(&chars, Trim::Slash)),
            query,
        },
    )
}

/// Where a request for a target goes. The target is an absolute path, in which
/// `.` and `..` are resolved as in any URL.
pub open spec fn routed(method: Seq<char>, target: Seq<char>) -> Result<PlaceV, ReplyV> {
    if target.len() == 0 || target[0] != '/' {
        Err(says(400, "bad path"@))
    } else {
        match url_parts("http://localhost"@ + target) {
            None => Err(says(400, "bad path"@)),
            Some(url) => place_of(method, url.path, url.query),
        }
    }
}

/// Finds out where a request goes.
pub fn route(method: &str, target: &str) -> (r: Result<Place, Reply>)
    ensures
        placed(r) == routed(method@, target@),
{
    let chars = to_chars(target);
    if chars.len() == 0 || chars[0] != '/' {
        return Err(say(400, "bad path"));
    }
    match parse_url(&concat("http://localhost", target)) {
        Some(url) => place_at(method, &url.path, url.query),
        None => Err(say(400, "bad path")),
    }
}

// What is asked for in the query.

/// The value of the first pair with a name, which is empty where the pair is only
/// the name.
pub open spec fn pair_value(list: Seq<Seq<char>>, name: Seq<char>) -> Option<Seq<char>>
    decreases list.len(),
{
    if list.len() == 0 {
        None
    } else if before(list[0], '=') == name {
        match cut(list[0], '=') {
            Some((_, value)) => Some(value),
            None => Some(Seq::empty()),
        }
    } else {
        pair_value(list.skip(1), name)
    }
}

/// The value of a name in a query.
pub open spec fn query_value(query: Option<Seq<char>>, name: Seq<char>) -> Option<Seq<char>> {
    match query {
        Some(q) => pair_value(split(q, '&'), name),
        None => None,
    }
}

/// A text of a form with its plus signs made spaces.
pub open spec fn plus_to_space(s: Seq<char>) -> Seq<char> {
    s.map_values(
        |c: char|
            if c == '+' {
                ' '
            } else {
                c
            },
    )
}

/// The beginning that the names of a listing are asked to have.
pub open spec fn asked_prefix(query: Option<Seq<char>>) -> Option<Seq<char>> {
    match query_value(query, "prefix"@) {
        Some(value) => percent_decoded(plus_to_space(value)),
        None => None,
    }
}

/// Whether only the metadata of a file is to be written.
pub open spec fn only_metadata(query: Option<Seq<char>>) -> bool {
    query_value(query, "metadata"@) is Some
}

fn find_value(query: &Option<String>, name: &str) -> (r: Option<Vec<char>>)
    ensures
        (match r {
            Some(v) => Some(v@),
            None => None,
        }) == query_value(opt_text(*query), name@),
{
    let chars = match query {
        Some(q) => to_chars(q),
        None => {
            return None;
        },
    };
    let wanted = to_chars(name);
    let list = split_on(&chars, '&');
    let n: usize = list.len();
    let mut i: usize = 0;
    let ghost all = runs(list@);
    assert(all.skip(0) =~= all);
    while i < n
        invariant
            i <= n == list@.len(),
            all == runs(list@),
            wanted@ == name@,
            query_value(opt_text(*query), name@) == pair_value(all, name@),
            pair_value(all.skip(i as int), name@) == pair_value(all, name@),
        decreases n - i,
    {
        let pair = &list[i];
        let at: usize = find(pair, '=');
        let end: usize = pair.len();
        assert(all.skip(i as int)[0] == pair@);
        if same_chars(part(pair, 0, at), &wanted) {
            assert(pair@.take(at as int) =~= pair@.subrange(0, at as int));
            if at == end {
                let none: Vec<char> = Vec::new();
                assert(none@ =~= Seq::empty());
                return Some(none);
            }
            let value = part(pair, at + 1, end);
            assert(value@ =~= pair@.skip(at + 1));
            return Some(crate::text::copy_chars(value));
        }
        assert(pair@.take(at as int) =~= pair@.subrange(0, at as int));
        assert(all.skip(i as int).skip(1) =~= all.skip(i + 1));
        i = i + 1;
    }
    None
}

fn find_prefix(query: &Option<String>) -> (r: Option<String>)
    ensures
        opt_text(r) == asked_prefix(opt_text(*query)),
{
    let value = match find_value(query, "prefix") {
        Some(v) => v,
        None => {
            return None;
        },
    };
    let n: usize = value.len();
    let mut out: Vec<char> = Vec::new();
    let mut i: usize = 0;
    while i < n
        invariant
            i <= n == value@.len(),
            out@ == plus_to_space(value@).take(i as int),
        decreases n - i,
    {
        let ghost earlier = out@;
        if value[i] == '+' {
            out.push(' ');
        } else {
            out.push(value[i]);
        }
        assert(out@ =~= plus_to_space(value@).take(i + 1));
        i = i + 1;
    }
    assert(out@ =~= plus_to_space(value@));
    percent_decode_text(&from_chars(&out))
}

/// The directories above a file with these names along its path, from the nearest
/// one up to that of the account.
pub open spec fn dirs_above(names: Seq<Seq<char>>) -> Seq<Seq<char>>
    decreases names.len(),
{
    if names.len() <= 2 {
        Seq::empty()
    } else {
        seq![joined_names(names.drop_last())] + dirs_above(names.drop_last())
    }
}

/// Finds the directories above a file of an account, from the nearest one up to
/// that of the account.
pub fn directories_above(file: &str) -> (r: Vec<String>)
    ensures
        texts(r@) == dirs_above(segments(file@)),
{
    let names = path_segments(file);
    let ghost all = texts(names@);
    let mut out: Vec<String> = Vec::new();
    let mut n: usize = names.len();
    proof {
        assert(all.take(n as int) =~= all);
        assert(texts(out@) + dirs_above(all) =~= dirs_above(all));
    }
    while n > 2
        invariant
            n <= names@.len(),
            all == texts(names@),
            texts(out@) + dirs_above(all.take(n as int)) == dirs_above(all),
        decreases n,
    {
        let ghost earlier = texts(out@);
        let dir = join_names(&names, n - 1);
        let ghost added = dir@;
        out.push(dir);
        proof {
            assert(all.take(n as int).drop_last() =~= all.take(n - 1));
            assert(texts(out@) =~= earlier.push(added));
            assert(earlier + (seq![added] + dirs_above(all.take(n - 1))) =~= texts(out@) + dirs_above(
                all.take(n - 1),
            ));
        }
        n = n - 1;
    }
    assert(texts(out@) + dirs_above(all.take(n as int)) =~= texts(out@));
    out
}

// What is on disk.

/// What reading the identity of an account came to.
#[derive(Debug)]
pub enum Account {
    Present { identity: Identity },
    Absent,
    Broken { error: Error },
}

/// The view of an account.
pub enum AccountV {
    Present { identity: IdentityV },
    Absent,
    Broken { error: ErrorV },
}

impl View for Account {
    type V = AccountV;

    open spec fn view(&self) -> AccountV {
        match self {
            Account::Present { identity } => AccountV::Present { identity: identity@ },
            Account::Absent => AccountV::Absent,
            Account::Broken { error } => AccountV::Broken { error: error@ },
        }
    }
}

/// What stands at a path.
#[derive(Debug)]
pub enum Node {
    Missing,
    File { size: u64 },
    Dir { entries: Result<Vec<DirectoryEntry>, Error> },
}

/// The view of what stands at a path.
pub enum NodeV {
    Missing,
    File { size: u64 },
    Dir { entries: Result<Seq<EntryV>, ErrorV> },
}

impl View for Node {
    type V = NodeV;

    open spec fn view(&self) -> NodeV {
        match self {
            Node::Missing => NodeV::Missing,
            Node::File { size } => NodeV::File { size: *size },
            Node::Dir { entries } => NodeV::Dir {
                entries: match entries {
                    Ok(list) => Ok(entries_view(list@)),
                    Err(e) => Err(e@),
                },
            },
        }
    }
}

/// What the server finds on disk for a request.
#[derive(Debug)]
pub struct Disk {
    pub account: Account,
    /// Whether the path is a symbolic link.
    pub symlink: bool,
    /// The extended attributes of the file, or why they could not be read.
    pub attributes: Result<Vec<(String, Vec<u8>)>, Error>,
    /// Those of the directories above it, from the nearest one up.
    pub above: Vec<Result<Vec<(String, Vec<u8>)>, Error>>,
    pub node: Node,
}

/// The view of attributes, or of why they could not be read.
pub open spec fn seen_attributes(r: Result<Vec<(String, Vec<u8>)>, Error>) -> Result<Seq<(Seq<char>, Seq<u8>)>, ErrorV> {
    match r {
        Ok(list) => Ok(byte_pairs(list@)),
        Err(e) => Err(e@),
    }
}

/// The view of what is on disk.
pub struct DiskV {
    pub account: AccountV,
    pub symlink: bool,
    pub attributes: Result<Seq<(Seq<char>, Seq<u8>)>, ErrorV>,
    pub above: Seq<Result<Seq<(Seq<char>, Seq<u8>)>, ErrorV>>,
    pub node: NodeV,
}

impl View for Disk {
    type V = DiskV;

    open spec fn view(&self) -> DiskV {
        DiskV {
            account: self.account@,
            symlink: self.symlink,
            attributes: seen_attributes(self.attributes),
            above: self.above@.map_values(|r: Result<Vec<(String, Vec<u8>)>, Error>| seen_attributes(r)),
            node: self.node@,
        }
    }
}

impl Disk {
    /// Reads the metadata of the file.
    fn metadata(&self) -> (r: Result<Metadata, Error>)
        ensures
            seen(r) == self@.metadata(),
    {
        match &self.attributes {
            Ok(list) => read_metadata_attributes(list),
            Err(e) => Err(copy_error(e)),
        }
    }

    /// Finds the members of the nearest directory above the file that has
    /// metadata.
    fn inherited(&self) -> (r: Option<Metadata>)
        ensures
            match r {
                Some(m) => nearest_members(self@.above) == Some(members_view(m.members@)),
                None => nearest_members(self@.above) is None,
            },
    {
        let n: usize = self.above.len();
        let mut i: usize = 0;
        let ghost all = self@.above;
        assert(all.skip(0) =~= all);
        while i < n
            invariant
                i <= n == self.above@.len(),
                all == self@.above,
                nearest_members(all.skip(i as int)) == nearest_members(all),
            decreases n - i,
        {
            assert(all.skip(i as int)[0] == seen_attributes(self.above@[i as int]));
            assert(all.skip(i as int).skip(1) =~= all.skip(i + 1));
            if let Ok(list) = &self.above[i] {
                if let Ok(m) = read_metadata_attributes(list) {
                    return Some(m);
                }
            }
            i = i + 1;
        }
        None
    }
}

/// The members of the first of some directories that has metadata.
pub open spec fn nearest_members(above: Seq<Result<Seq<(Seq<char>, Seq<u8>)>, ErrorV>>) -> Option<Seq<MemberV>>
    decreases above.len(),
{
    if above.len() == 0 {
        None
    } else {
        match above[0] {
            Ok(list) => match metadata_of_attributes(list) {
                Ok(m) => Some(m.members),
                Err(_) => nearest_members(above.skip(1)),
            },
            Err(_) => nearest_members(above.skip(1)),
        }
    }
}

impl DiskV {
    /// The metadata of the file.
    pub open spec fn metadata(self) -> Result<MetadataV, ErrorV> {
        match self.attributes {
            Ok(list) => metadata_of_attributes(list),
            Err(e) => Err(e),
        }
    }

    /// The members of the file, when it has metadata.
    pub open spec fn members(self) -> Option<Seq<MemberV>> {
        match self.metadata() {
            Ok(m) => Some(m.members),
            Err(_) => None,
        }
    }

    /// The members that count for the file: its own, and where it has none those of
    /// the nearest directory above it that has any.
    pub open spec fn granted(self) -> Option<Seq<MemberV>> {
        match self.members() {
            Some(list) => Some(list),
            None => nearest_members(self.above),
        }
    }
}

// What to do.

/// What is written.
#[derive(Clone, Copy, Debug, PartialEq, Eq, Structural)]
pub enum Content {
    /// A file with the body of the request.
    Body,
    /// A directory.
    Dir,
    /// Nothing but the metadata: what is there stays.
    Kept,
}

/// What the server does about a request.
#[derive(Debug)]
pub enum Action {
    /// Answer with these bytes.
    Answer { bytes: Vec<u8> },
    /// Answer with this head, and then with the file if `send`.
    File { head: Vec<u8>, send: bool },
    /// Write this, with this metadata, and answer with this status.
    Store { metadata: Metadata, content: Content, status: u16 },
    /// Remove the file, or the directory with all that is in it.
    Remove { dir: bool },
    /// Find out the identity of this address, and decide again.
    Lookup { address: String },
    /// Close the connection.
    Fail { error: Error },
}

/// The view of an action.
pub enum ActionV {
    Answer { bytes: Seq<u8> },
    File { head: Seq<u8>, send: bool },
    Store { metadata: MetadataV, content: Content, status: u16 },
    Remove { dir: bool },
    Lookup { address: Seq<char> },
    Fail { error: ErrorV },
}

impl View for Action {
    type V = ActionV;

    open spec fn view(&self) -> ActionV {
        match self {
            Action::Answer { bytes } => ActionV::Answer { bytes: bytes@ },
            Action::File { head, send } => ActionV::File { head: head@, send: *send },
            Action::Store { metadata, content, status } => ActionV::Store {
                metadata: metadata@,
                content: *content,
                status: *status,
            },
            Action::Remove { dir } => ActionV::Remove { dir: *dir },
            Action::Lookup { address } => ActionV::Lookup { address: address@ },
            Action::Fail { error } => ActionV::Fail { error: error@ },
        }
    }
}

/// The action of giving a short answer.
pub open spec fn answer(status: u16, text: Seq<char>) -> ActionV {
    ActionV::Answer { bytes: response_bytes(status, text_headers(), encode_utf8(text)) }
}

fn reply(status: u16, text: &str) -> (r: Action)
    ensures
        r@ == answer(status, text@),
{
    Action::Answer { bytes: write_text(status, text.as_bytes()) }
}

/// The answer to a request that was stored.
pub fn stored(status: u16) -> (r: Vec<u8>)
    ensures
        r@ == response_bytes(status, text_headers(), Seq::empty()),
{
    let none: Vec<u8> = Vec::new();
    assert(none@ =~= Seq::empty());
    write_text(status, &none)
}

/// The answer to a request to remove a file, once that was tried.
pub fn removed(done: bool) -> (r: Vec<u8>)
    ensures
        r@ == (if done {
            response_bytes(204, text_headers(), Seq::empty())
        } else {
            response_bytes(500, text_headers(), encode_utf8("delete failed"@))
        }),
{
    if done {
        stored(204)
    } else {
        write_text(500, "delete failed".as_bytes())
    }
}

// Reading.

/// The headers of a directory listing.
pub open spec fn listing_headers(length: nat) -> Seq<(Seq<char>, Seq<char>)> {
    seq![
        ("Content-Type"@, "application/json"@),
        ("Content-Length"@, decimal(length)),
        ("Connection"@, "close"@),
    ]
}

/// The headers of a directory: its metadata, where it has any, and those of the
/// listing.
pub open spec fn dir_headers(metadata: Result<MetadataV, ErrorV>, length: nat) -> Seq<(Seq<char>, Seq<char>)> {
    (match metadata {
        Ok(m) => header_fields(m),
        Err(_) => Seq::empty(),
    }) + listing_headers(length)
}

/// The entries whose names begin with a text.
pub open spec fn entries_with(list: Seq<EntryV>, prefix: Option<Seq<char>>) -> Seq<EntryV>
    decreases list.len(),
{
    if list.len() == 0 {
        list
    } else {
        let rest = entries_with(list.drop_last(), prefix);
        match prefix {
            Some(p) if !p.is_prefix_of(list.last().name) => rest,
            _ => rest.push(list.last()),
        }
    }
}

/// The headers of a file.
pub open spec fn file_headers(m: MetadataV, file: Seq<char>, size: nat) -> Seq<(Seq<char>, Seq<char>)> {
    header_fields(m).push(("Content-Type"@, type_of(file_name(file)))).push(("Content-Length"@, decimal(size))).push(
        ("Connection"@, "close"@),
    )
}

/// What is done about reading a file or directory.
pub open spec fn got(disk: DiskV, file: Seq<char>, prefix: Option<Seq<char>>, send: bool) -> ActionV {
    match disk.node {
        NodeV::Missing => answer(404, "not found"@),
        NodeV::Dir { entries } => match entries {
            Err(error) => ActionV::Fail { error },
            Ok(list) => {
                let body = encode_utf8(listing(entries_with(list, prefix), Layout::Account));
                ActionV::Answer {
                    bytes: response_bytes(
                        200,
                        dir_headers(disk.metadata(), body.len()),
                        if send {
                            body
                        } else {
                            Seq::empty()
                        },
                    ),
                }
            },
        },
        NodeV::File { size } => match disk.metadata() {
            Err(e) => answer(500, message_of(e)),
            Ok(m) => ActionV::File {
                head: response_bytes(200, file_headers(m, file, size as nat), Seq::empty()),
                send,
            },
        },
    }
}

fn add_header(headers: &mut Vec<(String, String)>, name: &str, value: &str)
    ensures
        pairs(final(headers)@) == pairs(old(headers)@).push((name@, value@)),
{
    headers.push(header(name, value));
    assert(pairs(headers@) =~= pairs(old(headers)@).push((name@, value@)));
}

fn head_of_listing(metadata: &Result<Metadata, Error>, length: usize) -> (r: Vec<(String, String)>)
    ensures
        pairs(r@) == dir_headers(seen(*metadata), length as nat),
{
    let mut headers: Vec<(String, String)> = match metadata {
        Ok(m) => write_metadata_headers(m),
        Err(_) => Vec::new(),
    };
    let ghost start = pairs(headers@);
    assert(metadata is Err ==> start =~= Seq::empty());
    add_header(&mut headers, "Content-Type", "application/json");
    add_header(&mut headers, "Content-Length", &format_usize(length));
    add_header(&mut headers, "Connection", "close");
    assert(pairs(headers@) =~= start + listing_headers(length as nat));
    headers
}

fn select_entries(entries: &[DirectoryEntry], prefix: Option<&str>) -> (r: Vec<DirectoryEntry>)
    ensures
        entries_view(r@) == entries_with(entries_view(entries@), opt_str(prefix)),
{
    let wanted: Vec<char> = match prefix {
        Some(p) => to_chars(p),
        None => Vec::new(),
    };
    let mut out: Vec<DirectoryEntry> = Vec::new();
    let n: usize = entries.len();
    let mut i: usize = 0;
    let ghost all = entries_view(entries@);
    assert(entries_view(out@) =~= entries_with(all.take(0), opt_str(prefix)));
    while i < n
        invariant
            i <= n == entries@.len(),
            all == entries_view(entries@),
            prefix matches Some(p) ==> wanted@ == p@,
            entries_view(out@) == entries_with(all.take(i as int), opt_str(prefix)),
        decreases n - i,
    {
        assert(all.take(i + 1).drop_last() =~= all.take(i as int));
        assert(all.take(i + 1).last() == entries@[i as int]@);
        let keep = match prefix {
            Some(_) => starts_with(&to_chars(&entries[i].name), &wanted),
            None => true,
        };
        if keep {
            let ghost earlier = entries_view(out@);
            let e = &entries[i];
            out.push(DirectoryEntry { kind: e.kind, name: e.name.clone(), size: e.size });
            assert(entries_view(out@) =~= earlier.push(entries@[i as int]@));
        }
        i = i + 1;
    }
    assert(all.take(n as int) =~= all);
    out
}

fn head_of_file(metadata: &Metadata, file: &str, size: u64) -> (r: Vec<(String, String)>)
    ensures
        pairs(r@) == file_headers(metadata@, file@, size as nat),
{
    let mut headers = write_metadata_headers(metadata);
    let name = last_name(file);
    add_header(&mut headers, "Content-Type", content_type(&name));
    add_header(&mut headers, "Content-Length", &format_u64(size));
    add_header(&mut headers, "Connection", "close");
    headers
}

/// Decides about reading a file or directory.
pub fn serve_get(disk: &Disk, file: &str, prefix: Option<&str>, send_body: bool) -> (r: Action)
    ensures
        r@ == got(disk@, file@, opt_str(prefix), send_body),
{
    let none: Vec<u8> = Vec::new();
    assert(none@ =~= Seq::empty());
    match &disk.node {
        Node::Missing => reply(404, "not found"),
        Node::Dir { entries } => match entries {
            Err(e) => Action::Fail { error: copy_error(e) },
            Ok(list) => {
                let text = list_dir(&select_entries(list, prefix), Layout::Account);
                let body = text.as_str().as_bytes();
                let headers = head_of_listing(&disk.metadata(), body.len());
                if send_body {
                    Action::Answer { bytes: write_response(200, &headers, body) }
                } else {
                    Action::Answer { bytes: write_response(200, &headers, &none) }
                }
            },
        },
        Node::File { size } => match disk.metadata() {
            Err(e) => reply(500, &e.message()),
            Ok(m) => {
                let headers = head_of_file(&m, file, *size);
                Action::File { head: write_response(200, &headers, &none), send: send_body }
            },
        },
    }
}

// Writing.

/// Who may do what, by address.
pub open spec fn roles(members: Seq<MemberV>) -> Seq<(Seq<char>, Seq<char>)> {
    members.map_values(|m: MemberV| (m.address, permission_name(m.permission)))
}

/// Whether two lists of members give anyone a different role. The order of the
/// members does not matter, nor do their keys.
pub open spec fn differ(old_members: Seq<MemberV>, new_members: Seq<MemberV>) -> bool {
    sorted(roles(old_members)) != sorted(roles(new_members))
}

fn list_roles(members: &[Member]) -> (r: Vec<(String, String)>)
    ensures
        pairs(r@) == roles(members_view(members@)),
{
    let mut out: Vec<(String, String)> = Vec::new();
    let n: usize = members.len();
    let mut i: usize = 0;
    let ghost all = roles(members_view(members@));
    while i < n
        invariant
            i <= n == members@.len(),
            all == roles(members_view(members@)),
            pairs(out@) == all.take(i as int),
        decreases n - i,
    {
        let ghost earlier = pairs(out@);
        out.push((members[i].address.clone(), members[i].permission.as_str().to_owned()));
        proof {
            assert(pairs(out@) =~= earlier.push(all[i as int]));
            assert(all.take(i + 1) =~= all.take(i as int).push(all[i as int]));
        }
        i = i + 1;
    }
    assert(all.take(n as int) =~= all);
    out
}

fn same_pairs(a: &[(String, String)], b: &[(String, String)]) -> (r: bool)
    ensures
        r == (pairs(a@) == pairs(b@)),
{
    assert(pairs(a@).len() == a@.len() && pairs(b@).len() == b@.len());
    if a.len() != b.len() {
        return false;
    }
    let n: usize = a.len();
    let mut i: usize = 0;
    while i < n
        invariant
            i <= n == a@.len() == b@.len(),
            forall|k: int| 0 <= k < i ==> #[trigger] pairs(a@)[k] == pairs(b@)[k],
        decreases n - i,
    {
        if !same(&a[i].0, &b[i].0) || !same(&a[i].1, &b[i].1) {
            assert(pairs(a@)[i as int] != pairs(b@)[i as int]);
            return false;
        }
        i = i + 1;
    }
    assert(pairs(a@) =~= pairs(b@));
    true
}

/// Whether two lists of members give anyone a different role.
pub fn members_differ(old_members: &[Member], new_members: &[Member]) -> (r: bool)
    ensures
        r == differ(members_view(old_members@), members_view(new_members@)),
{
    let a = sort_pairs(&list_roles(old_members));
    let b = sort_pairs(&list_roles(new_members));
    !same_pairs(&a, &b)
}

/// Whether the identity of an address is known.
pub open spec fn known(
    own: IdentityV,
    dir: Seq<(Seq<char>, Result<IdentityV, ErrorV>)>,
    address: Seq<char>,
) -> bool {
    address == own.address || exists|i: int| 0 <= i < dir.len() && (#[trigger] dir[i]).0 == address
}

/// Whether the identity of an address is known.
pub fn is_known(own: &Identity, directory: &Directory, address: &str) -> (r: bool)
    ensures
        r == known(own@, directory@, address@),
{
    if same(address, &own.address) {
        return true;
    }
    let n: usize = directory.entries.len();
    let mut i: usize = 0;
    while i < n
        invariant
            i <= n == directory.entries@.len(),
            address@ != own@.address,
            forall|k: int| 0 <= k < i ==> (#[trigger] directory@[k]).0 != address@,
        decreases n - i,
    {
        assert(directory@[i as int] == directory.entries@[i as int]@);
        if same(&directory.entries[i].address, address) {
            return true;
        }
        i = i + 1;
    }
    false
}

/// Whether metadata belongs to what is to be written: to the body of a file, to a
/// directory, which has none, or, where only the metadata is, to the file that is
/// there.
pub open spec fn content_checked(
    public: Tagged,
    m: MetadataV,
    existing: Result<MetadataV, ErrorV>,
    body: Seq<u8>,
    metadata_only: bool,
) -> Result<Content, ErrorV> {
    if metadata_only {
        match signature_verified(public, m) {
            Err(e) => Err(e),
            Ok(_) => match existing {
                Err(e) => Err(e),
                Ok(old_metadata) => if m.body_hash == old_metadata.body_hash {
                    Ok(Content::Kept)
                } else {
                    Err(bare(Fault::BodyHashMismatch))
                },
            },
        }
    } else {
        let dir = m.body_hash is None && body.len() == 0;
        match metadata_verified(
            public,
            m,
            if dir {
                None
            } else {
                Some(body)
            },
        ) {
            Err(e) => Err(e),
            Ok(_) => Ok(
                if dir {
                    Content::Dir
                } else {
                    Content::Body
                },
            ),
        }
    }
}

fn same_hash(a: &Option<crate::types::Hash>, b: &Option<crate::types::Hash>) -> (r: bool)
    ensures
        r == (opt_hash(*a) == opt_hash(*b)),
{
    match (a, b) {
        (Some(x), Some(y)) => {
            let r = same(&x.algorithm, &y.algorithm) && same_bytes(&x.value, &y.value);
            assert(r ==> x@ =~= y@);
            r
        },
        (None, None) => true,
        _ => false,
    }
}

fn check_content(
    public_key: &Key,
    metadata: &Metadata,
    existing: &Result<Metadata, Error>,
    body: &[u8],
    metadata_only: bool,
) -> (r: Result<Content, Error>)
    ensures
        (match r {
            Ok(c) => Ok(c),
            Err(e) => Err(e@),
        }) == content_checked(public_key@, metadata@, seen(*existing), body@, metadata_only),
{
    if metadata_only {
        match verify_metadata_signature(public_key, metadata) {
            Ok(()) => {},
            Err(e) => {
                return Err(e);
            },
        }
        return match existing {
            Err(e) => Err(copy_error(e)),
            Ok(old_metadata) => if same_hash(&metadata.body_hash, &old_metadata.body_hash) {
                Ok(Content::Kept)
            } else {
                Err(fail(Fault::BodyHashMismatch))
            },
        };
    }
    let dir = metadata.body_hash.is_none() && body.len() == 0;
    let checked = if dir {
        verify_metadata(public_key, metadata, None)
    } else {
        verify_metadata(public_key, metadata, Some(body))
    };
    match checked {
        Ok(()) => if dir {
            Ok(Content::Dir)
        } else {
            Ok(Content::Body)
        },
        Err(e) => Err(e),
    }
}

/// What is done about writing a file or directory.
pub open spec fn written(
    target: IdentityV,
    dir: Seq<(Seq<char>, Result<IdentityV, ErrorV>)>,
    disk: DiskV,
    headers: Seq<(Seq<char>, Seq<char>)>,
    body: Seq<u8>,
    metadata_only: bool,
    permission: Permission,
) -> ActionV {
    match metadata_of(headers) {
        Err(e) => answer(400, message_of(e)),
        Ok(m) => if !known(target, dir, m.modified_by) {
            ActionV::Lookup { address: m.modified_by }
        } else {
            match identity_at(target, dir, m.modified_by) {
                Err(e) => answer(403, message_of(e)),
                Ok(modifier) => match content_checked(modifier.public_key, m, disk.metadata(), body, metadata_only) {
                    Err(e) => answer(403, message_of(e)),
                    Ok(content) => if disk.members() matches Some(old_members) && differ(old_members, m.members)
                        && permission != Permission::Owner {
                        answer(403, "owner permission required to change members"@)
                    } else {
                        ActionV::Store {
                            metadata: m,
                            content,
                            status: if disk.node is Missing {
                                201
                            } else {
                                204
                            },
                        }
                    },
                },
            }
        },
    }
}

/// Decides about writing a file or directory.
pub fn serve_put(
    target_identity: &Identity,
    directory: &Directory,
    disk: &Disk,
    headers: &[(String, String)],
    body: &[u8],
    metadata_only: bool,
    permission: Permission,
) -> (r: Action)
    ensures
        r@ == written(target_identity@, directory@, disk@, pairs(headers@), body@, metadata_only, permission),
{
    let metadata = match read_metadata_headers(headers) {
        Ok(m) => m,
        Err(e) => {
            return reply(400, &e.message());
        },
    };
    if !is_known(target_identity, directory, &metadata.modified_by) {
        return Action::Lookup { address: metadata.modified_by };
    }
    let modifier = match find_identity(target_identity, directory, &metadata.modified_by) {
        Ok(i) => i,
        Err(e) => {
            return reply(403, &e.message());
        },
    };
    let existing = disk.metadata();
    let content = match check_content(&modifier.public_key, &metadata, &existing, body, metadata_only) {
        Ok(c) => c,
        Err(e) => {
            return reply(403, &e.message());
        },
    };
    match &existing {
        Ok(m) => {
            if members_differ(&m.members, &metadata.members) && permission != Permission::Owner {
                return reply(403, "owner permission required to change members");
            }
        },
        Err(_) => {},
    }
    let status: u16 = match &disk.node {
        Node::Missing => 201,
        _ => 204,
    };
    Action::Store { metadata, content, status }
}

/// What is done about removing a file or directory.
pub open spec fn deleted(node: NodeV) -> ActionV {
    match node {
        NodeV::Missing => answer(404, "not found"@),
        NodeV::Dir { entries } => ActionV::Remove { dir: true },
        NodeV::File { size } => ActionV::Remove { dir: false },
    }
}

/// Decides about removing a file or directory.
pub fn serve_delete(disk: &Disk) -> (r: Action)
    ensures
        r@ == deleted(disk@.node),
{
    match &disk.node {
        Node::Missing => reply(404, "not found"),
        Node::Dir { entries } => Action::Remove { dir: true },
        Node::File { size } => Action::Remove { dir: false },
    }
}

// The whole of it.

/// What is signed of a request for a place.
pub open spec fn call_of(request: RequestV, place: PlaceV) -> CallV {
    CallV {
        method: request.method,
        host: match header_value(request.headers, "host"@) {
            Some(h) => h,
            None => Seq::empty(),
        },
        path: place.path,
        body: request.body,
    }
}

/// Whether everyone is a member.
pub open spec fn is_public(members: Option<Seq<MemberV>>) -> bool {
    members matches Some(list) && member_at(list, "*"@) is Some
}

/// What is done about a request by an account with a permission.
pub open spec fn permitted(
    request: RequestV,
    place: PlaceV,
    target: IdentityV,
    disk: DiskV,
    dir: Seq<(Seq<char>, Result<IdentityV, ErrorV>)>,
    permission: Permission,
) -> ActionV {
    if permission == Permission::Reader && (request.method == "PUT"@ || request.method == "DELETE"@) {
        answer(403, "write permission required"@)
    } else if request.method == "GET"@ {
        got(disk, place.file, asked_prefix(place.query), true)
    } else if request.method == "HEAD"@ {
        got(disk, place.file, asked_prefix(place.query), false)
    } else if request.method == "PUT"@ {
        written(target, dir, disk, request.headers, request.body, only_metadata(place.query), permission)
    } else if request.method == "DELETE"@ {
        deleted(disk.node)
    } else {
        answer(405, "method not allowed"@)
    }
}

/// The address that a request claims to come from, when its identity is not
/// known yet.
pub open spec fn unknown_claimant(
    headers: Seq<(Seq<char>, Seq<char>)>,
    target: IdentityV,
    dir: Seq<(Seq<char>, Result<IdentityV, ErrorV>)>,
) -> Option<Seq<char>> {
    match header_value(headers, "authorization"@) {
        None => None,
        Some(value) => match claim_in(value) {
            Err(_) => None,
            Ok(claim) => if known(target, dir, claim.address) {
                None
            } else {
                Some(claim.address)
            },
        },
    }
}

/// The first group among members whose identity is not known yet.
pub open spec fn unknown_group(
    target: IdentityV,
    dir: Seq<(Seq<char>, Result<IdentityV, ErrorV>)>,
    members: Seq<MemberV>,
) -> Option<Seq<char>>
    decreases members.len(),
{
    if members.len() == 0 {
        None
    } else if names_group(members[0].address) && !known(target, dir, members[0].address) {
        Some(members[0].address)
    } else {
        unknown_group(target, dir, members.skip(1))
    }
}

/// The group that has to be looked up to know what an account may do: none for
/// the owner of the account.
pub open spec fn unknown_group_for(
    target: IdentityV,
    dir: Seq<(Seq<char>, Result<IdentityV, ErrorV>)>,
    requestor: Seq<char>,
    members: Option<Seq<MemberV>>,
) -> Option<Seq<char>> {
    match members {
        Some(list) if requestor != target.address => unknown_group(target, dir, list),
        _ => None,
    }
}

/// What is done about a request.
pub open spec fn handled(
    request: RequestV,
    place: PlaceV,
    disk: DiskV,
    dir: Seq<(Seq<char>, Result<IdentityV, ErrorV>)>,
    now: nat,
) -> ActionV {
    match disk.account {
        AccountV::Absent => answer(403, "forbidden"@),
        AccountV::Broken { error } => ActionV::Fail { error },
        AccountV::Present { identity: target } => if disk.symlink {
            answer(403, "symlinks not allowed"@)
        } else if is_public(disk.members()) && reads(request.method) {
            got(disk, place.file, asked_prefix(place.query), request.method == "GET"@)
        } else {
            match unknown_claimant(request.headers, target, dir) {
                Some(address) => ActionV::Lookup { address },
                None => match requestor(target, dir, request.headers, now, call_of(request, place)) {
                    Err(e) => answer(401, message_of(e)),
                    Ok(who) => match unknown_group_for(target, dir, who.address, disk.granted()) {
                        Some(address) => ActionV::Lookup { address },
                        None => match permission_for(target, dir, who.address, disk.granted()) {
                            Err(e) => answer(403, message_of(e)),
                            Ok(permission) => permitted(request, place, target, disk, dir, permission),
                        },
                    },
                },
            }
        },
    }
}

fn claimant(headers: &[(String, String)], target: &Identity, directory: &Directory) -> (r: Option<String>)
    ensures
        opt_text(r) == unknown_claimant(pairs(headers@), target@, directory@),
{
    let value = match find_header(headers, "authorization") {
        Some(v) => v,
        None => {
            return None;
        },
    };
    match read_claim(&value) {
        Err(_) => None,
        Ok(claim) => if is_known(target, directory, &claim.address) {
            None
        } else {
            Some(claim.address)
        },
    }
}

fn find_unknown_group(target: &Identity, directory: &Directory, members: &[Member]) -> (r: Option<String>)
    ensures
        opt_text(r) == unknown_group(target@, directory@, members_view(members@)),
{
    let n: usize = members.len();
    let mut i: usize = 0;
    let ghost all = members_view(members@);
    assert(all.skip(0) =~= all);
    while i < n
        invariant
            i <= n == members@.len(),
            all == members_view(members@),
            unknown_group(target@, directory@, all.skip(i as int)) == unknown_group(target@, directory@, all),
        decreases n - i,
    {
        assert(all.skip(i as int)[0] == members@[i as int]@);
        let address = &members[i].address;
        if is_group_address(address) && !is_known(target, directory, address) {
            return Some(address.clone());
        }
        assert(all.skip(i as int).skip(1) =~= all.skip(i + 1));
        i = i + 1;
    }
    None
}

/// Decides about a request.
///
/// Where the decision depends on an identity that is not known yet, it is to
/// look that up first.
pub fn handle(request: &Request, place: &Place, disk: &Disk, directory: &Directory, now: u64) -> (r: Action)
    ensures
        r@ == handled(request@, place@, disk@, directory@, now as nat),
{
    let target = match &disk.account {
        Account::Absent => {
            return reply(403, "forbidden");
        },
        Account::Broken { error } => {
            return Action::Fail { error: copy_error(error) };
        },
        Account::Present { identity } => identity,
    };
    if disk.symlink {
        return reply(403, "symlinks not allowed");
    }
    let metadata = disk.metadata();
    let existing: Option<&[Member]> = match &metadata {
        Ok(m) => Some(m.members.as_slice()),
        Err(_) => None,
    };
    assert(opt_members(existing) == disk@.members());
    let prefix = find_prefix(&place.query);
    let prefix: Option<&str> = match &prefix {
        Some(p) => Some(p.as_str()),
        None => None,
    };
    assert(opt_str(prefix) == asked_prefix(place@.query));
    let get = same(&request.method, "GET");
    let head = same(&request.method, "HEAD");
    if get || head {
        if let Some(members) = existing {
            if get_member(members, "*").is_some() {
                return serve_get(disk, &place.file, prefix, get);
            }
        }
    }
    if let Some(address) = claimant(&request.headers, target, directory) {
        return Action::Lookup { address };
    }
    let host = match find_header(&request.headers, "host") {
        Some(h) => h,
        None => String::new(),
    };
    proof {
        if header_value(request@.headers, "host"@) is None {
            assert(host@ =~= Seq::<char>::empty());
        }
        assert(call_of(request@, place@) =~= CallV {
            method: request@.method,
            host: host@,
            path: place@.path,
            body: request@.body,
        });
    }
    let who = match authenticate(
        target,
        directory,
        &request.method,
        &host,
        &place.path,
        &request.headers,
        &request.body,
        now,
    ) {
        Ok(i) => i,
        Err(e) => {
            return reply(401, &e.message());
        },
    };
    let inherited = disk.inherited();
    let granted: Option<&[Member]> = match existing {
        Some(members) => Some(members),
        None => match &inherited {
            Some(m) => Some(m.members.as_slice()),
            None => None,
        },
    };
    assert(opt_members(granted) == disk@.granted());
    if let Some(members) = granted {
        if !same(&who.address, &target.address) {
            if let Some(address) = find_unknown_group(target, directory, members) {
                return Action::Lookup { address };
            }
        }
    }
    let permission = match find_permission(target, directory, &who, granted) {
        Ok(p) => p,
        Err(e) => {
            return reply(403, &e.message());
        },
    };
    let put = same(&request.method, "PUT");
    let delete = same(&request.method, "DELETE");
    if permission == Permission::Reader && (put || delete) {
        return reply(403, "write permission required");
    }
    if get {
        serve_get(disk, &place.file, prefix, true)
    } else if head {
        serve_get(disk, &place.file, prefix, false)
    } else if put {
        let metadata_only = find_value(&place.query, "metadata").is_some();
        serve_put(target, directory, disk, &request.headers, &request.body, metadata_only, permission)
    } else if delete {
        serve_delete(disk)
    } else {
        reply(405, "method not allowed")
    }
}

} // verus!
