//! Changes of files, here and on the server.

use vstd::prelude::*;

use crate::auth::{sign_request, signature_header, CallV};
use crate::error::{bare, fail, seen, Error, ErrorV, Fault};
use crate::events::{EventV, StreamEvent};
use crate::http::{header, host_header, request_bytes, write_request};
use crate::listing::{DirectoryEntry, DirectoryEntryKind};
use crate::locate::{client_url, resolve_client_url};
use crate::number::format_u64;
use crate::text::{concat3, same};
use crate::types::{pairs, Context, ContextV};

verus! {

/// What happened to a file or directory.
#[derive(Clone, Copy, Debug, PartialEq, Eq, Structural)]
pub enum EntryAction {
    Created,
    Modified,
    Deleted,
    Metadata,
}

/// The name of an action.
pub open spec fn action_name(a: EntryAction) -> Seq<char> {
    match a {
        EntryAction::Created => "created"@,
        EntryAction::Modified => "modified"@,
        EntryAction::Deleted => "deleted"@,
        EntryAction::Metadata => "metadata"@,
    }
}

/// The action with a name.
pub open spec fn action_named(s: Seq<char>) -> Option<EntryAction> {
    if s == "created"@ {
        Some(EntryAction::Created)
    } else if s == "modified"@ {
        Some(EntryAction::Modified)
    } else if s == "deleted"@ {
        Some(EntryAction::Deleted)
    } else if s == "metadata"@ {
        Some(EntryAction::Metadata)
    } else {
        None
    }
}

impl EntryAction {
    /// The name of the action.
    pub fn as_str(self) -> (r: &'static str)
        ensures
            r@ == action_name(self),
    {
        match self {
            EntryAction::Created => "created",
            EntryAction::Modified => "modified",
            EntryAction::Deleted => "deleted",
            EntryAction::Metadata => "metadata",
        }
    }

    /// The action with the given name.
    pub fn parse(s: &str) -> (r: Option<EntryAction>)
        ensures
            r == action_named(s@),
    {
        if same(s, "created") {
            Some(EntryAction::Created)
        } else if same(s, "modified") {
            Some(EntryAction::Modified)
        } else if same(s, "deleted") {
            Some(EntryAction::Deleted)
        } else if same(s, "metadata") {
            Some(EntryAction::Metadata)
        } else {
            None
        }
    }
}

/// Reading the name of an action gives the action back.
pub proof fn action_round_trip(a: EntryAction)
    ensures
        action_named(action_name(a)) == Some(a),
{
    reveal_strlit("created");
    reveal_strlit("modified");
    reveal_strlit("deleted");
    reveal_strlit("metadata");
    assert("created"@.len() == 7 && "modified"@.len() == 8 && "deleted"@.len() == 7 && "metadata"@.len() == 8);
    assert("created"@[0] != "deleted"@[0]);
    assert("modified"@[1] != "metadata"@[1]);
}

/// Something that happened to a file or directory.
#[derive(Debug)]
pub struct EntryEvent {
    pub action: EntryAction,
    pub kind: Option<DirectoryEntryKind>,
    pub path: String,
    /// Whether both sides had changed.
    pub conflict: bool,
}

/// The view of an event.
#[verifier::ext_equal]
pub struct EntryEventV {
    pub action: EntryAction,
    pub kind: Option<DirectoryEntryKind>,
    pub path: Seq<char>,
    pub conflict: bool,
}

impl View for EntryEvent {
    type V = EntryEventV;

    open spec fn view(&self) -> EntryEventV {
        EntryEventV { action: self.action, kind: self.kind, path: self.path@, conflict: self.conflict }
    }
}

/// The view of an optional event.
pub open spec fn opt_event(e: Option<EntryEvent>) -> Option<EntryEventV> {
    match e {
        Some(event) => Some(event@),
        None => None,
    }
}

// Here.

/// A change that the file system reports.
#[derive(Clone, Copy, Debug, PartialEq, Eq, Structural)]
pub enum Change {
    CreatedFolder,
    CreatedFile,
    CreatedOther,
    ModifiedData,
    ModifiedName,
    ModifiedOther,
    RemovedFolder,
    RemovedOther,
    Other,
}

/// The action and kind of a change, if it is one that matters.
pub open spec fn change_means(change: Change) -> Option<(EntryAction, Option<DirectoryEntryKind>)> {
    match change {
        Change::CreatedFolder => Some((EntryAction::Created, Some(DirectoryEntryKind::Dir))),
        Change::CreatedFile => Some((EntryAction::Created, Some(DirectoryEntryKind::File))),
        Change::CreatedOther => Some((EntryAction::Created, None)),
        Change::ModifiedData => Some((EntryAction::Modified, None)),
        Change::ModifiedName => Some((EntryAction::Modified, None)),
        Change::ModifiedOther => None,
        Change::RemovedFolder => Some((EntryAction::Deleted, Some(DirectoryEntryKind::Dir))),
        Change::RemovedOther => Some((EntryAction::Deleted, Some(DirectoryEntryKind::File))),
        Change::Other => None,
    }
}

/// The event that a change is.
pub fn to_entry_event_local(change: Change, path: &str) -> (r: Option<EntryEvent>)
    ensures
        opt_event(r) == (match change_means(change) {
            Some((action, kind)) => Some(EntryEventV { action, kind, path: path@, conflict: false }),
            None => None,
        }),
{
    let (action, kind) = match change {
        Change::CreatedFolder => (EntryAction::Created, Some(DirectoryEntryKind::Dir)),
        Change::CreatedFile => (EntryAction::Created, Some(DirectoryEntryKind::File)),
        Change::CreatedOther => (EntryAction::Created, None),
        Change::ModifiedData => (EntryAction::Modified, None),
        Change::ModifiedName => (EntryAction::Modified, None),
        Change::ModifiedOther => {
            return None;
        },
        Change::RemovedFolder => (EntryAction::Deleted, Some(DirectoryEntryKind::Dir)),
        Change::RemovedOther => (EntryAction::Deleted, Some(DirectoryEntryKind::File)),
        Change::Other => {
            return None;
        },
    };
    Some(EntryEvent { action, kind, path: path.to_owned(), conflict: false })
}

/// What is done about the watch of a path.
#[derive(Clone, Copy, Debug, PartialEq, Eq, Structural)]
pub struct Rewatch {
    /// Whether the watch that there is is given up.
    pub unwatch: bool,
    /// Whether a watch is placed.
    pub watch: bool,
}

/// Decides about the watch of a path, which follows the file that it was placed
/// on: it is placed anew whenever another file stands at the path.
pub fn rewatch(inode: Option<u64>, watched: Option<u64>) -> (r: Rewatch)
    ensures
        r.unwatch == (inode != watched && watched is Some),
        r.watch == (inode != watched && inode is Some),
{
    let moved = match (inode, watched) {
        (Some(a), Some(b)) => a != b,
        (None, None) => false,
        _ => true,
    };
    Rewatch { unwatch: moved && watched.is_some(), watch: moved && inode.is_some() }
}

// On the server.

/// The event that a message of the server is, given what its data was parsed to.
/// A message of another kind is passed over.
pub open spec fn remote_event(event: EventV, entry: Result<crate::listing::EntryV, ErrorV>) -> Result<
    Option<EntryEventV>,
    ErrorV,
> {
    match action_named(event.event) {
        None => Ok(None),
        Some(action) => match entry {
            Err(e) => Err(e),
            Ok(e) => Ok(Some(EntryEventV { action, kind: Some(e.kind), path: e.name, conflict: false })),
        },
    }
}

/// The event that a message of the server is, given what its data was parsed to.
pub fn to_entry_event_remote(event: &StreamEvent, entry: Result<DirectoryEntry, Error>) -> (r: Result<
    Option<EntryEvent>,
    Error,
>)
    ensures
        (match r {
            Ok(e) => Ok(opt_event(e)),
            Err(e) => Err(e@),
        }) == remote_event(event@, seen(entry)),
{
    let action = match EntryAction::parse(&event.event) {
        Some(a) => a,
        None => {
            return Ok(None);
        },
    };
    match entry {
        Ok(e) => Ok(Some(EntryEvent { action, kind: Some(e.kind), path: e.name, conflict: false })),
        Err(e) => Err(e),
    }
}

/// The bytes of a request for the changes below a path.
pub open spec fn watch_bytes(ctx: ContextV, path: Seq<char>, timestamp: nat) -> Result<Seq<u8>, ErrorV> {
    match client_url(ctx.identity.address, path) {
        Err(e) => Err(e),
        Ok(url) => match host_header(url) {
            None => Err(bare(Fault::UrlMissingHost)),
            Some(host) => match signature_header(
                ctx,
                CallV { method: "GET"@, host, path: url.path, body: Seq::empty() },
                timestamp,
            ) {
                Err(e) => Err(e),
                Ok(value) => Ok(
                    request_bytes(
                        host,
                        url.path,
                        url.query,
                        "GET"@,
                        seq![("Authorization"@, value), ("Accept"@, "text/event-stream"@)],
                        Seq::empty(),
                    ),
                ),
            },
        },
    }
}

/// Makes a request for the changes below a path.
///
/// The secret key of the account must be there.
pub fn watch_request(ctx: &Context, path: &str, timestamp: u64) -> (r: Result<Vec<u8>, Error>)
    requires
        ctx@.identity_key is Some,
    ensures
        seen(r) == watch_bytes(ctx@, path@, timestamp as nat),
{
    let url = match resolve_client_url(ctx, path) {
        Ok(u) => u,
        Err(e) => {
            return Err(e);
        },
    };
    let host = match &url.host {
        Some(h) => match url.port {
            Some(port) => concat3(h, ":", &format_u64(port as u64)),
            None => h.clone(),
        },
        None => {
            return Err(fail(Fault::UrlMissingHost));
        },
    };
    let empty: Vec<u8> = Vec::new();
    assert(empty@ =~= Seq::empty());
    let value = match sign_request(ctx, "GET", &host, &url.path, timestamp, &empty) {
        Ok(v) => v,
        Err(e) => {
            return Err(e);
        },
    };
    let mut headers: Vec<(String, String)> = Vec::new();
    let ghost shown = value@;
    headers.push(("Authorization".to_owned(), value));
    headers.push(header("Accept", "text/event-stream"));
    assert(pairs(headers@) =~= seq![("Authorization"@, shown), ("Accept"@, "text/event-stream"@)]);
    write_request(&url, "GET", &headers, &empty)
}

} // verus!
