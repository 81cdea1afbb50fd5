//! Keeping local files and the server in step.

use vstd::prelude::*;

use crate::error::{bare, fail, fail_with, message_of, seen, with, Error, ErrorV, Fault};
use crate::fields::{
    byte_pairs, local_of, metadata_of, metadata_of_attributes, read_local_metadata_attributes,
    read_metadata_attributes, read_metadata_headers,
};
use crate::http::{request_read, sort_pairs, sorted, RequestV};
use crate::identity::{address_parts, parse_address};
use crate::listing::{entries_view, DirectoryEntry, DirectoryEntryKind, EntryV};
use crate::log::{entry_in, logged_request_is_read_back, parse_request_entry, recorded};
use crate::paths::{below, beside, path_beside, strip_root};
use crate::primitives::{sha256, sha256_of};
use crate::proposals::is_log;
use crate::sealing::{carries_id, has_id};
use crate::text::{
    after_prefix, before, comes_before, concat, concat3, cut, ends_with, find, from_chars, opt_bytes, opt_str, opt_text,
    part, precedes, same, same_bytes, strip_prefix, texts, to_chars, trim_back, trim_end, up_to, Trim,
};
use crate::types::{pairs, Context, LocalMetadata, LocalV, Metadata, MetadataV};
use crate::watch::{EntryAction, EntryEvent, EntryEventV};
use crate::wire::{in_order, sorting_keeps_headers, sorting_orders_headers};

verus! {

// What differs.

/// A file or directory that is kept in step, and what has changed.
#[derive(Debug)]
pub struct SyncEntry {
    pub relative_path: String,
    pub modified_local_body: bool,
    pub modified_remote_body: bool,
    pub modified_remote_metadata: bool,
}

/// The view of an entry.
#[verifier::ext_equal]
pub struct SyncEntryV {
    pub relative_path: Seq<char>,
    pub modified_local_body: bool,
    pub modified_remote_body: bool,
    pub modified_remote_metadata: bool,
}

impl View for SyncEntry {
    type V = SyncEntryV;

    open spec fn view(&self) -> SyncEntryV {
        SyncEntryV {
            relative_path: self.relative_path@,
            modified_local_body: self.modified_local_body,
            modified_remote_body: self.modified_remote_body,
            modified_remote_metadata: self.modified_remote_metadata,
        }
    }
}

/// The views of entries.
pub open spec fn sync_view(list: Seq<SyncEntry>) -> Seq<SyncEntryV> {
    list.map_values(|e: SyncEntry| e@)
}

/// The view of an optional entry.
pub open spec fn opt_entry(e: Option<SyncEntry>) -> Option<SyncEntryV> {
    match e {
        Some(entry) => Some(entry@),
        None => None,
    }
}

/// What has changed here, of a file with content or of a directory, which has
/// none. What carries no mark of an earlier upload or download is left alone, and
/// so is a file that is encrypted at rest.
pub open spec fn local_change(path: Seq<char>, local: LocalV, content: Option<Seq<u8>>) -> Option<SyncEntryV> {
    let kept = match content {
        Some(_) => local.sync_hash is Some && local.encrypted != Some(true),
        None => local.sync_modified is Some,
    };
    if !kept {
        None
    } else {
        Some(
            SyncEntryV {
                relative_path: path,
                modified_local_body: match (local.sync_hash, content) {
                    (Some(hash), Some(body)) => hash != sha256_of(body),
                    _ => false,
                },
                modified_remote_body: false,
                modified_remote_metadata: false,
            },
        )
    }
}

/// Finds out what has changed here.
pub fn check_entry(relative_path: &str, attributes: &[(String, Vec<u8>)], content: Option<&[u8]>) -> (r: Result<
    Option<SyncEntry>,
    Error,
>)
    ensures
        (match r {
            Ok(e) => Ok(opt_entry(e)),
            Err(e) => Err(e@),
        }) == (match local_of(byte_pairs(attributes@)) {
            Ok(local) => Ok(local_change(relative_path@, local, crate::metadata::opt_body(content))),
            Err(e) => Err(e),
        }),
{
    let local = match read_local_metadata_attributes(attributes) {
        Ok(l) => l,
        Err(e) => {
            return Err(e);
        },
    };
    let kept = match content {
        Some(_) => local.sync_hash.is_some() && !(local.encrypted == Some(true)),
        None => local.sync_modified.is_some(),
    };
    if !kept {
        return Ok(None);
    }
    let modified_local_body = match (&local.sync_hash, content) {
        (Some(hash), Some(body)) => !same_bytes(hash, &sha256(body)),
        _ => false,
    };
    Ok(
        Some(
            SyncEntry {
                relative_path: relative_path.to_owned(),
                modified_local_body,
                modified_remote_body: false,
                modified_remote_metadata: false,
            },
        ),
    )
}

/// A file on the server, as the log has it, and what there is of it here.
#[derive(Debug)]
pub struct Remote {
    pub relative_path: String,
    pub metadata: Metadata,
    /// Whether there is something at the path here.
    pub exists: bool,
    /// The attributes of what is here.
    pub attributes: Vec<(String, Vec<u8>)>,
}

/// The view of a file on the server.
#[verifier::ext_equal]
pub struct RemoteV {
    pub relative_path: Seq<char>,
    pub metadata: MetadataV,
    pub exists: bool,
    pub attributes: Seq<(Seq<char>, Seq<u8>)>,
}

impl View for Remote {
    type V = RemoteV;

    open spec fn view(&self) -> RemoteV {
        RemoteV {
            relative_path: self.relative_path@,
            metadata: self.metadata@,
            exists: self.exists,
            attributes: byte_pairs(self.attributes@),
        }
    }
}

/// The views of files on the server.
pub open spec fn remotes_view(list: Seq<Remote>) -> Seq<RemoteV> {
    list.map_values(|r: Remote| r@)
}

impl RemoteV {
    /// Whether what is here carries metadata.
    pub open spec fn has_copy(self) -> bool {
        self.exists && carries_id(self.attributes)
    }

    /// Whether what is here is encrypted at rest.
    pub open spec fn at_rest(self) -> bool {
        self.has_copy() && match local_of(self.attributes) {
            Ok(local) => local.encrypted == Some(true),
            Err(_) => false,
        }
    }

    /// Whether a directory is meant.
    pub open spec fn is_dir(self) -> bool {
        self.metadata.body_hash is None
    }
}

/// What is known of a copy: the hash of the body that its metadata was signed
/// for, and the time of the last change that it has seen.
pub open spec fn copy_state(r: RemoteV) -> Result<(Option<Seq<u8>>, Option<Seq<char>>), ErrorV> {
    if !r.has_copy() {
        Ok((None, None))
    } else {
        match metadata_of_attributes(r.attributes) {
            Err(e) => Err(e),
            Ok(m) => match local_of(r.attributes) {
                Err(e) => Err(e),
                Ok(local) => Ok(
                    (
                        match m.body_hash {
                            Some(hash) => Some(hash.value),
                            None => None,
                        },
                        match local.sync_modified {
                            Some(t) => Some(t),
                            None => Some(m.modified),
                        },
                    ),
                ),
            },
        }
    }
}

/// What has changed on the server: the body, and anything at all. Changes by the
/// account itself, files here that are not kept in step and files that are
/// encrypted at rest are left alone.
pub open spec fn remote_change(own: Seq<char>, r: RemoteV) -> Result<Option<(bool, bool)>, ErrorV> {
    if r.metadata.modified_by == own {
        Ok(None)
    } else if !r.is_dir() && r.exists && !r.has_copy() {
        Ok(None)
    } else {
        match copy_state(r) {
            Err(e) => Err(e),
            Ok((hash, seen_at)) => {
                let body = !r.is_dir() && hash != Some(r.metadata.body_hash->0.value);
                let metadata = seen_at != Some(r.metadata.modified);
                if !r.at_rest() && (body || metadata) {
                    Ok(Some((body, metadata)))
                } else {
                    Ok(None)
                }
            },
        }
    }
}

fn find_copy_state(remote: &Remote) -> (r: Result<(Option<Vec<u8>>, Option<String>, bool), Error>)
    ensures
        (match r {
            Ok(s) => Ok((opt_bytes(s.0), opt_text(s.1))),
            Err(e) => Err(e@),
        }) == copy_state(remote@),
        r matches Ok(s) ==> s.2 == remote@.at_rest(),
{
    if !(remote.exists && has_id(&remote.attributes)) {
        return Ok((None, None, false));
    }
    let metadata = match read_metadata_attributes(&remote.attributes) {
        Ok(m) => m,
        Err(e) => {
            return Err(e);
        },
    };
    let local = match read_local_metadata_attributes(&remote.attributes) {
        Ok(l) => l,
        Err(e) => {
            return Err(e);
        },
    };
    let hash = match metadata.body_hash {
        Some(h) => Some(h.value),
        None => None,
    };
    let seen_at = match local.sync_modified {
        Some(t) => Some(t),
        None => Some(metadata.modified),
    };
    Ok((hash, seen_at, local.encrypted == Some(true)))
}

/// Finds out what has changed on the server.
pub fn check_remote(own: &str, remote: &Remote) -> (r: Result<Option<(bool, bool)>, Error>)
    ensures
        (match r {
            Ok(c) => Ok(c),
            Err(e) => Err(e@),
        }) == remote_change(own@, remote@),
{
    if same(&remote.metadata.modified_by, own) {
        return Ok(None);
    }
    if remote.metadata.body_hash.is_some() && remote.exists && !has_id(&remote.attributes) {
        return Ok(None);
    }
    let (hash, seen_at, at_rest) = match find_copy_state(remote) {
        Ok(s) => s,
        Err(e) => {
            return Err(e);
        },
    };
    let body = match (&remote.metadata.body_hash, &hash) {
        (None, _) => false,
        (Some(h), Some(mine)) => !same_bytes(&h.value, mine),
        (Some(_), None) => true,
    };
    let metadata = match &seen_at {
        Some(t) => !same(t, &remote.metadata.modified),
        None => true,
    };
    if !at_rest && (body || metadata) {
        Ok(Some((body, metadata)))
    } else {
        Ok(None)
    }
}

/// Entries with a change on the server noted: in the entry with the path, or in
/// a new one.
pub open spec fn noted(list: Seq<SyncEntryV>, path: Seq<char>, change: (bool, bool)) -> Seq<SyncEntryV>
    decreases list.len(),
{
    if list.len() == 0 {
        seq![
            SyncEntryV {
                relative_path: path,
                modified_local_body: false,
                modified_remote_body: change.0,
                modified_remote_metadata: change.1,
            },
        ]
    } else if list[0].relative_path == path {
        seq![
            SyncEntryV { modified_remote_body: change.0, modified_remote_metadata: change.1, ..list[0] },
        ] + list.skip(1)
    } else {
        seq![list[0]] + noted(list.skip(1), path, change)
    }
}

/// Entries with all changes on the server noted.
pub open spec fn all_noted(own: Seq<char>, list: Seq<SyncEntryV>, remotes: Seq<RemoteV>) -> Result<
    Seq<SyncEntryV>,
    ErrorV,
>
    decreases remotes.len(),
{
    if remotes.len() == 0 {
        Ok(list)
    } else {
        match all_noted(own, list, remotes.drop_last()) {
            Err(e) => Err(e),
            Ok(so_far) => match remote_change(own, remotes.last()) {
                Err(e) => Err(e),
                Ok(None) => Ok(so_far),
                Ok(Some(change)) => Ok(noted(so_far, remotes.last().relative_path, change)),
            },
        }
    }
}

/// Whether anything has changed.
pub open spec fn has_changed(e: SyncEntryV) -> bool {
    e.modified_local_body || e.modified_remote_body || e.modified_remote_metadata
}

/// The entries in which anything has changed.
pub open spec fn changed_only(list: Seq<SyncEntryV>) -> Seq<SyncEntryV>
    decreases list.len(),
{
    if list.len() == 0 {
        list
    } else if has_changed(list.last()) {
        changed_only(list.drop_last()).push(list.last())
    } else {
        changed_only(list.drop_last())
    }
}

fn note(list: &mut Vec<SyncEntry>, path: &str, change: (bool, bool))
    ensures
        sync_view(final(list)@) == noted(sync_view(old(list)@), path@, change),
{
    let n: usize = list.len();
    let mut i: usize = 0;
    let ghost all = sync_view(list@);
    proof {
        assert(all.take(0) + noted(all.skip(0), path@, change) =~= noted(all, path@, change)) by {
            assert(all.skip(0) =~= all);
        }
    }
    while i < n
        invariant
            i <= n == list@.len(),
            all == sync_view(list@),
            list@ == old(list)@,
            all.take(i as int) + noted(all.skip(i as int), path@, change) == noted(all, path@, change),
        decreases n - i,
    {
        let ghost rest = all.skip(i as int);
        assert(rest[0] == list@[i as int]@);
        if same(&list[i].relative_path, path) {
            let ghost entry = SyncEntryV {
                modified_remote_body: change.0,
                modified_remote_metadata: change.1,
                ..rest[0]
            };
            list[i].modified_remote_body = change.0;
            list[i].modified_remote_metadata = change.1;
            proof {
                assert(sync_view(list@) =~= all.update(i as int, entry));
                assert(all.update(i as int, entry) =~= all.take(i as int) + (seq![entry] + rest.skip(1)));
            }
            return;
        }
        proof {
            assert(rest.skip(1) =~= all.skip(i + 1));
            assert(all.take(i as int) + (seq![rest[0]] + noted(all.skip(i + 1), path@, change)) =~= all.take(i + 1)
                + noted(all.skip(i + 1), path@, change));
        }
        i = i + 1;
    }
    let ghost entry = SyncEntryV {
        relative_path: path@,
        modified_local_body: false,
        modified_remote_body: change.0,
        modified_remote_metadata: change.1,
    };
    list.push(
        SyncEntry {
            relative_path: path.to_owned(),
            modified_local_body: false,
            modified_remote_body: change.0,
            modified_remote_metadata: change.1,
        },
    );
    proof {
        assert(all.skip(n as int).len() == 0);
        assert(sync_view(list@) =~= all.take(n as int) + seq![entry]);
    }
}

proof fn lemma_noted_stops(own: Seq<char>, list: Seq<SyncEntryV>, remotes: Seq<RemoteV>, i: int)
    requires
        0 <= i <= remotes.len(),
        all_noted(own, list, remotes.take(i)) is Err,
    ensures
        all_noted(own, list, remotes) == all_noted(own, list, remotes.take(i)),
    decreases remotes.len() - i,
{
    if i == remotes.len() {
        assert(remotes.take(i) =~= remotes);
    } else {
        assert(remotes.take(i + 1).drop_last() =~= remotes.take(i));
        lemma_noted_stops(own, list, remotes, i + 1);
    }
}

/// Brings together what has changed here and on the server, and leaves out what
/// has not changed.
pub fn check(own: &str, locals: Vec<SyncEntry>, remotes: &[Remote]) -> (r: Result<Vec<SyncEntry>, Error>)
    ensures
        (match r {
            Ok(list) => Ok(sync_view(list@)),
            Err(e) => Err(e@),
        }) == (match all_noted(own@, sync_view(locals@), remotes_view(remotes@)) {
            Ok(list) => Ok(changed_only(list)),
            Err(e) => Err(e),
        }),
{
    let mut list = locals;
    let n: usize = remotes.len();
    let mut i: usize = 0;
    let ghost start = sync_view(locals@);
    let ghost all = remotes_view(remotes@);
    assert(all.take(0).len() == 0);
    while i < n
        invariant
            i <= n == remotes@.len(),
            all == remotes_view(remotes@),
            start == sync_view(locals@),
            all_noted(own@, start, all.take(i as int)) == Ok::<Seq<SyncEntryV>, ErrorV>(sync_view(list@)),
        decreases n - i,
    {
        assert(all.take(i + 1).drop_last() =~= all.take(i as int));
        assert(all.take(i + 1).last() == remotes@[i as int]@);
        match check_remote(own, &remotes[i]) {
            Ok(Some(change)) => {
                note(&mut list, &remotes[i].relative_path, change);
            },
            Ok(None) => {},
            Err(e) => {
                proof {
                    lemma_noted_stops(own@, start, all, i + 1);
                }
                return Err(e);
            },
        }
        i = i + 1;
    }
    assert(all.take(n as int) =~= all);
    Ok(keep_changed(list))
}

fn keep_changed(list: Vec<SyncEntry>) -> (r: Vec<SyncEntry>)
    ensures
        sync_view(r@) == changed_only(sync_view(list@)),
{
    let mut out: Vec<SyncEntry> = Vec::new();
    let n: usize = list.len();
    let mut i: usize = 0;
    let ghost all = sync_view(list@);
    assert(sync_view(out@) =~= changed_only(all.take(0)));
    while i < n
        invariant
            i <= n == list@.len(),
            all == sync_view(list@),
            sync_view(out@) == changed_only(all.take(i as int)),
        decreases n - i,
    {
        assert(all.take(i + 1).drop_last() =~= all.take(i as int));
        assert(all.take(i + 1).last() == list@[i as int]@);
        let e = &list[i];
        if e.modified_local_body || e.modified_remote_body || e.modified_remote_metadata {
            let ghost earlier = sync_view(out@);
            out.push(
                SyncEntry {
                    relative_path: e.relative_path.clone(),
                    modified_local_body: e.modified_local_body,
                    modified_remote_body: e.modified_remote_body,
                    modified_remote_metadata: e.modified_remote_metadata,
                },
            );
            assert(sync_view(out@) =~= earlier.push(all[i as int]));
        }
        i = i + 1;
    }
    assert(all.take(n as int) =~= all);
    out
}

// What is done.

/// What is done about an entry.
#[derive(Clone, Copy, Debug, PartialEq, Eq, Structural)]
pub enum SyncStep {
    /// The copy of the server is written beside the own one.
    Conflict,
    /// The own copy is uploaded.
    Push,
    /// The copy of the server is downloaded.
    Pull,
    /// The metadata of the server is taken over.
    Metadata,
    Nothing,
}

/// What is done about an entry.
pub open spec fn step_for(e: SyncEntryV) -> SyncStep {
    if e.modified_local_body && e.modified_remote_body {
        SyncStep::Conflict
    } else if e.modified_local_body {
        SyncStep::Push
    } else if e.modified_remote_body {
        SyncStep::Pull
    } else if e.modified_remote_metadata {
        SyncStep::Metadata
    } else {
        SyncStep::Nothing
    }
}

/// Decides what is done about an entry.
pub fn sync_entry(entry: &SyncEntry) -> (r: SyncStep)
    ensures
        r == step_for(entry@),
{
    if entry.modified_local_body && entry.modified_remote_body {
        SyncStep::Conflict
    } else if entry.modified_local_body {
        SyncStep::Push
    } else if entry.modified_remote_body {
        SyncStep::Pull
    } else if entry.modified_remote_metadata {
        SyncStep::Metadata
    } else {
        SyncStep::Nothing
    }
}

/// The event that is reported once a step was done.
pub open spec fn step_event(step: SyncStep, path: Seq<char>, dir: bool) -> Option<EntryEventV> {
    if step == SyncStep::Nothing {
        None
    } else {
        Some(
            EntryEventV {
                action: if step == SyncStep::Metadata {
                    EntryAction::Metadata
                } else {
                    EntryAction::Modified
                },
                kind: Some(
                    if dir {
                        DirectoryEntryKind::Dir
                    } else {
                        DirectoryEntryKind::File
                    },
                ),
                path,
                conflict: step == SyncStep::Conflict,
            },
        )
    }
}

/// The event that is reported once a step was done.
pub fn report(step: SyncStep, relative_path: &str, dir: bool) -> (r: Option<EntryEvent>)
    ensures
        crate::watch::opt_event(r) == step_event(step, relative_path@, dir),
{
    if step == SyncStep::Nothing {
        return None;
    }
    let action = if step == SyncStep::Metadata {
        EntryAction::Metadata
    } else {
        EntryAction::Modified
    };
    let kind = if dir {
        DirectoryEntryKind::Dir
    } else {
        DirectoryEntryKind::File
    };
    Some(
        EntryEvent {
            action,
            kind: Some(kind),
            path: relative_path.to_owned(),
            conflict: step == SyncStep::Conflict,
        },
    )
}

/// The local metadata after the metadata of the server was taken over, for a
/// directory, which is made where it is missing, or for a file that is there.
pub open spec fn metadata_taken(
    path: Seq<char>,
    m: MetadataV,
    exists: bool,
    attributes: Seq<(Seq<char>, Seq<u8>)>,
) -> Result<LocalV, ErrorV> {
    if m.body_hash is Some && !exists {
        Err(with(Fault::LocalMissing, path))
    } else {
        let local = match local_of(attributes) {
            Ok(l) => l,
            Err(_) => crate::types::no_local(),
        };
        Ok(LocalV { sync_modified: Some(m.modified), ..local })
    }
}

/// Takes over the metadata of the server.
pub fn take_metadata(path: &str, metadata: &Metadata, exists: bool, attributes: &[(String, Vec<u8>)]) -> (r: Result<
    LocalMetadata,
    Error,
>)
    ensures
        seen(r) == metadata_taken(path@, metadata@, exists, byte_pairs(attributes@)),
{
    if metadata.body_hash.is_some() && !exists {
        return Err(fail_with(Fault::LocalMissing, path.to_owned()));
    }
    let mut local = match read_local_metadata_attributes(attributes) {
        Ok(l) => l,
        Err(_) => {
            let l = LocalMetadata { encrypted: None, sync_hash: None, sync_modified: None };
            assert(l@ =~= crate::types::no_local());
            l
        },
    };
    let ghost before = local@;
    local.sync_modified = Some(metadata.modified.clone());
    assert(local@ =~= LocalV { sync_modified: Some(metadata@.modified), ..before });
    Ok(local)
}

/// The name of the file that the copy of the server is written to where both
/// sides have changed.
pub open spec fn sidecar(path: Seq<char>, stamp: Seq<char>) -> Seq<char> {
    beside(path, "conflict"@, ".conflict-"@ + stamp)
}

/// The name of the file that the copy of the server is written to where both
/// sides have changed.
pub fn sidecar_path_for(local_path: &str, stamp: &str) -> (r: String)
    ensures
        r@ == sidecar(local_path@, stamp@),
{
    path_beside(local_path, "conflict", &concat(".conflict-", stamp))
}

/// The path of a file from the root of the account.
pub open spec fn relative_path(root: Seq<char>, path: Seq<char>) -> Result<Seq<char>, ErrorV> {
    match below(root, path) {
        Some(rest) => Ok(rest),
        None => Err(bare(Fault::NotWithin)),
    }
}

/// The path of a file from the root of the account.
pub fn to_relative_path(ctx: &Context, path: &str) -> (r: Result<String, Error>)
    ensures
        seen(r) == relative_path(ctx@.root, path@),
{
    match strip_root(&ctx.root, path) {
        Some(rest) => Ok(rest),
        None => Err(fail(Fault::NotWithin)),
    }
}

// The log of the server.

/// The part of a log entry's name that tells when it was written.
pub open spec fn stamp(name: Seq<char>) -> Seq<char> {
    match cut(name, '_') {
        Some((_, rest)) => match cut(rest, '_') {
            Some((_, time)) => time,
            None => name,
        },
        None => name,
    }
}

/// The part of a log entry's name that tells when it was written.
pub fn stamp_key(name: &str) -> (r: String)
    ensures
        r@ == stamp(name@),
{
    let chars = to_chars(name);
    let n: usize = chars.len();
    let at: usize = find(&chars, '_');
    if at == n {
        return name.to_owned();
    }
    let rest = part(&chars, at + 1, n);
    assert(rest@ =~= name@.skip(at + 1));
    let m: usize = rest.len();
    let next: usize = find(rest, '_');
    if next == m {
        return name.to_owned();
    }
    let time = part(rest, next + 1, m);
    assert(time@ =~= rest@.skip(next + 1));
    from_chars(time)
}

/// The log entries of a listing, with when they were written.
pub open spec fn stamped(entries: Seq<EntryV>) -> Seq<(Seq<char>, Seq<char>)>
    decreases entries.len(),
{
    if entries.len() == 0 {
        Seq::empty()
    } else {
        let rest = stamped(entries.drop_last());
        let e = entries.last();
        if e.kind == DirectoryEntryKind::File && is_log(e.name) {
            rest.push((stamp(e.name), e.name))
        } else {
            rest
        }
    }
}

/// Whether a log entry was written after another, where there is one.
pub open spec fn written_after(time: Seq<char>, cutoff: Option<Seq<char>>) -> bool {
    match cutoff {
        Some(name) => precedes(stamp(name), time),
        None => true,
    }
}

/// The names of those that were written after another.
pub open spec fn later_names(list: Seq<(Seq<char>, Seq<char>)>, cutoff: Option<Seq<char>>) -> Seq<Seq<char>>
    decreases list.len(),
{
    if list.len() == 0 {
        Seq::empty()
    } else if written_after(list.last().0, cutoff) {
        later_names(list.drop_last(), cutoff).push(list.last().1)
    } else {
        later_names(list.drop_last(), cutoff)
    }
}

/// The log entries that are still to be looked at, in the order in which they
/// were written.
pub open spec fn pending(entries: Seq<EntryV>, cutoff: Option<Seq<char>>) -> Seq<Seq<char>> {
    later_names(sorted(stamped(entries)), cutoff)
}

fn list_stamped(entries: &[DirectoryEntry]) -> (r: Vec<(String, String)>)
    ensures
        pairs(r@) == stamped(entries_view(entries@)),
{
    let mut out: Vec<(String, String)> = Vec::new();
    let n: usize = entries.len();
    let mut i: usize = 0;
    let ghost all = entries_view(entries@);
    assert(pairs(out@) =~= stamped(all.take(0)));
    while i < n
        invariant
            i <= n == entries@.len(),
            all == entries_view(entries@),
            pairs(out@) == stamped(all.take(i as int)),
        decreases n - i,
    {
        assert(all.take(i + 1).drop_last() =~= all.take(i as int));
        assert(all.take(i + 1).last() == entries@[i as int]@);
        if entries[i].kind == DirectoryEntryKind::File && ends_with(&entries[i].name, ".http") {
            let ghost earlier = pairs(out@);
            let key = stamp_key(&entries[i].name);
            let ghost added = (key@, entries@[i as int].name@);
            out.push((key, entries[i].name.clone()));
            assert(pairs(out@) =~= earlier.push(added));
        }
        i = i + 1;
    }
    assert(all.take(n as int) =~= all);
    out
}

/// Finds the log entries that are still to be looked at.
pub fn pending_entries(entries: &[DirectoryEntry], cutoff: Option<&str>) -> (r: Vec<String>)
    ensures
        texts(r@) == pending(entries_view(entries@), opt_str(cutoff)),
{
    let list = sort_pairs(&list_stamped(entries));
    let limit = match cutoff {
        Some(name) => Some(stamp_key(name)),
        None => None,
    };
    let mut out: Vec<String> = Vec::new();
    let n: usize = list.len();
    let mut i: usize = 0;
    let ghost all = pairs(list@);
    assert(texts(out@) =~= later_names(all.take(0), opt_str(cutoff)));
    while i < n
        invariant
            i <= n == list@.len(),
            all == pairs(list@),
            match cutoff {
                Some(name) => limit is Some && limit->0@ == stamp(name@),
                None => limit is None,
            },
            texts(out@) == later_names(all.take(i as int), opt_str(cutoff)),
        decreases n - i,
    {
        assert(all.take(i + 1).drop_last() =~= all.take(i as int));
        assert(all.take(i + 1).last() == (list@[i as int].0@, list@[i as int].1@));
        let later = match &limit {
            Some(l) => comes_before(l, &list[i].0),
            None => true,
        };
        if later {
            let ghost earlier = texts(out@);
            out.push(list[i].1.clone());
            assert(texts(out@) =~= earlier.push(list@[i as int].1@));
        }
        i = i + 1;
    }
    assert(all.take(n as int) =~= all);
    out
}

/// The file that a log entry wrote, from the root of the account, and its
/// metadata.
pub open spec fn put_in(b: Seq<u8>, account_prefix: Seq<char>) -> Result<Option<(Seq<char>, MetadataV)>, ErrorV> {
    match entry_in(b) {
        Err(e) => Err(e),
        Ok(entry) => if entry.method != "PUT"@ || (entry.status != 201 && entry.status != 204) {
            Ok(None)
        } else {
            match after_prefix(before(entry.target, '?'), account_prefix) {
                None => Ok(None),
                Some(path) => match metadata_of(entry.request_headers) {
                    Err(e) => Err(e),
                    Ok(m) => Ok(Some((trim_back(path, Trim::Slash), m))),
                },
            }
        },
    }
}

/// The view of an optional file with its metadata.
pub open spec fn opt_put(p: Option<(String, Metadata)>) -> Option<(Seq<char>, MetadataV)> {
    match p {
        Some(x) => Some((x.0@, x.1@)),
        None => None,
    }
}

/// Reads the file that a log entry wrote.
pub fn parse_put(entry_bytes: &[u8], account_prefix: &str) -> (r: Result<Option<(String, Metadata)>, Error>)
    ensures
        (match r {
            Ok(p) => Ok(opt_put(p)),
            Err(e) => Err(e@),
        }) == put_in(entry_bytes@, account_prefix@),
{
    let entry = match parse_request_entry(entry_bytes) {
        Ok(e) => e,
        Err(e) => {
            return Err(e);
        },
    };
    if !same(&entry.method, "PUT") {
        return Ok(None);
    }
    if entry.status != 201 && entry.status != 204 {
        return Ok(None);
    }
    let path = match strip_prefix(&up_to(&entry.target, '?'), account_prefix) {
        Some(p) => to_chars(&p),
        None => {
            return Ok(None);
        },
    };
    match read_metadata_headers(&entry.request_headers) {
        Ok(metadata) => Ok(Some((from_chars(trim_end(&path, Trim::Slash)), metadata))),
        Err(e) => Err(e),
    }
}

/// Whether a path is a directory or lies below it.
pub open spec fn is_under(path: Seq<char>, prefix: Seq<char>) -> bool {
    prefix.len() == 0 || path == prefix || prefix.push('/').is_prefix_of(path)
}

/// Whether a path is a directory or lies below it.
pub fn under_prefix(rel: &str, prefix: &str) -> (r: bool)
    ensures
        r == is_under(rel@, prefix@),
{
    let wanted = to_chars(prefix);
    if wanted.len() == 0 {
        return true;
    }
    if same(rel, prefix) {
        return true;
    }
    let mut dir = wanted;
    dir.push('/');
    crate::text::starts_with(&to_chars(rel), &dir)
}

/// What the log says: the newest metadata of each file, and what could not be
/// read.
#[derive(Debug)]
pub struct LogMap {
    pub files: Vec<(String, Metadata)>,
    pub errors: Vec<Error>,
}

/// The view of what the log says.
#[verifier::ext_equal]
pub struct LogMapV {
    pub files: Seq<(Seq<char>, MetadataV)>,
    pub errors: Seq<ErrorV>,
}

/// The views of files with their metadata.
pub open spec fn files_view(list: Seq<(String, Metadata)>) -> Seq<(Seq<char>, MetadataV)> {
    list.map_values(|f: (String, Metadata)| (f.0@, f.1@))
}

/// The views of errors.
pub open spec fn errors_view(list: Seq<Error>) -> Seq<ErrorV> {
    list.map_values(|e: Error| e@)
}

impl View for LogMap {
    type V = LogMapV;

    open spec fn view(&self) -> LogMapV {
        LogMapV { files: files_view(self.files@), errors: errors_view(self.errors@) }
    }
}

/// Files with one more taken up, unless what there is of it is newer.
pub open spec fn newest(files: Seq<(Seq<char>, MetadataV)>, path: Seq<char>, m: MetadataV) -> Seq<
    (Seq<char>, MetadataV),
>
    decreases files.len(),
{
    if files.len() == 0 {
        seq![(path, m)]
    } else if files[0].0 == path {
        if precedes(m.modified, files[0].1.modified) {
            files
        } else {
            seq![(path, m)] + files.skip(1)
        }
    } else {
        seq![files[0]] + newest(files.skip(1), path, m)
    }
}

/// What the log says, of files below a directory, after one more entry.
pub open spec fn log_step(map: LogMapV, account_prefix: Seq<char>, prefix: Seq<char>, body: Option<Seq<u8>>) -> LogMapV {
    match body {
        None => map,
        Some(b) => match put_in(b, account_prefix) {
            Err(e) => LogMapV { errors: map.errors.push(with(Fault::BadLogEntry, message_of(e))), ..map },
            Ok(None) => map,
            Ok(Some((path, m))) => if is_under(path, prefix) {
                LogMapV { files: newest(map.files, path, m), ..map }
            } else {
                map
            },
        },
    }
}

/// What the log says, of files below a directory.
pub open spec fn log_map(account_prefix: Seq<char>, prefix: Seq<char>, bodies: Seq<Option<Seq<u8>>>) -> LogMapV
    decreases bodies.len(),
{
    if bodies.len() == 0 {
        LogMapV { files: Seq::empty(), errors: Seq::empty() }
    } else {
        log_step(log_map(account_prefix, prefix, bodies.drop_last()), account_prefix, prefix, bodies.last())
    }
}

/// The views of optional contents.
pub open spec fn bodies_view(list: Seq<Option<Vec<u8>>>) -> Seq<Option<Seq<u8>>> {
    list.map_values(|b: Option<Vec<u8>>| opt_bytes(b))
}

fn take_newest(files: &mut Vec<(String, Metadata)>, path: String, metadata: Metadata)
    ensures
        files_view(final(files)@) == newest(files_view(old(files)@), path@, metadata@),
{
    let n: usize = files.len();
    let mut i: usize = 0;
    let ghost all = files_view(files@);
    let ghost p = path@;
    let ghost m = metadata@;
    assert(all.take(0) + newest(all.skip(0), p, m) =~= newest(all, p, m)) by {
        assert(all.skip(0) =~= all);
    }
    while i < n
        invariant
            i <= n == files@.len(),
            all == files_view(files@),
            files@ == old(files)@,
            p == path@,
            m == metadata@,
            all.take(i as int) + newest(all.skip(i as int), p, m) == newest(all, p, m),
        decreases n - i,
    {
        let ghost rest = all.skip(i as int);
        assert(rest[0] == (files@[i as int].0@, files@[i as int].1@));
        if same(&files[i].0, &path) {
            if comes_before(&metadata.modified, &files[i].1.modified) {
                assert(all.take(i as int) + rest =~= all);
                return;
            }
            files[i] = (path, metadata);
            proof {
                assert(files_view(files@) =~= all.update(i as int, (p, m)));
                assert(all.update(i as int, (p, m)) =~= all.take(i as int) + (seq![(p, m)] + rest.skip(1)));
            }
            return;
        }
        proof {
            assert(rest.skip(1) =~= all.skip(i + 1));
            assert(all.take(i as int) + (seq![rest[0]] + newest(all.skip(i + 1), p, m)) =~= all.take(i + 1) + newest(
                all.skip(i + 1),
                p,
                m,
            ));
        }
        i = i + 1;
    }
    files.push((path, metadata));
    proof {
        assert(all.skip(n as int).len() == 0);
        assert(files_view(files@) =~= all.take(n as int) + seq![(p, m)]);
    }
}

/// Reads what the log says of files below a directory, given the contents of its
/// entries in the order in which they were written, as far as they could be
/// read.
pub fn fetch_log_map(ctx: &Context, prefix: &str, bodies: &[Option<Vec<u8>>]) -> (r: Result<LogMap, Error>)
    ensures
        seen(r) == (match address_parts(ctx@.identity.address) {
            Err(e) => Err(e),
            Ok(parts) => Ok(log_map("/ark/"@ + parts.0 + "/"@, prefix@, bodies_view(bodies@))),
        }),
{
    let (name, _, _) = match parse_address(&ctx.identity.address) {
        Ok(p) => p,
        Err(e) => {
            return Err(e);
        },
    };
    let account_prefix = concat3("/ark/", &name, "/");
    let mut map = LogMap { files: Vec::new(), errors: Vec::new() };
    let n: usize = bodies.len();
    let mut i: usize = 0;
    let ghost all = bodies_view(bodies@);
    assert(map@ =~= log_map(account_prefix@, prefix@, all.take(0)));
    while i < n
        invariant
            i <= n == bodies@.len(),
            all == bodies_view(bodies@),
            map@ == log_map(account_prefix@, prefix@, all.take(i as int)),
        decreases n - i,
    {
        let ghost earlier = map@;
        assert(all.take(i + 1).drop_last() =~= all.take(i as int));
        assert(all.take(i + 1).last() == opt_bytes(bodies@[i as int]));
        if let Some(body) = &bodies[i] {
            match parse_put(body, &account_prefix) {
                Ok(Some((path, metadata))) => {
                    if under_prefix(&path, prefix) {
                        take_newest(&mut map.files, path, metadata);
                        assert(map@ =~= log_map(account_prefix@, prefix@, all.take(i + 1)));
                    }
                },
                Ok(None) => {},
                Err(e) => {
                    map.errors.push(fail_with(Fault::BadLogEntry, e.message()));
                    assert(map@ =~= log_map(account_prefix@, prefix@, all.take(i + 1)));
                },
            }
        }
        i = i + 1;
    }
    assert(all.take(n as int) =~= all);
    Ok(map)
}

/// The log entry up to which the log was looked at: the last one, or the one up
/// to which it was looked at before.
pub fn last_sync_request(pending: &[String], cutoff: Option<&str>) -> (r: Option<String>)
    ensures
        opt_text(r) == (if pending@.len() > 0 {
            Some(texts(pending@).last())
        } else {
            opt_str(cutoff)
        }),
{
    let n: usize = pending.len();
    assert(texts(pending@).len() == n);
    if n > 0 {
        Some(pending[n - 1].clone())
    } else {
        crate::text::own_opt(cutoff)
    }
}

// Watching.

/// What is done about an event.
#[derive(Debug)]
pub enum Reaction {
    /// An entry is brought into step.
    Sync { entry: SyncEntry },
    /// A local file is removed, and this is reported once it is.
    Remove { report: EntryEvent },
    Ignore,
}

/// The view of a reaction.
pub enum ReactionV {
    Sync { entry: SyncEntryV },
    Remove { report: EntryEventV },
    Ignore,
}

impl View for Reaction {
    type V = ReactionV;

    open spec fn view(&self) -> ReactionV {
        match self {
            Reaction::Sync { entry } => ReactionV::Sync { entry: entry@ },
            Reaction::Remove { report } => ReactionV::Remove { report: report@ },
            Reaction::Ignore => ReactionV::Ignore,
        }
    }
}

/// A path below a directory, from the root of the account.
pub open spec fn path_below(prefix: Seq<char>, sub: Seq<char>) -> Seq<char> {
    if prefix.len() == 0 {
        sub
    } else if sub.len() == 0 {
        prefix
    } else {
        prefix + "/"@ + sub
    }
}

/// A path below a directory, from the root of the account.
pub fn join_path(prefix: &str, sub: &str) -> (r: String)
    ensures
        r@ == path_below(prefix@, sub@),
{
    if prefix.is_empty() {
        sub.to_owned()
    } else if sub.is_empty() {
        prefix.to_owned()
    } else {
        concat3(prefix, "/", sub)
    }
}

/// What is done about an event on the server: what was written there is taken
/// over, and a file that was removed there is removed here, where it is.
pub open spec fn pull_reaction(path: Seq<char>, event: EntryEventV, exists: bool) -> ReactionV {
    let dir = event.kind == Some(DirectoryEntryKind::Dir);
    match event.action {
        EntryAction::Created | EntryAction::Modified => ReactionV::Sync {
            entry: SyncEntryV {
                relative_path: path,
                modified_local_body: false,
                modified_remote_body: !dir,
                modified_remote_metadata: true,
            },
        },
        EntryAction::Deleted => if exists && !dir {
            ReactionV::Remove {
                report: EntryEventV {
                    action: EntryAction::Deleted,
                    kind: Some(DirectoryEntryKind::File),
                    path,
                    conflict: false,
                },
            }
        } else {
            ReactionV::Ignore
        },
        EntryAction::Metadata => ReactionV::Ignore,
    }
}

/// Decides about an event on the server, given the path and whether there is a
/// file there.
pub fn pull_watch(relative_path: &str, event: &EntryEvent, exists: bool) -> (r: Reaction)
    ensures
        r@ == pull_reaction(relative_path@, event@, exists),
{
    let dir = match event.kind {
        Some(DirectoryEntryKind::Dir) => true,
        _ => false,
    };
    match event.action {
        EntryAction::Created | EntryAction::Modified => Reaction::Sync {
            entry: SyncEntry {
                relative_path: relative_path.to_owned(),
                modified_local_body: false,
                modified_remote_body: !dir,
                modified_remote_metadata: true,
            },
        },
        EntryAction::Deleted => if exists && !dir {
            Reaction::Remove {
                report: EntryEvent {
                    action: EntryAction::Deleted,
                    kind: Some(DirectoryEntryKind::File),
                    path: relative_path.to_owned(),
                    conflict: false,
                },
            }
        } else {
            Reaction::Ignore
        },
        EntryAction::Metadata => Reaction::Ignore,
    }
}

/// Whether a change here is looked at: only files that were made or changed.
pub fn push_watch(event: &EntryEvent, is_file: bool) -> (r: bool)
    ensures
        r == (is_file && (event@.action == EntryAction::Created || event@.action == EntryAction::Modified)),
{
    match event.action {
        EntryAction::Created | EntryAction::Modified => is_file,
        _ => false,
    }
}

// Laws.

/// What is done about an entry: a push where only the local body changed, a pull
/// where only that of the server did, the metadata alone where only that did, and
/// where both bodies changed the own copy stays as it is.
pub proof fn sync_table(e: SyncEntryV)
    ensures
        step_for(e) == SyncStep::Conflict <==> e.modified_local_body && e.modified_remote_body,
        step_for(e) == SyncStep::Push <==> e.modified_local_body && !e.modified_remote_body,
        step_for(e) == SyncStep::Pull <==> !e.modified_local_body && e.modified_remote_body,
        step_for(e) == SyncStep::Metadata <==> !e.modified_local_body && !e.modified_remote_body
            && e.modified_remote_metadata,
        step_for(e) == SyncStep::Nothing <==> !has_changed(e),
{
}

/// Changes on the server by the account itself are ignored.
pub proof fn own_changes_are_ignored(r: RemoteV)
    ensures
        remote_change(r.metadata.modified_by, r) == Ok::<Option<(bool, bool)>, ErrorV>(None),
{
}

/// A file that is encrypted at rest is left alone, whatever happened to it here or
/// on the server.
pub proof fn encrypted_files_are_left_alone(own: Seq<char>, r: RemoteV, path: Seq<char>, content: Seq<u8>)
    requires
        r.has_copy(),
        metadata_of_attributes(r.attributes) is Ok,
        local_of(r.attributes) matches Ok(local) && local.encrypted == Some(true),
    ensures
        remote_change(own, r) == Ok::<Option<(bool, bool)>, ErrorV>(None),
        local_change(path, local_of(r.attributes)->Ok_0, Some(content)) is None,
{
}

/// A local file that is not kept in step is left alone, whatever the server has at
/// its path.
pub proof fn untracked_files_are_left_alone(own: Seq<char>, r: RemoteV)
    requires
        r.exists,
        !carries_id(r.attributes),
        !r.is_dir(),
    ensures
        remote_change(own, r) == Ok::<Option<(bool, bool)>, ErrorV>(None),
{
}

/// Whether no path occurs twice.
pub open spec fn distinct_paths(list: Seq<SyncEntryV>) -> bool {
    forall|i: int, j: int|
        0 <= i < j < list.len() ==> (#[trigger] list[i]).relative_path != (#[trigger] list[j]).relative_path
}

/// Noting a change keeps every path, and adds at most the one that is noted.
proof fn lemma_noted_paths(list: Seq<SyncEntryV>, path: Seq<char>, change: (bool, bool))
    ensures
        noted(list, path, change).len() == list.len() || noted(list, path, change).len() == list.len() + 1,
        forall|i: int|
            0 <= i < list.len() ==> (#[trigger] noted(list, path, change)[i]).relative_path == list[i].relative_path,
        noted(list, path, change).len() == list.len() + 1 ==> noted(list, path, change).last().relative_path == path
            && forall|i: int| 0 <= i < list.len() ==> (#[trigger] list[i]).relative_path != path,
    decreases list.len(),
{
    if list.len() > 0 && list[0].relative_path != path {
        let rest = list.skip(1);
        lemma_noted_paths(rest, path, change);
        let tail = noted(rest, path, change);
        let all = noted(list, path, change);
        assert forall|i: int| 0 <= i < list.len() implies (#[trigger] all[i]).relative_path == list[i].relative_path
            by {
            if i > 0 {
                assert(all[i] == tail[i - 1]);
                assert(rest[i - 1] == list[i]);
            }
        }
        if all.len() == list.len() + 1 {
            assert(all.last() == tail.last());
            assert forall|i: int| 0 <= i < list.len() implies (#[trigger] list[i]).relative_path != path by {
                if i > 0 {
                    assert(rest[i - 1] == list[i]);
                }
            }
        }
    } else if list.len() > 0 {
        let all = noted(list, path, change);
        assert forall|i: int| 0 <= i < list.len() implies (#[trigger] all[i]).relative_path == list[i].relative_path
            by {
            if i > 0 {
                assert(all[i] == list[i]);
            }
        }
    }
}

/// No file is looked at twice: the paths stay distinct when changes on the server
/// are noted.
pub proof fn paths_stay_distinct(own: Seq<char>, list: Seq<SyncEntryV>, remotes: Seq<RemoteV>)
    requires
        distinct_paths(list),
    ensures
        all_noted(own, list, remotes) matches Ok(after) ==> distinct_paths(after),
    decreases remotes.len(),
{
    if remotes.len() > 0 {
        paths_stay_distinct(own, list, remotes.drop_last());
        if let Ok(so_far) = all_noted(own, list, remotes.drop_last()) {
            if let Ok(Some(change)) = remote_change(own, remotes.last()) {
                let path = remotes.last().relative_path;
                lemma_noted_paths(so_far, path, change);
                let after = noted(so_far, path, change);
                assert forall|i: int, j: int| 0 <= i < j < after.len() implies (#[trigger] after[i]).relative_path != (
                #[trigger] after[j]).relative_path by {
                    if j < so_far.len() {
                        assert(after[i].relative_path == so_far[i].relative_path);
                        assert(after[j].relative_path == so_far[j].relative_path);
                    } else {
                        assert(after[i].relative_path == so_far[i].relative_path);
                    }
                }
            }
        }
    }
}

/// Whether each name stands beside the time that it tells.
spec fn times_fit(list: Seq<(Seq<char>, Seq<char>)>) -> bool {
    forall|k: int| 0 <= k < list.len() ==> (#[trigger] list[k]).0 == stamp(list[k].1)
}

proof fn lemma_stamped_fit(entries: Seq<EntryV>)
    ensures
        times_fit(stamped(entries)),
        forall|k: int|
            0 <= k < stamped(entries).len() ==> exists|j: int|
                0 <= j < entries.len() && (#[trigger] entries[j]).name == (#[trigger] stamped(entries)[k]).1 && is_log(
                    entries[j].name,
                ),
    decreases entries.len(),
{
    if entries.len() > 0 {
        let rest = entries.drop_last();
        lemma_stamped_fit(rest);
        let list = stamped(entries);
        assert forall|k: int| 0 <= k < list.len() implies exists|j: int|
            0 <= j < entries.len() && (#[trigger] entries[j]).name == (#[trigger] list[k]).1 && is_log(
                entries[j].name,
            ) by {
            if k < stamped(rest).len() {
                assert(list[k] == stamped(rest)[k]);
                let j = choose|j: int|
                    0 <= j < rest.len() && (#[trigger] rest[j]).name == stamped(rest)[k].1 && is_log(rest[j].name);
                assert(entries[j] == rest[j]);
            } else {
                assert(entries[entries.len() - 1].name == list[k].1);
            }
        }
    }
}

proof fn lemma_sorted_fit(list: Seq<(Seq<char>, Seq<char>)>)
    requires
        times_fit(list),
    ensures
        times_fit(sorted(list)),
        forall|k: int| 0 <= k < sorted(list).len() ==> list.contains(#[trigger] sorted(list)[k]),
{
    broadcast use vstd::seq_lib::group_to_multiset_ensures;

    sorting_keeps_headers(list);
    let all = sorted(list);
    assert forall|k: int| 0 <= k < all.len() implies list.contains(#[trigger] all[k]) by {
        assert(all.contains(all[k]));
        assert(all.to_multiset().contains(all[k]));
    }
    assert forall|k: int| 0 <= k < all.len() implies (#[trigger] all[k]).0 == stamp(all[k].1) by {
        assert(list.contains(all[k]));
    }
}

proof fn lemma_later(list: Seq<(Seq<char>, Seq<char>)>, cutoff: Option<Seq<char>>)
    requires
        times_fit(list),
        in_order(list),
    ensures
        forall|i: int|
            0 <= i < later_names(list, cutoff).len() ==> written_after(
                stamp(#[trigger] later_names(list, cutoff)[i]),
                cutoff,
            ),
        forall|i: int|
            0 <= i < later_names(list, cutoff).len() ==> exists|k: int|
                0 <= k < list.len() && (#[trigger] list[k]).1 == (#[trigger] later_names(list, cutoff)[i]),
        forall|i: int, j: int|
            0 <= i < j < later_names(list, cutoff).len() ==> !precedes(
                stamp(#[trigger] later_names(list, cutoff)[j]),
                stamp(#[trigger] later_names(list, cutoff)[i]),
            ),
    decreases list.len(),
{
    if list.len() > 0 {
        let rest = list.drop_last();
        let last = list[list.len() - 1];
        let names = later_names(list, cutoff);
        let earlier = later_names(rest, cutoff);
        assert(times_fit(rest)) by {
            assert forall|k: int| 0 <= k < rest.len() implies (#[trigger] rest[k]).0 == stamp(rest[k].1) by {
                assert(rest[k] == list[k]);
            }
        }
        assert(in_order(rest)) by {
            assert forall|i: int, j: int| 0 <= i < j < rest.len() implies !precedes(
                (#[trigger] rest[j]).0,
                (#[trigger] rest[i]).0,
            ) by {
                assert(rest[j] == list[j] && rest[i] == list[i]);
            }
        }
        lemma_later(rest, cutoff);
        assert(last.0 == stamp(last.1));
        assert forall|i: int| 0 <= i < names.len() implies exists|k: int|
            0 <= k < list.len() && (#[trigger] list[k]).1 == (#[trigger] names[i]) by {
            if i < earlier.len() {
                assert(names[i] == earlier[i]);
                let k = choose|k: int| 0 <= k < rest.len() && (#[trigger] rest[k]).1 == earlier[i];
                assert(list[k] == rest[k]);
            } else {
                assert(list[list.len() - 1].1 == names[i]);
            }
        }
        assert forall|i: int, j: int| 0 <= i < j < names.len() implies !precedes(
            stamp(#[trigger] names[j]),
            stamp(#[trigger] names[i]),
        ) by {
            assert(names[i] == earlier[i]);
            if j < earlier.len() {
                assert(names[j] == earlier[j]);
            } else {
                let k = choose|k: int| 0 <= k < rest.len() && (#[trigger] rest[k]).1 == earlier[i];
                assert(list[k] == rest[k]);
                assert(list[k].0 == stamp(list[k].1));
                assert(!precedes(list[list.len() - 1].0, list[k].0));
            }
        }
    }
}

/// Every log entry that is still to be looked at is in the listing and was
/// written after the one up to which the log was looked at, and they come in the
/// order in which they were written.
pub proof fn pending_entries_are_later(entries: Seq<EntryV>, cutoff: Option<Seq<char>>)
    ensures
        forall|i: int|
            0 <= i < pending(entries, cutoff).len() ==> written_after(
                stamp(#[trigger] pending(entries, cutoff)[i]),
                cutoff,
            ),
        forall|i: int|
            0 <= i < pending(entries, cutoff).len() ==> exists|k: int|
                0 <= k < entries.len() && (#[trigger] entries[k]).name == (#[trigger] pending(entries, cutoff)[i]),
        forall|i: int, j: int|
            0 <= i < j < pending(entries, cutoff).len() ==> !precedes(
                stamp(#[trigger] pending(entries, cutoff)[j]),
                stamp(#[trigger] pending(entries, cutoff)[i]),
            ),
{
    let list = stamped(entries);
    let all = sorted(list);
    let names = pending(entries, cutoff);
    lemma_stamped_fit(entries);
    lemma_sorted_fit(list);
    sorting_orders_headers(list);
    lemma_later(all, cutoff);
    assert forall|i: int| 0 <= i < names.len() implies exists|k: int|
        0 <= k < entries.len() && (#[trigger] entries[k]).name == (#[trigger] names[i]) by {
        let k = choose|k: int| 0 <= k < all.len() && (#[trigger] all[k]).1 == names[i];
        assert(list.contains(all[k]));
        let j = choose|j: int| 0 <= j < list.len() && list[j] == all[k];
        let m = choose|m: int|
            0 <= m < entries.len() && (#[trigger] entries[m]).name == list[j].1 && is_log(entries[m].name);
        assert(entries[m].name == names[i]);
    }
}

/// A write to a file of the account that was stored and recorded is found in the
/// log, with the metadata that was written.
pub proof fn stored_writes_are_followed(
    b: Seq<u8>,
    status: u16,
    request: RequestV,
    m: MetadataV,
    prefix: Seq<char>,
    path: Seq<char>,
)
    requires
        request_read(b, true) == Ok::<RequestV, ErrorV>(request),
        request.method == "PUT"@,
        before(request.target, '?') == prefix + path,
        metadata_of(request.headers) == Ok::<MetadataV, ErrorV>(m),
        status == 201 || status == 204,
        recorded(b, status) is Some,
    ensures
        put_in(recorded(b, status)->0, prefix) == Ok::<Option<(Seq<char>, MetadataV)>, ErrorV>(
            Some((trim_back(path, Trim::Slash), m)),
        ),
{
    logged_request_is_read_back(b, status, request);
    assert((prefix + path).skip(prefix.len() as int) =~= path);
}

} // verus!
