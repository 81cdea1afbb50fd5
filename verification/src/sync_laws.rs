//! What holds of every pass that keeps a directory in step.

use vstd::prelude::*;

use crate::error::{ErrorV, Fault};
use crate::fields::{local_of, metadata_of_attributes};
use crate::http::sorted;
use crate::listing::{DirectoryEntryKind, EntryV};
use crate::primitives::sha256_of;
use crate::sealing::carries_id;
use crate::sync::{
    all_noted, changed_only, is_under, later_names, local_change, log_map, metadata_taken, newest, noted,
    path_below, pending, pull_reaction, put_in, remote_change, stamp, stamped, step_event, ReactionV, RemoteV,
    SyncEntryV, SyncStep,
};
use crate::text::{lemma_precedes_irreflexive, lemma_precedes_total, lemma_precedes_transitive, precedes};
use crate::types::{LocalV, MetadataV};
use crate::watch::{EntryAction, EntryEventV};
use crate::wire::sorting_keeps_headers;

verus! {

// Both sides.

/// Whether anything was changed at an entry, on either side.
pub open spec fn touched(e: SyncEntryV) -> bool {
    e.modified_local_body || e.modified_remote_body || e.modified_remote_metadata
}

/// A pass keeps exactly the entries in which the local body, the body of the server or
/// its metadata was changed, each as often as it is there and in their order.
#[verifier::rlimit(40)]
pub proof fn nothing_changed_is_left_out(list: Seq<SyncEntryV>)
    ensures
        changed_only(list) == list.filter(
            |e: SyncEntryV| e.modified_local_body || e.modified_remote_body || e.modified_remote_metadata,
        ),
        forall|e: SyncEntryV| #[trigger]
            changed_only(list).contains(e) <==> list.contains(e) && (e.modified_local_body || e.modified_remote_body
                || e.modified_remote_metadata),
    decreases list.len(),
{
    reveal(Seq::filter);
    let keep = |e: SyncEntryV| e.modified_local_body || e.modified_remote_body || e.modified_remote_metadata;
    if list.len() > 0 {
        nothing_changed_is_left_out(list.drop_last());
    }
    assert(changed_only(list) == list.filter(keep));
    assert forall|e: SyncEntryV| #[trigger]
        changed_only(list).contains(e) <==> list.contains(e) && touched(e) by {
        let r = list.filter(keep);
        if r.contains(e) {
            let i = choose|i: int| 0 <= i < r.len() && r[i] == e;
            list.lemma_filter_pred(keep, i);
            list.lemma_filter_contains_rev(keep, e);
        }
        if list.contains(e) && touched(e) {
            let i = choose|i: int| 0 <= i < list.len() && list[i] == e;
            assert(keep(list[i]));
            list.lemma_filter_contains(keep, i);
        }
    }
}

/// A change on the server is noted in the first entry with its path, of which nothing
/// else is changed, and in a new entry behind the others where there is none.
#[verifier::rlimit(40)]
pub proof fn changes_are_noted_in_place(list: Seq<SyncEntryV>, path: Seq<char>, change: (bool, bool)) -> (at: int)
    ensures
        0 <= at <= list.len(),
        forall|j: int| 0 <= j < at ==> (#[trigger] list[j]).relative_path != path,
        at < list.len() ==> list[at].relative_path == path && noted(list, path, change) == list.update(
            at,
            SyncEntryV { modified_remote_body: change.0, modified_remote_metadata: change.1, ..list[at] },
        ),
        at == list.len() ==> noted(list, path, change) == list.push(
            SyncEntryV {
                relative_path: path,
                modified_local_body: false,
                modified_remote_body: change.0,
                modified_remote_metadata: change.1,
            },
        ),
    decreases list.len(),
{
    if list.len() == 0 {
        assert(noted(list, path, change) =~= list.push(
            SyncEntryV {
                relative_path: path,
                modified_local_body: false,
                modified_remote_body: change.0,
                modified_remote_metadata: change.1,
            },
        ));
        0
    } else if list[0].relative_path == path {
        assert(noted(list, path, change) =~= list.update(
            0,
            SyncEntryV { modified_remote_body: change.0, modified_remote_metadata: change.1, ..list[0] },
        ));
        0
    } else {
        let rest = list.skip(1);
        let at = changes_are_noted_in_place(rest, path, change);
        assert forall|j: int| 0 <= j < at + 1 implies (#[trigger] list[j]).relative_path != path by {
            if j > 0 {
                assert(rest[j - 1] == list[j]);
            }
        }
        if at < rest.len() {
            assert(rest[at] == list[at + 1]);
            assert(noted(list, path, change) =~= list.update(
                at + 1,
                SyncEntryV { modified_remote_body: change.0, modified_remote_metadata: change.1, ..list[at + 1] },
            ));
        } else {
            assert(noted(list, path, change) =~= list.push(
                SyncEntryV {
                    relative_path: path,
                    modified_local_body: false,
                    modified_remote_body: change.0,
                    modified_remote_metadata: change.1,
                },
            ));
        }
        at + 1
    }
}

/// Whether the body or the metadata was changed.
pub open spec fn some_change(body: bool, metadata: bool) -> bool {
    body || metadata
}

/// Whether what a file on the server comes to was noted in an entry.
pub open spec fn noted_of(own: Seq<char>, r: RemoteV, e: SyncEntryV) -> bool {
    e.relative_path == r.relative_path && remote_change(own, r) == Ok::<Option<(bool, bool)>, ErrorV>(
        Some((e.modified_remote_body, e.modified_remote_metadata)),
    )
}

/// Whether what a file on the server comes to was noted in one of the entries.
#[verifier::opaque]
pub open spec fn is_noted(own: Seq<char>, r: RemoteV, list: Seq<SyncEntryV>) -> bool {
    exists|i: int| 0 <= i < list.len() && noted_of(own, r, #[trigger] list[i])
}

/// Whether an entry stands for what one of the files on the server comes to.
#[verifier::opaque]
pub open spec fn is_of(own: Seq<char>, remotes: Seq<RemoteV>, e: SyncEntryV) -> bool {
    exists|k: int| 0 <= k < remotes.len() && noted_of(own, #[trigger] remotes[k], e)
}

/// What a pass knows, of the files here and of those on the server.
pub open spec fn knows_both(
    own: Seq<char>,
    locals: Seq<SyncEntryV>,
    remotes: Seq<RemoteV>,
    list: Seq<SyncEntryV>,
) -> bool {
    &&& list.len() >= locals.len()
    &&& forall|i: int|
        0 <= i < locals.len() ==> (#[trigger] list[i]).relative_path == locals[i].relative_path
            && list[i].modified_local_body == locals[i].modified_local_body
    &&& forall|i: int| locals.len() <= i < list.len() ==> !(#[trigger] list[i]).modified_local_body
    &&& forall|k: int|
        0 <= k < remotes.len() && remote_change(own, #[trigger] remotes[k])->Ok_0 is Some ==> is_noted(
            own,
            remotes[k],
            list,
        )
    &&& forall|i: int|
        0 <= i < list.len() ==> i < locals.len() && #[trigger] list[i] == locals[i] || is_of(own, remotes, list[i])
}

/// A pass knows of every local file, with what was changed here, and of every change on
/// the server, whether the file is here or not; and it knows of nothing else. The
/// paths on the server are distinct.
#[verifier::rlimit(40)]
pub proof fn both_sides_are_looked_at(own: Seq<char>, locals: Seq<SyncEntryV>, remotes: Seq<RemoteV>)
    requires
        forall|i: int, j: int|
            0 <= i < j < remotes.len() ==> (#[trigger] remotes[i]).relative_path != (#[trigger] remotes[j]).relative_path,
    ensures
        all_noted(own, locals, remotes) is Err <==> exists|k: int|
            0 <= k < remotes.len() && remote_change(own, #[trigger] remotes[k]) is Err,
        all_noted(own, locals, remotes) matches Ok(list) ==> knows_both(own, locals, remotes, list),
    decreases remotes.len(),
{
    if remotes.len() > 0 {
        let front = remotes.drop_last();
        let r = remotes.last();
        let n = remotes.len() - 1;
        assert forall|i: int, j: int| 0 <= i < j < front.len() implies (#[trigger] front[i]).relative_path != (
        #[trigger] front[j]).relative_path by {
            assert(front[i] == remotes[i] && front[j] == remotes[j]);
        }
        both_sides_are_looked_at(own, locals, front);
        assert(remotes[n] == r);
        if all_noted(own, locals, front) is Err {
            let k = choose|k: int| 0 <= k < front.len() && remote_change(own, #[trigger] front[k]) is Err;
            assert(remotes[k] == front[k]);
        } else if remote_change(own, r) is Err {
            assert(remote_change(own, remotes[n]) is Err);
        } else {
            assert forall|k: int| 0 <= k < remotes.len() implies !(remote_change(own, #[trigger] remotes[k]) is Err) by {
                if k < n {
                    assert(front[k] == remotes[k]);
                }
            }
            lemma_noted_pass(own, locals, remotes, all_noted(own, locals, front)->Ok_0);
        }
    }
}

proof fn lemma_is_of(own: Seq<char>, remotes: Seq<RemoteV>, e: SyncEntryV)
    requires
        remotes.len() > 0,
        is_of(own, remotes.drop_last(), e) || noted_of(own, remotes.last(), e),
    ensures
        is_of(own, remotes, e),
{
    reveal(is_of);
    if is_of(own, remotes.drop_last(), e) {
        let k = choose|k: int|
            0 <= k < remotes.drop_last().len() && noted_of(own, #[trigger] remotes.drop_last()[k], e);
        assert(remotes[k] == remotes.drop_last()[k]);
    } else {
        assert(noted_of(own, remotes[remotes.len() - 1], e));
    }
}

proof fn lemma_stays_noted(
    own: Seq<char>,
    r: RemoteV,
    list: Seq<SyncEntryV>,
    path: Seq<char>,
    change: (bool, bool),
)
    requires
        is_noted(own, r, list),
        r.relative_path != path,
    ensures
        is_noted(own, r, noted(list, path, change)),
{
    reveal(is_noted);
    let at = changes_are_noted_in_place(list, path, change);
    let i = choose|i: int| 0 <= i < list.len() && noted_of(own, r, #[trigger] list[i]);
    assert(noted(list, path, change)[i] == list[i]);
}

#[verifier::rlimit(40)]
proof fn lemma_noted_pass(own: Seq<char>, locals: Seq<SyncEntryV>, remotes: Seq<RemoteV>, so_far: Seq<SyncEntryV>)
    requires
        remotes.len() > 0,
        remote_change(own, remotes.last()) is Ok,
        forall|i: int, j: int|
            0 <= i < j < remotes.len() ==> (#[trigger] remotes[i]).relative_path != (#[trigger] remotes[j]).relative_path,
        knows_both(own, locals, remotes.drop_last(), so_far),
    ensures
        ({
            let list = match remote_change(own, remotes.last())->Ok_0 {
                None => so_far,
                Some(change) => noted(so_far, remotes.last().relative_path, change),
            };
            knows_both(own, locals, remotes, list)
        }),
{
    let front = remotes.drop_last();
    let r = remotes.last();
    let n = remotes.len() - 1;
    assert(remotes[n] == r);
    match remote_change(own, r)->Ok_0 {
        None => {
            assert forall|k: int|
                0 <= k < remotes.len() && remote_change(own, #[trigger] remotes[k])->Ok_0 is Some implies is_noted(
                own,
                remotes[k],
                so_far,
            ) by {
                assert(front[k] == remotes[k]);
            }
            assert forall|i: int| 0 <= i < so_far.len() implies i < locals.len() && #[trigger] so_far[i] == locals[i]
                || is_of(own, remotes, so_far[i]) by {
                if is_of(own, front, so_far[i]) {
                    lemma_is_of(own, remotes, so_far[i]);
                }
            }
        },
        Some(change) => {
            let at = changes_are_noted_in_place(so_far, r.relative_path, change);
            let list = noted(so_far, r.relative_path, change);
            assert(noted_of(own, r, list[at]));
            assert(is_noted(own, r, list)) by {
                reveal(is_noted);
            }
            assert forall|i: int| 0 <= i < locals.len() implies (#[trigger] list[i]).relative_path
                == locals[i].relative_path && list[i].modified_local_body == locals[i].modified_local_body by {
                assert(so_far[i].relative_path == locals[i].relative_path);
            }
            assert forall|i: int| locals.len() <= i < list.len() implies !(#[trigger] list[i]).modified_local_body by {
                if i < so_far.len() {
                    assert(!so_far[i].modified_local_body);
                }
            }
            assert forall|k: int|
                0 <= k < remotes.len() && remote_change(own, #[trigger] remotes[k])->Ok_0 is Some implies is_noted(
                own,
                remotes[k],
                list,
            ) by {
                if k < n {
                    assert(front[k] == remotes[k]);
                    assert(remotes[k].relative_path != remotes[n].relative_path);
                    lemma_stays_noted(own, remotes[k], so_far, r.relative_path, change);
                }
            }
            assert forall|i: int| 0 <= i < list.len() implies i < locals.len() && #[trigger] list[i] == locals[i]
                || is_of(own, remotes, list[i]) by {
                if i == at {
                    lemma_is_of(own, remotes, list[i]);
                } else {
                    assert(list[i] == so_far[i]);
                    if is_of(own, front, so_far[i]) {
                        lemma_is_of(own, remotes, so_far[i]);
                    }
                }
            }
        },
    }
}

/// What a pass does something about: every local file that was changed here, and every
/// change on the server, and nothing else.
#[verifier::rlimit(40)]
pub proof fn every_change_is_in_the_pass(own: Seq<char>, locals: Seq<SyncEntryV>, remotes: Seq<RemoteV>)
    requires
        forall|i: int, j: int|
            0 <= i < j < remotes.len() ==> (#[trigger] remotes[i]).relative_path != (#[trigger] remotes[j]).relative_path,
        forall|i: int|
            0 <= i < locals.len() ==> !(#[trigger] locals[i]).modified_remote_body
                && !locals[i].modified_remote_metadata,
    ensures
        all_noted(own, locals, remotes) matches Ok(list) ==> {
            let pass = changed_only(list);
            &&& forall|i: int|
                0 <= i < locals.len() && (#[trigger] locals[i]).modified_local_body ==> exists|e: SyncEntryV| #[trigger]
                    pass.contains(e) && e.relative_path == locals[i].relative_path && e.modified_local_body
            &&& forall|k: int, body: bool, metadata: bool|
                0 <= k < remotes.len() && remote_change(own, #[trigger] remotes[k]) == Ok::<
                    Option<(bool, bool)>,
                    ErrorV,
                >(Some((body, metadata))) && #[trigger] some_change(body, metadata) ==> exists|e: SyncEntryV| #[trigger]
                    pass.contains(e) && e.relative_path == remotes[k].relative_path && e.modified_remote_body == body
                        && e.modified_remote_metadata == metadata
            &&& forall|e: SyncEntryV| #[trigger]
                pass.contains(e) ==> (e.modified_local_body && exists|i: int|
                    0 <= i < locals.len() && (#[trigger] locals[i]).relative_path == e.relative_path
                        && locals[i].modified_local_body) || is_of(own, remotes, e)
        },
{
    both_sides_are_looked_at(own, locals, remotes);
    if let Ok(list) = all_noted(own, locals, remotes) {
        let pass = changed_only(list);
        nothing_changed_is_left_out(list);
        assert forall|i: int| 0 <= i < locals.len() && (#[trigger] locals[i]).modified_local_body implies exists|
            e: SyncEntryV,
        | #[trigger]
            pass.contains(e) && e.relative_path == locals[i].relative_path && e.modified_local_body by {
            assert(list.contains(list[i]));
            assert(pass.contains(list[i]));
        }
        assert forall|k: int, body: bool, metadata: bool|
            0 <= k < remotes.len() && remote_change(own, #[trigger] remotes[k]) == Ok::<
                Option<(bool, bool)>,
                ErrorV,
            >(Some((body, metadata))) && #[trigger] some_change(body, metadata) implies exists|e: SyncEntryV| #[trigger]
            pass.contains(e) && e.relative_path == remotes[k].relative_path && e.modified_remote_body == body
                && e.modified_remote_metadata == metadata by {
            reveal(is_noted);
            let i = choose|i: int| 0 <= i < list.len() && noted_of(own, remotes[k], #[trigger] list[i]);
            assert(list.contains(list[i]));
            assert(pass.contains(list[i]));
        }
        assert forall|e: SyncEntryV| #[trigger] pass.contains(e) implies (e.modified_local_body && exists|i: int|
            0 <= i < locals.len() && (#[trigger] locals[i]).relative_path == e.relative_path
                && locals[i].modified_local_body) || is_of(own, remotes, e) by {
            let i = choose|i: int| 0 <= i < list.len() && list[i] == e;
            if i < locals.len() && list[i] == locals[i] {
                assert(locals[i].modified_local_body);
            }
        }
    }
}

// What has changed.

/// A tracked file that is not encrypted at rest is looked at, and was changed here just
/// where its content has another hash than when it was last in step. A file that was
/// never in step is not looked at.
#[verifier::rlimit(40)]
pub proof fn edits_are_noticed(path: Seq<char>, local: LocalV, content: Seq<u8>)
    ensures
        local.sync_hash is Some && local.encrypted != Some(true) ==> local_change(path, local, Some(content)) == Some(
            SyncEntryV {
                relative_path: path,
                modified_local_body: sha256_of(content) != local.sync_hash->0,
                modified_remote_body: false,
                modified_remote_metadata: false,
            },
        ),
        local.sync_hash is None || local.encrypted == Some(true) ==> local_change(path, local, Some(content)) is None,
        local_change(path, local, None) is Some <==> local.sync_modified is Some,
        local_change(path, local, None) matches Some(e) ==> e.relative_path == path && !e.modified_local_body
            && !e.modified_remote_body && !e.modified_remote_metadata,
{
}

/// What another account has changed on the server: the body, where the copy here was
/// signed for another one or has none, and the metadata, where the copy has last seen
/// another time of change.
pub proof fn changes_on_the_server_are_noticed(own: Seq<char>, r: RemoteV, m: MetadataV, local: LocalV)
    requires
        r.metadata.modified_by != own,
        r.exists,
        carries_id(r.attributes),
        metadata_of_attributes(r.attributes) == Ok::<MetadataV, ErrorV>(m),
        local_of(r.attributes) == Ok::<LocalV, ErrorV>(local),
        local.encrypted != Some(true),
    ensures
        ({
            let body = r.metadata.body_hash matches Some(hash) && !(m.body_hash matches Some(mine) && mine.value
                == hash.value);
            let time = match local.sync_modified {
                Some(t) => t,
                None => m.modified,
            };
            let other = time != r.metadata.modified;
            remote_change(own, r) == Ok::<Option<(bool, bool)>, ErrorV>(
                if body || other {
                    Some((body, other))
                } else {
                    None
                },
            )
        }),
{
}

/// What another account has put on the server and is not here is taken over: a file
/// with its body, a directory without one.
pub proof fn missing_files_are_noticed(own: Seq<char>, r: RemoteV)
    requires
        r.metadata.modified_by != own,
        !r.exists,
    ensures
        remote_change(own, r) == Ok::<Option<(bool, bool)>, ErrorV>(Some((r.metadata.body_hash is Some, true))),
{
}

/// What is reported of a step: nothing where nothing was done, otherwise the path and
/// what it is, whether metadata alone was changed, and whether both sides had changed.
pub proof fn steps_are_reported(step: SyncStep, path: Seq<char>, dir: bool)
    ensures
        step_event(step, path, dir) is None <==> step == SyncStep::Nothing,
        step_event(step, path, dir) matches Some(e) ==> e.path == path && e.conflict == (step == SyncStep::Conflict)
            && (e.action == EntryAction::Metadata <==> step == SyncStep::Metadata) && (e.action
            == EntryAction::Modified <==> step != SyncStep::Metadata) && (e.kind == Some(DirectoryEntryKind::Dir)
            <==> dir) && (e.kind == Some(DirectoryEntryKind::File) <==> !dir),
{
}

/// Taking over metadata remembers the time of the change and keeps everything else that
/// was remembered, and it is refused just where a file is not here.
#[verifier::rlimit(40)]
pub proof fn taken_metadata_is_remembered(
    path: Seq<char>,
    m: MetadataV,
    exists: bool,
    attributes: Seq<(Seq<char>, Seq<u8>)>,
)
    ensures
        metadata_taken(path, m, exists, attributes) is Err <==> m.body_hash is Some && !exists,
        metadata_taken(path, m, exists, attributes) matches Err(e) ==> e.fault == Fault::LocalMissing,
        metadata_taken(path, m, exists, attributes) matches Ok(after) ==> after.sync_modified == Some(m.modified) && (
        local_of(attributes) matches Ok(before) ==> after.encrypted == before.encrypted && after.sync_hash
            == before.sync_hash) && (local_of(attributes) is Err ==> after.encrypted is None && after.sync_hash is None),
{
}

/// What is done about an event on the server: whatever was made or changed there is
/// taken over, with a body unless it is a directory; a file that was removed there and
/// is here is removed; and nothing else is done.
pub proof fn events_are_followed(path: Seq<char>, event: EntryEventV, exists: bool)
    ensures
        pull_reaction(path, event, exists) is Sync <==> event.action == EntryAction::Created || event.action
            == EntryAction::Modified,
        pull_reaction(path, event, exists) matches ReactionV::Sync { entry } ==> entry.relative_path == path
            && !entry.modified_local_body && (entry.modified_remote_body <==> event.kind != Some(
            DirectoryEntryKind::Dir,
        )) && entry.modified_remote_metadata,
        pull_reaction(path, event, exists) is Remove <==> event.action == EntryAction::Deleted && exists && event.kind
            != Some(DirectoryEntryKind::Dir),
        pull_reaction(path, event, exists) matches ReactionV::Remove { report } ==> report.path == path && report.action
            == EntryAction::Deleted && report.kind == Some(DirectoryEntryKind::File) && !report.conflict,
{
}

/// A path below a directory is the directory and the path with a slash between them,
/// where both are there, and otherwise the one that is.
#[verifier::rlimit(40)]
pub proof fn paths_are_put_together(prefix: Seq<char>, sub: Seq<char>)
    ensures
        path_below(Seq::empty(), sub) == sub,
        path_below(prefix, Seq::empty()) == prefix,
        prefix.len() > 0 && sub.len() > 0 ==> path_below(prefix, sub).len() == prefix.len() + 1 + sub.len()
            && prefix.is_prefix_of(path_below(prefix, sub)) && sub.is_suffix_of(path_below(prefix, sub)) && path_below(
            prefix,
            sub,
        )[prefix.len() as int] == '/',
{
    reveal_strlit("/");
    if prefix.len() > 0 && sub.len() > 0 {
        let whole = path_below(prefix, sub);
        assert(whole.subrange(0, prefix.len() as int) =~= prefix);
        assert(whole.subrange(whole.len() - sub.len(), whole.len() as int) =~= sub);
    } else {
        assert(path_below(prefix, sub) == prefix || path_below(prefix, sub) == sub);
        if prefix.len() == 0 {
            assert(prefix =~= Seq::empty());
        }
        if sub.len() == 0 {
            assert(sub =~= Seq::empty());
        }
    }
}

// The log.

/// Whether an entry of a listing is a file of the log: its name ends in `.http`.
pub open spec fn log_file(e: EntryV) -> bool {
    e.kind == DirectoryEntryKind::File && ".http"@.is_suffix_of(e.name)
}

/// Whether a log entry is still to be looked at: there is no entry up to which the log
/// was looked at, or that one was written before.
pub open spec fn is_due(name: Seq<char>, cutoff: Option<Seq<char>>) -> bool {
    cutoff matches Some(c) ==> precedes(stamp(c), stamp(name))
}

#[verifier::rlimit(40)]
proof fn lemma_stamped(entries: Seq<EntryV>)
    ensures
        stamped(entries) == entries.filter(|e: EntryV| log_file(e)).map_values(|e: EntryV| (stamp(e.name), e.name)),
    decreases entries.len(),
{
    reveal(Seq::filter);
    let keep = |e: EntryV| log_file(e);
    let pair = |e: EntryV| (stamp(e.name), e.name);
    if entries.len() > 0 {
        let rest = entries.drop_last();
        let e = entries.last();
        lemma_stamped(rest);
        assert(".http"@.is_suffix_of(e.name) <==> ".http"@.len() <= e.name.len() && e.name.skip(
            e.name.len() - ".http"@.len(),
        ) == ".http"@) by {
            if ".http"@.len() <= e.name.len() {
                assert(e.name.skip(e.name.len() - ".http"@.len()) =~= e.name.subrange(
                    e.name.len() - ".http"@.len(),
                    e.name.len() as int,
                ));
            }
        }
        if keep(e) {
            assert(rest.filter(keep).push(e).map_values(pair) =~= rest.filter(keep).map_values(pair).push(pair(e)));
        }
        assert(stamped(entries) =~= entries.filter(keep).map_values(pair));
    } else {
        assert(stamped(entries) =~= entries.filter(keep).map_values(pair));
    }
}

#[verifier::rlimit(40)]
proof fn lemma_later_names(list: Seq<(Seq<char>, Seq<char>)>, cutoff: Option<Seq<char>>)
    ensures
        later_names(list, cutoff) == list.filter(
            |p: (Seq<char>, Seq<char>)| cutoff matches Some(c) ==> precedes(stamp(c), p.0),
        ).map_values(|p: (Seq<char>, Seq<char>)| p.1),
    decreases list.len(),
{
    reveal(Seq::filter);
    let keep = |p: (Seq<char>, Seq<char>)| cutoff matches Some(c) ==> precedes(stamp(c), p.0);
    let name = |p: (Seq<char>, Seq<char>)| p.1;
    if list.len() > 0 {
        let rest = list.drop_last();
        lemma_later_names(rest, cutoff);
        if keep(list.last()) {
            assert(rest.filter(keep).push(list.last()).map_values(name) =~= rest.filter(keep).map_values(name).push(
                name(list.last()),
            ));
        }
        assert(later_names(list, cutoff) =~= list.filter(keep).map_values(name));
    } else {
        assert(later_names(list, cutoff) =~= list.filter(keep).map_values(name));
    }
}

/// Every file of the log that was written after the one up to which the log was looked
/// at is still to be looked at, and nothing else is.
#[verifier::rlimit(40)]
pub proof fn no_log_entry_is_passed_over(entries: Seq<EntryV>, cutoff: Option<Seq<char>>, name: Seq<char>)
    ensures
        pending(entries, cutoff).contains(name) <==> exists|k: int|
            0 <= k < entries.len() && log_file(#[trigger] entries[k]) && entries[k].name == name && is_due(name, cutoff),
{
    broadcast use vstd::seq_lib::group_to_multiset_ensures;

    let keep = |e: EntryV| log_file(e);
    let pair = |e: EntryV| (stamp(e.name), e.name);
    let late = |p: (Seq<char>, Seq<char>)| cutoff matches Some(c) ==> precedes(stamp(c), p.0);
    let label = |p: (Seq<char>, Seq<char>)| p.1;
    let list = stamped(entries);
    let all = sorted(list);
    let names = pending(entries, cutoff);
    lemma_stamped(entries);
    sorting_keeps_headers(list);
    lemma_later_names(all, cutoff);
    assert(names == all.filter(late).map_values(label));
    if names.contains(name) {
        let i = choose|i: int| 0 <= i < names.len() && names[i] == name;
        let p = all.filter(late)[i];
        all.lemma_filter_pred(late, i);
        all.lemma_filter_contains_rev(late, p);
        assert(all.to_multiset().contains(p));
        assert(list.contains(p));
        let j = choose|j: int| 0 <= j < list.len() && list[j] == p;
        entries.lemma_filter_pred(keep, j);
        let e = entries.filter(keep)[j];
        entries.lemma_filter_contains_rev(keep, e);
        let k = choose|k: int| 0 <= k < entries.len() && entries[k] == e;
        assert(log_file(entries[k]) && entries[k].name == name && is_due(name, cutoff));
    }
    if exists|k: int|
        0 <= k < entries.len() && log_file(#[trigger] entries[k]) && entries[k].name == name && is_due(name, cutoff) {
        let k = choose|k: int|
            0 <= k < entries.len() && log_file(#[trigger] entries[k]) && entries[k].name == name && is_due(name, cutoff);
        let e = entries[k];
        let p = pair(e);
        assert(keep(entries[k]));
        entries.lemma_filter_contains(keep, k);
        let j = choose|j: int| 0 <= j < entries.filter(keep).len() && entries.filter(keep)[j] == e;
        assert(list[j] == p);
        assert(list.to_multiset().contains(p));
        assert(all.contains(p));
        let i = choose|i: int| 0 <= i < all.len() && all[i] == p;
        assert(late(all[i]));
        all.lemma_filter_contains(late, i);
        let n = choose|n: int| 0 <= n < all.filter(late).len() && all.filter(late)[n] == p;
        assert(names[n] == name);
    }
}

/// Taking up a file puts it in the place that it has or behind the others, unless what
/// there is of it was changed later.
#[verifier::rlimit(40)]
pub proof fn newest_is_taken(files: Seq<(Seq<char>, MetadataV)>, path: Seq<char>, m: MetadataV) -> (at: int)
    ensures
        0 <= at <= files.len(),
        forall|j: int| 0 <= j < at ==> (#[trigger] files[j]).0 != path,
        at == files.len() ==> newest(files, path, m) == files.push((path, m)),
        at < files.len() ==> files[at].0 == path && newest(files, path, m) == (if precedes(
            m.modified,
            files[at].1.modified,
        ) {
            files
        } else {
            files.update(at, (path, m))
        }),
    decreases files.len(),
{
    if files.len() == 0 {
        assert(newest(files, path, m) =~= files.push((path, m)));
        0
    } else if files[0].0 == path {
        if !precedes(m.modified, files[0].1.modified) {
            assert(newest(files, path, m) =~= files.update(0, (path, m)));
        }
        0
    } else {
        let rest = files.skip(1);
        let at = newest_is_taken(rest, path, m);
        assert forall|j: int| 0 <= j < at + 1 implies (#[trigger] files[j]).0 != path by {
            if j > 0 {
                assert(rest[j - 1] == files[j]);
            }
        }
        if at < rest.len() {
            assert(rest[at] == files[at + 1]);
            if precedes(m.modified, files[at + 1].1.modified) {
                assert(newest(files, path, m) =~= files);
            } else {
                assert(newest(files, path, m) =~= files.update(at + 1, (path, m)));
            }
        } else {
            assert(newest(files, path, m) =~= files.push((path, m)));
        }
        at + 1
    }
}

/// Whether a log entry wrote a file below a directory, with its metadata.
pub open spec fn wrote(
    account_prefix: Seq<char>,
    prefix: Seq<char>,
    body: Option<Seq<u8>>,
    path: Seq<char>,
    m: MetadataV,
) -> bool {
    &&& body matches Some(b)
    &&& put_in(b, account_prefix) == Ok::<Option<(Seq<char>, MetadataV)>, ErrorV>(Some((path, m)))
    &&& prefix.len() == 0 || path == prefix || (prefix + "/"@).is_prefix_of(path)
}

/// Whether one of the log entries wrote a file with its metadata.
#[verifier::opaque]
pub open spec fn written(
    account_prefix: Seq<char>,
    prefix: Seq<char>,
    bodies: Seq<Option<Seq<u8>>>,
    path: Seq<char>,
    m: MetadataV,
) -> bool {
    exists|k: int| 0 <= k < bodies.len() && wrote(account_prefix, prefix, #[trigger] bodies[k], path, m)
}

/// Whether a map holds a file, with metadata that is not older than the one given.
#[verifier::opaque]
pub open spec fn held(files: Seq<(Seq<char>, MetadataV)>, path: Seq<char>, m: MetadataV) -> bool {
    exists|i: int|
        0 <= i < files.len() && (#[trigger] files[i]).0 == path && !precedes(files[i].1.modified, m.modified)
}

/// What the log says of a directory: it holds each file that some entry wrote there,
/// once, with metadata that an entry wrote and than which none is newer, and nothing
/// else; and there is one error for each entry that cannot be read.
#[verifier::rlimit(40)]
pub proof fn log_holds_the_newest(account_prefix: Seq<char>, prefix: Seq<char>, bodies: Seq<Option<Seq<u8>>>)
    ensures
        ({
            let map = log_map(account_prefix, prefix, bodies);
            &&& forall|i: int, j: int|
                0 <= i < j < map.files.len() ==> (#[trigger] map.files[i]).0 != (#[trigger] map.files[j]).0
            &&& forall|i: int|
                0 <= i < map.files.len() ==> written(
                    account_prefix,
                    prefix,
                    bodies,
                    (#[trigger] map.files[i]).0,
                    map.files[i].1,
                )
            &&& forall|path: Seq<char>, m: MetadataV| #[trigger]
                written(account_prefix, prefix, bodies, path, m) ==> held(map.files, path, m)
            &&& map.errors.len() == bodies.filter(
                |b: Option<Seq<u8>>| b is Some && put_in(b->0, account_prefix) is Err,
            ).len()
        }),
    decreases bodies.len(),
{
    reveal(Seq::filter);
    reveal(written);
    if bodies.len() > 0 {
        let front = bodies.drop_last();
        let old_map = log_map(account_prefix, prefix, front);
        let map = log_map(account_prefix, prefix, bodies);
        log_holds_the_newest(account_prefix, prefix, front);
        reveal_strlit("/");
        assert(prefix.push('/') =~= prefix + "/"@);
        assert forall|path: Seq<char>, m: MetadataV|
            written(account_prefix, prefix, bodies, path, m) == (#[trigger] written(
                account_prefix,
                prefix,
                front,
                path,
                m,
            ) || wrote(account_prefix, prefix, bodies.last(), path, m)) by {
            lemma_written(account_prefix, prefix, bodies, path, m);
        }
        let took = match bodies.last() {
            Some(b) => match put_in(b, account_prefix) {
                Ok(Some((path, m))) => is_under(path, prefix),
                _ => false,
            },
            None => false,
        };
        if took {
            let (path, m) = (put_in(bodies.last()->0, account_prefix)->Ok_0)->0;
            assert(map.files == newest(old_map.files, path, m));
            lemma_took(account_prefix, prefix, bodies, old_map.files, path, m);
        } else {
            assert(map.files == old_map.files);
            assert forall|path: Seq<char>, m: MetadataV| #[trigger]
                written(account_prefix, prefix, bodies, path, m) implies held(map.files, path, m) by {
                assert(written(account_prefix, prefix, front, path, m));
            }
        }
    }
}

#[verifier::rlimit(40)]
proof fn lemma_written(
    account_prefix: Seq<char>,
    prefix: Seq<char>,
    bodies: Seq<Option<Seq<u8>>>,
    path: Seq<char>,
    m: MetadataV,
)
    requires
        bodies.len() > 0,
    ensures
        written(account_prefix, prefix, bodies, path, m) == (written(
            account_prefix,
            prefix,
            bodies.drop_last(),
            path,
            m,
        ) || wrote(account_prefix, prefix, bodies.last(), path, m)),
{
    reveal(written);
    let front = bodies.drop_last();
    if written(account_prefix, prefix, bodies, path, m) {
        let k = choose|k: int| 0 <= k < bodies.len() && wrote(account_prefix, prefix, #[trigger] bodies[k], path, m);
        if k < front.len() {
            assert(front[k] == bodies[k]);
        }
    }
    if written(account_prefix, prefix, front, path, m) {
        let k = choose|k: int| 0 <= k < front.len() && wrote(account_prefix, prefix, #[trigger] front[k], path, m);
        assert(front[k] == bodies[k]);
    }
    if wrote(account_prefix, prefix, bodies.last(), path, m) {
        assert(wrote(account_prefix, prefix, bodies[bodies.len() - 1], path, m));
    }
}

#[verifier::rlimit(40)]
proof fn lemma_took(
    account_prefix: Seq<char>,
    prefix: Seq<char>,
    bodies: Seq<Option<Seq<u8>>>,
    files: Seq<(Seq<char>, MetadataV)>,
    path: Seq<char>,
    m: MetadataV,
)
    requires
        bodies.len() > 0,
        wrote(account_prefix, prefix, bodies.last(), path, m),
        forall|i: int, j: int| 0 <= i < j < files.len() ==> (#[trigger] files[i]).0 != (#[trigger] files[j]).0,
        forall|i: int|
            0 <= i < files.len() ==> written(
                account_prefix,
                prefix,
                bodies.drop_last(),
                (#[trigger] files[i]).0,
                files[i].1,
            ),
        forall|p: Seq<char>, x: MetadataV| #[trigger]
            written(account_prefix, prefix, bodies.drop_last(), p, x) ==> held(files, p, x),
    ensures
        ({
            let after = newest(files, path, m);
            &&& forall|i: int, j: int| 0 <= i < j < after.len() ==> (#[trigger] after[i]).0 != (#[trigger] after[j]).0
            &&& forall|i: int|
                0 <= i < after.len() ==> written(account_prefix, prefix, bodies, (#[trigger] after[i]).0, after[i].1)
            &&& forall|p: Seq<char>, x: MetadataV| #[trigger]
                written(account_prefix, prefix, bodies, p, x) ==> held(after, p, x)
        }),
{
    let after = newest(files, path, m);
    let at = newest_is_taken(files, path, m);
    assert forall|i: int, j: int| 0 <= i < j < after.len() implies (#[trigger] after[i]).0 != (#[trigger] after[j]).0 by {
        if j < files.len() {
            assert(files[i].0 != files[j].0);
        } else {
            assert(files[i].0 != path);
        }
    }
    assert forall|i: int| 0 <= i < after.len() implies written(
        account_prefix,
        prefix,
        bodies,
        (#[trigger] after[i]).0,
        after[i].1,
    ) by {
        lemma_written(account_prefix, prefix, bodies, after[i].0, after[i].1);
        if i < files.len() && after[i] == files[i] {
            assert(written(account_prefix, prefix, bodies.drop_last(), files[i].0, files[i].1));
        }
    }
    assert forall|p: Seq<char>, x: MetadataV| #[trigger]
        written(account_prefix, prefix, bodies, p, x) implies held(after, p, x) by {
        lemma_written(account_prefix, prefix, bodies, p, x);
        if written(account_prefix, prefix, bodies.drop_last(), p, x) {
            assert(held(files, p, x));
            lemma_stays_held(files, path, m, p, x);
        } else {
            assert(p == path && x == m);
            lemma_is_held(files, path, m);
        }
    }
}

proof fn lemma_stays_held(
    files: Seq<(Seq<char>, MetadataV)>,
    path: Seq<char>,
    m: MetadataV,
    p: Seq<char>,
    x: MetadataV,
)
    requires
        held(files, p, x),
    ensures
        held(newest(files, path, m), p, x),
{
    reveal(held);
    let after = newest(files, path, m);
    let at = newest_is_taken(files, path, m);
    let i = choose|i: int|
        0 <= i < files.len() && (#[trigger] files[i]).0 == p && !precedes(files[i].1.modified, x.modified);
    assert(after[i].0 == p);
    if after[i] != files[i] {
        lemma_not_later(x.modified, files[at].1.modified, m.modified);
    }
}

proof fn lemma_is_held(files: Seq<(Seq<char>, MetadataV)>, path: Seq<char>, m: MetadataV)
    ensures
        held(newest(files, path, m), path, m),
{
    reveal(held);
    let after = newest(files, path, m);
    let at = newest_is_taken(files, path, m);
    assert(after[at].0 == path);
    lemma_precedes_irreflexive(m.modified);
    if at < files.len() && precedes(m.modified, files[at].1.modified) {
        if precedes(files[at].1.modified, m.modified) {
            lemma_precedes_transitive(m.modified, files[at].1.modified, m.modified);
        }
    }
    assert(!precedes(after[at].1.modified, m.modified));
}

/// What is not before something that is not before a third is not before the third.
proof fn lemma_not_later(a: Seq<char>, b: Seq<char>, c: Seq<char>)
    requires
        !precedes(b, a),
        !precedes(c, b),
    ensures
        !precedes(c, a),
{
    if precedes(c, a) {
        lemma_precedes_total(a, b);
        if a == b {
        } else if precedes(a, b) {
            lemma_precedes_transitive(c, a, b);
        }
    }
}

} // verus!
