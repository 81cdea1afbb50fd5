//! What holds of every proposal that is listed, named or accepted.

use vstd::prelude::*;

use crate::access_laws::level;
use crate::error::{ErrorV, Fault};
use crate::fields::metadata_of;
use crate::log::entry_in;
use crate::metadata::member_at;
use crate::number::{decimal, decimal_round_trip, parsed};
use crate::identity::address_parts;
use crate::primitives::sha256_of;
use crate::proposals::{
    acceptance, change_accepted, collected, entry_named, entry_path, fetched_whole, first_raised, inserted, is_log,
    proposal_in, EntryV, ProposalV,
};
use crate::text::{lemma_precedes_irreflexive, lemma_precedes_total, lemma_precedes_transitive, precedes, trim_back, Trim};
use crate::types::{MemberV, MetadataV, Permission};

verus! {

// What a proposal is named by.

/// Proposals are counted from one: each number up to how many there are names the
/// proposal in that place, in the order in which they are listed.
pub proof fn proposals_are_counted_from_one(list: Seq<ProposalV>, k: nat)
    requires
        1 <= k <= list.len(),
        list.len() <= usize::MAX,
    ensures
        entry_named(list, decimal(k)) == Ok::<Seq<char>, ErrorV>(list[k - 1].id),
{
    decimal_round_trip(k, usize::MAX as nat);
}

/// A number that counts no proposal names none, and what is no number is the name of a
/// log entry itself, whatever is proposed.
pub proof fn other_texts_name_themselves(list: Seq<ProposalV>, k: nat, text: Seq<char>)
    requires
        k == 0 || k > list.len(),
        k <= usize::MAX,
    ensures
        entry_named(list, decimal(k)) matches Err(e) && e.fault == Fault::NoProposal,
        (exists|i: int| 0 <= i < text.len() && !('0' <= #[trigger] text[i] <= '9') && text[i] != '+') ==> entry_named(
            list,
            text,
        ) == Ok::<Seq<char>, ErrorV>(text),
        text.len() == 0 ==> entry_named(list, text) == Ok::<Seq<char>, ErrorV>(text),
{
    decimal_round_trip(k, usize::MAX as nat);
    if exists|i: int| 0 <= i < text.len() && !('0' <= #[trigger] text[i] <= '9') && text[i] != '+' {
        let i = choose|i: int| 0 <= i < text.len() && !('0' <= #[trigger] text[i] <= '9') && text[i] != '+';
        let rest = text.skip(1);
        if i > 0 {
            assert(rest[i - 1] == text[i]);
        }
        assert(parsed(text, usize::MAX as nat) is None);
    }
}

/// A name is that of a log entry just where it ends in `.http`.
pub proof fn log_entries_end_in_http(stem: Seq<char>, name: Seq<char>)
    ensures
        is_log(stem + ".http"@),
        is_log(name) <==> ".http"@.is_suffix_of(name),
        entry_path(name) == "/.ark/requests/"@ + name,
{
    let whole = stem + ".http"@;
    assert(whole.skip(whole.len() - ".http"@.len()) =~= ".http"@);
    if ".http"@.len() <= name.len() {
        assert(name.skip(name.len() - ".http"@.len()) =~= name.subrange(
            name.len() - ".http"@.len(),
            name.len() as int,
        ));
    }
}

// What is proposed.

/// A log entry is a proposal just where it is a write that was answered with `403` and
/// carried metadata; the proposal has its name, its path and that metadata.
pub proof fn refused_writes_alone_are_proposals(name: Seq<char>, b: Seq<u8>)
    ensures
        entry_in(b) matches Err(e) ==> proposal_in(name, b) == Err::<Option<ProposalV>, ErrorV>(e),
        entry_in(b) matches Ok(entry) ==> {
            let refused = entry.method == "PUT"@ && entry.status == 403;
            &&& !refused ==> proposal_in(name, b) == Ok::<Option<ProposalV>, ErrorV>(None)
            &&& refused && metadata_of(entry.request_headers) is Err ==> proposal_in(name, b) is Err
            &&& refused && metadata_of(entry.request_headers) is Ok ==> (match proposal_in(name, b) {
                Ok(Some(p)) => p.id == name && p.metadata == metadata_of(entry.request_headers)->Ok_0
                    && p.target.is_prefix_of(entry.target) && !p.target.contains('?') && (p.target == entry.target
                    || entry.target[p.target.len() as int] == '?'),
                _ => false,
            })
        },
{
    if let Ok(entry) = entry_in(b) {
        let t = entry.target;
        crate::text::lemma_first(t, '?');
        let at = crate::text::first(t, '?') as int;
        let p = crate::text::before(t, '?');
        assert(p =~= t.subrange(0, at));
        assert forall|k: int| 0 <= k < p.len() implies p[k] != '?' by {
            assert(p[k] == t[k]);
        }
        if at == t.len() {
            assert(p =~= t);
        }
    }
}

/// Whether a log entry proposes something.
pub open spec fn proposes(e: EntryV, p: ProposalV) -> bool {
    e.body is Some && ".http"@.is_suffix_of(e.name) && proposal_in(e.name, e.body->0) == Ok::<Option<ProposalV>, ErrorV>(
        Some(p),
    )
}

proof fn lemma_inserted(list: Seq<ProposalV>, p: ProposalV)
    ensures
        inserted(list, p).to_multiset() == list.to_multiset().insert(p),
        inserted(list, p).len() == list.len() + 1,
    decreases list.len(),
{
    broadcast use vstd::seq_lib::group_to_multiset_ensures;

    if list.len() == 0 || !precedes(p.id, list.last().id) {
    } else {
        lemma_inserted(list.drop_last(), p);
        assert(list.drop_last().push(list.last()) =~= list);
        assert(inserted(list, p).to_multiset() =~= list.to_multiset().insert(p));
    }
}

#[verifier::rlimit(40)]
proof fn lemma_in_order(list: Seq<ProposalV>, p: ProposalV)
    requires
        forall|i: int, j: int| 0 <= i < j < list.len() ==> !precedes((#[trigger] list[j]).id, (#[trigger] list[i]).id),
    ensures
        ({
            let r = inserted(list, p);
            &&& forall|i: int, j: int| 0 <= i < j < r.len() ==> !precedes((#[trigger] r[j]).id, (#[trigger] r[i]).id)
            &&& forall|i: int| 0 <= i < r.len() ==> list.contains(#[trigger] r[i]) || r[i] == p
        }),
    decreases list.len(),
{
    let r = inserted(list, p);
    if list.len() == 0 || !precedes(p.id, list.last().id) {
        assert forall|i: int, j: int| 0 <= i < j < r.len() implies !precedes((#[trigger] r[j]).id, (#[trigger] r[i]).id) by {
            if j == list.len() {
                let last = list[list.len() - 1];
                if i < list.len() - 1 {
                    assert(!precedes(last.id, list[i].id));
                    if precedes(p.id, list[i].id) {
                        lemma_precedes_total(list[i].id, last.id);
                        if list[i].id != last.id {
                            lemma_precedes_transitive(p.id, list[i].id, last.id);
                        }
                    }
                }
            }
        }
        assert forall|i: int| 0 <= i < r.len() implies list.contains(#[trigger] r[i]) || r[i] == p by {
            if i < list.len() {
                assert(list[i] == r[i]);
            }
        }
    } else {
        let front = list.drop_last();
        let last = list.last();
        assert forall|i: int, j: int| 0 <= i < j < front.len() implies !precedes(
            (#[trigger] front[j]).id,
            (#[trigger] front[i]).id,
        ) by {
            assert(front[i] == list[i] && front[j] == list[j]);
        }
        lemma_in_order(front, p);
        lemma_inserted(front, p);
        let r0 = inserted(front, p);
        assert forall|i: int, j: int| 0 <= i < j < r.len() implies !precedes((#[trigger] r[j]).id, (#[trigger] r[i]).id) by {
            if j < r0.len() {
                assert(r0[i] == r[i] && r0[j] == r[j]);
            } else {
                assert(r[j] == last && r[i] == r0[i]);
                if r0[i] == p {
                    if precedes(last.id, p.id) {
                        lemma_precedes_transitive(last.id, p.id, last.id);
                        lemma_precedes_irreflexive(last.id);
                    }
                } else {
                    assert(front.contains(r0[i]));
                    let k = choose|k: int| 0 <= k < front.len() && front[k] == r0[i];
                    assert(list[k] == r[i]);
                    assert(list[list.len() - 1] == last);
                }
            }
        }
        assert forall|i: int| 0 <= i < r.len() implies list.contains(#[trigger] r[i]) || r[i] == p by {
            if i < r0.len() {
                assert(r0[i] == r[i]);
                if r[i] != p {
                    let k = choose|k: int| 0 <= k < front.len() && front[k] == r0[i];
                    assert(list[k] == r[i]);
                }
            } else {
                assert(list[list.len() - 1] == r[i]);
            }
        }
    }
}

/// Whether one of the log entries proposes something.
#[verifier::opaque]
pub open spec fn is_proposed(entries: Seq<EntryV>, p: ProposalV) -> bool {
    exists|k: int| 0 <= k < entries.len() && proposes(#[trigger] entries[k], p)
}

/// Whether a log entry cannot be read.
pub open spec fn unreadable(e: EntryV) -> bool {
    e.body is Some && ".http"@.is_suffix_of(e.name) && proposal_in(e.name, e.body->0) is Err
}

#[verifier::rlimit(40)]
proof fn lemma_is_proposed(entries: Seq<EntryV>, p: ProposalV)
    requires
        entries.len() > 0,
    ensures
        is_proposed(entries, p) == (is_proposed(entries.drop_last(), p) || proposes(entries.last(), p)),
{
    reveal(is_proposed);
    let front = entries.drop_last();
    if is_proposed(entries, p) {
        let k = choose|k: int| 0 <= k < entries.len() && proposes(#[trigger] entries[k], p);
        if k < front.len() {
            assert(front[k] == entries[k]);
        }
    }
    if is_proposed(front, p) {
        let k = choose|k: int| 0 <= k < front.len() && proposes(#[trigger] front[k], p);
        assert(front[k] == entries[k]);
    }
    if proposes(entries.last(), p) {
        assert(proposes(entries[entries.len() - 1], p));
    }
}

proof fn lemma_inserted_contains(list: Seq<ProposalV>, p: ProposalV, q: ProposalV)
    ensures
        inserted(list, p).contains(q) <==> list.contains(q) || q == p,
{
    broadcast use vstd::seq_lib::group_to_multiset_ensures;

    lemma_inserted(list, p);
    assert(inserted(list, p).contains(q) <==> inserted(list, p).to_multiset().contains(q));
    assert(list.contains(q) <==> list.to_multiset().contains(q));
}

/// Every proposal in the log is listed, as often as it is there, and nothing else is; and
/// they are listed in the order of their names. Listing fails just where an entry of the
/// log cannot be read.
#[verifier::spinoff_prover]
#[verifier::rlimit(60)]
pub proof fn every_proposal_is_listed(entries: Seq<EntryV>)
    ensures
        collected(entries) is Err <==> exists|k: int| 0 <= k < entries.len() && unreadable(#[trigger] entries[k]),
        collected(entries) matches Ok(list) ==> {
            &&& forall|p: ProposalV| #[trigger] list.contains(p) <==> is_proposed(entries, p)
            &&& list.len() == entries.filter(|e: EntryV| exists|p: ProposalV| #[trigger] proposes(e, p)).len()
            &&& forall|i: int, j: int|
                0 <= i < j < list.len() ==> !precedes((#[trigger] list[j]).id, (#[trigger] list[i]).id)
        },
    decreases entries.len(),
{
    reveal(Seq::filter);
    let some = |e: EntryV| exists|p: ProposalV| #[trigger] proposes(e, p);
    if entries.len() == 0 {
        reveal(is_proposed);
    } else {
        let front = entries.drop_last();
        let e = entries.last();
        let n = entries.len() - 1;
        every_proposal_is_listed(front);
        log_entries_end_in_http(e.name, e.name);
        assert(entries[n] == e);
        if collected(front) is Err {
            let k = choose|k: int| 0 <= k < front.len() && unreadable(#[trigger] front[k]);
            assert(entries[k] == front[k]);
        } else if collected(entries) is Err {
            assert(unreadable(entries[n]));
        } else {
            assert forall|k: int| 0 <= k < entries.len() implies !unreadable(#[trigger] entries[k]) by {
                if k < n {
                    assert(front[k] == entries[k]);
                }
            }
            let before = collected(front)->Ok_0;
            let list = collected(entries)->Ok_0;
            if some(e) {
                let p = choose|p: ProposalV| #[trigger] proposes(e, p);
                assert(list == inserted(before, p));
                lemma_inserted(before, p);
                lemma_in_order(before, p);
                assert forall|q: ProposalV| #[trigger] list.contains(q) <==> is_proposed(entries, q) by {
                    lemma_inserted_contains(before, p, q);
                    lemma_is_proposed(entries, q);
                    assert(before.contains(q) <==> is_proposed(front, q));
                }
            } else {
                assert(list == before) by {
                    if list != before {
                        let p = (proposal_in(e.name, e.body->0)->Ok_0)->0;
                        assert(proposes(e, p));
                    }
                }
                assert forall|q: ProposalV| #[trigger] list.contains(q) <==> is_proposed(entries, q) by {
                    lemma_is_proposed(entries, q);
                    assert(before.contains(q) <==> is_proposed(front, q));
                }
            }
        }
    }
}

// What is accepted.

/// A proposed file is taken from the account that proposes it and put at the same path
/// of the own account; the path of a directory ends with one slash. Nothing is
/// accepted that is not below the own account.
pub proof fn accepted_files_keep_their_path(
    account: Seq<char>,
    id: Seq<char>,
    b: Seq<u8>,
    p: ProposalV,
    user: Seq<char>,
    path: Seq<char>,
)
    requires
        proposal_in(id, b) == Ok::<Option<ProposalV>, ErrorV>(Some(p)),
        address_parts(account) matches Ok(parts) && parts.0 == user,
    ensures
        p.target == "/ark/"@ + user + "/"@ + path && p.metadata.body_hash is Some ==> (match acceptance(account, id, b) {
            Ok(a) => a.proposal == p && !a.dir && a.source == p.metadata.modified_by + "/"@ + path && a.destination
                == "/"@ + path,
            Err(_) => false,
        }),
        p.target == "/ark/"@ + user + "/"@ + path && p.metadata.body_hash is None ==> (match acceptance(account, id, b) {
            Ok(a) => a.proposal == p && a.dir && a.source == p.metadata.modified_by + "/"@ + trim_back(
                path,
                Trim::Slash,
            ) + "/"@ && a.destination == "/"@ + trim_back(path, Trim::Slash) + "/"@,
            Err(_) => false,
        }),
        !("/ark/"@ + user + "/"@).is_prefix_of(p.target) ==> (acceptance(account, id, b) matches Err(e) && e.fault
            == Fault::TargetNotWithin),
{
    let prefix = "/ark/"@ + user + "/"@;
    if p.target == prefix + path {
        assert(prefix =~= p.target.subrange(0, prefix.len() as int));
        assert(p.target.skip(prefix.len() as int) =~= path);
        if p.metadata.body_hash is None {
            let a = acceptance(account, id, b)->Ok_0;
            assert(a.source =~= p.metadata.modified_by + "/"@ + trim_back(path, Trim::Slash) + "/"@);
            assert(a.destination =~= "/"@ + trim_back(path, Trim::Slash) + "/"@);
        }
    }
}

/// Whether a member has no more than was proposed.
pub open spec fn within(proposed: Seq<MemberV>, m: MemberV) -> bool {
    match member_at(proposed, m.address) {
        Some(before) => level(m.permission) <= level(before.permission),
        None => false,
    }
}

#[verifier::rlimit(40)]
proof fn lemma_raised(proposed: Seq<MemberV>, current: Seq<MemberV>)
    ensures
        first_raised(proposed, current) is None <==> forall|i: int|
            0 <= i < current.len() ==> within(proposed, #[trigger] current[i]),
    decreases current.len(),
{
    if current.len() > 0 {
        let rest = current.skip(1);
        lemma_raised(proposed, rest);
        assert forall|i: int| 0 <= i < rest.len() implies #[trigger] rest[i] == current[i + 1] by {}
        if first_raised(proposed, current) is None {
            assert forall|i: int| 0 <= i < current.len() implies within(proposed, #[trigger] current[i]) by {
                if i > 0 {
                    assert(within(proposed, rest[i - 1]));
                }
            }
        }
        if forall|i: int| 0 <= i < current.len() ==> within(proposed, #[trigger] current[i]) {
            assert(within(proposed, current[0]));
            assert forall|i: int| 0 <= i < rest.len() implies within(proposed, #[trigger] rest[i]) by {
                assert(within(proposed, current[i + 1]));
            }
        }
    }
}

/// A change is accepted just where it is of the file that was proposed, leaves the
/// account what was proposed for it, and either was made by someone proposed as an
/// owner or gives nobody more than was proposed.
pub proof fn exactly_proposed_changes_are_accepted(proposal: MetadataV, current: MetadataV, own: Seq<char>)
    ensures
        change_accepted(proposal, current, own) is Ok <==> {
            &&& current.id == proposal.id
            &&& match (member_at(proposal.members, own), member_at(current.members, own)) {
                (Some(before), Some(now)) => level(now.permission) >= level(before.permission),
                _ => true,
            }
            &&& (match member_at(proposal.members, current.modified_by) {
                Some(m) => m.permission == Permission::Owner,
                None => false,
            }) || forall|i: int| 0 <= i < current.members.len() ==> within(proposal.members, #[trigger] current.members[i])
        },
        current.id != proposal.id ==> (change_accepted(proposal, current, own) matches Err(e) && e.fault == Fault::IdWrong),
        current.id == proposal.id ==> (change_accepted(proposal, current, own) matches Err(e) ==> e.fault
            == Fault::MembersChanged),
{
    lemma_raised(proposal.members, current.members);
}

/// What was fetched is whole where it is a directory, or where its body has the hash
/// that its metadata gives.
pub proof fn whole_files_have_their_hash(dir: bool, m: MetadataV, body: Seq<u8>)
    ensures
        fetched_whole(dir, m, body) is Ok <==> dir || (m.body_hash is Some && m.body_hash->0.value == sha256_of(body)),
{
}

} // verus!
