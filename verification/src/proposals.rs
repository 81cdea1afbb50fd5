//! Share proposals: files that others wanted to write to the account.

use vstd::prelude::*;

use crate::auth::{ark_request, ark_request_bytes};
use crate::error::{bare, fail, fail_with, seen, with, Error, ErrorV, Fault};
use crate::fields::{header_fields, metadata_of, read_metadata_headers, write_metadata_headers};
use crate::http::{http_error, refused, request_read, RequestV};
use crate::identity::{address_parts, parse_address};
use crate::locate::{client_url, resolve_client_url};
use crate::log::{entry_in, logged_request_is_read_back, parse_request_entry, recorded};
use crate::metadata::{get_member, member_at};
use crate::number::{decimal, format_usize, parse_usize, parsed};
use crate::primitives::{sha256, sha256_of};
use crate::text::{
    after_prefix, before, comes_before, concat, concat3, ends_with, from_chars, precedes, same, same_bytes,
    strip_prefix, to_chars, trim_back, trim_end, up_to, Trim,
};
use crate::types::{
    members_view, permission_name, rank_of, Context, ContextV, Member, MemberV, Metadata, MetadataV, Permission,
};

verus! {

/// A share proposal: the name of its log entry, the path that was to be written
/// and the metadata.
#[derive(Debug)]
pub struct Proposal {
    pub id: String,
    pub target: String,
    pub metadata: Metadata,
}

/// The view of a proposal.
#[verifier::ext_equal]
pub struct ProposalV {
    pub id: Seq<char>,
    pub target: Seq<char>,
    pub metadata: MetadataV,
}

impl View for Proposal {
    type V = ProposalV;

    open spec fn view(&self) -> ProposalV {
        ProposalV { id: self.id@, target: self.target@, metadata: self.metadata@ }
    }
}

/// The views of proposals.
pub open spec fn proposals_view(list: Seq<Proposal>) -> Seq<ProposalV> {
    list.map_values(|p: Proposal| p@)
}

/// The view of an optional proposal.
pub open spec fn opt_proposal(p: Option<Proposal>) -> Option<ProposalV> {
    match p {
        Some(proposal) => Some(proposal@),
        None => None,
    }
}

// Reading.

/// The proposal that a log entry is: a write that was answered with `403`.
pub open spec fn proposal_in(name: Seq<char>, b: Seq<u8>) -> Result<Option<ProposalV>, ErrorV> {
    match entry_in(b) {
        Err(e) => Err(e),
        Ok(entry) => if entry.method != "PUT"@ || entry.status != 403 {
            Ok(None)
        } else {
            match metadata_of(entry.request_headers) {
                Err(e) => Err(e),
                Ok(metadata) => Ok(Some(ProposalV { id: name, target: before(entry.target, '?'), metadata })),
            }
        },
    }
}

/// Reads a log entry as a proposal.
pub fn parse_proposal(filename: &str, entry_bytes: &[u8]) -> (r: Result<Option<Proposal>, Error>)
    ensures
        (match r {
            Ok(p) => Ok(opt_proposal(p)),
            Err(e) => Err(e@),
        }) == proposal_in(filename@, entry_bytes@),
{
    let entry = match parse_request_entry(entry_bytes) {
        Ok(e) => e,
        Err(e) => {
            return Err(e);
        },
    };
    if !same(&entry.method, "PUT") {
        return Ok(None);
    }
    if entry.status != 403 {
        return Ok(None);
    }
    let metadata = match read_metadata_headers(&entry.request_headers) {
        Ok(m) => m,
        Err(e) => {
            return Err(e);
        },
    };
    let target = up_to(&entry.target, '?');
    Ok(Some(Proposal { id: filename.to_owned(), target, metadata }))
}

// Listing.

/// A log entry with its content, if that could be read.
#[derive(Debug)]
pub struct Entry {
    pub name: String,
    pub body: Option<Vec<u8>>,
}

/// The view of a log entry with its content.
#[verifier::ext_equal]
pub struct EntryV {
    pub name: Seq<char>,
    pub body: Option<Seq<u8>>,
}

impl View for Entry {
    type V = EntryV;

    open spec fn view(&self) -> EntryV {
        EntryV { name: self.name@, body: crate::text::opt_bytes(self.body) }
    }
}

/// The views of log entries with their contents.
pub open spec fn entries_view(list: Seq<Entry>) -> Seq<EntryV> {
    list.map_values(|e: Entry| e@)
}

/// Whether a name is that of a log entry.
pub open spec fn is_log(name: Seq<char>) -> bool {
    ".http"@.len() <= name.len() && name.skip(name.len() - ".http"@.len()) == ".http"@
}

/// Whether a name is that of a log entry: only those are read.
pub fn is_log_entry(name: &str) -> (r: bool)
    ensures
        r == is_log(name@),
{
    ends_with(name, ".http")
}

/// A list of proposals with one more put in its place: behind all that do not
/// come after it.
pub open spec fn inserted(list: Seq<ProposalV>, p: ProposalV) -> Seq<ProposalV>
    decreases list.len(),
{
    if list.len() == 0 || !precedes(p.id, list.last().id) {
        list.push(p)
    } else {
        inserted(list.drop_last(), p).push(list.last())
    }
}

/// The proposals in log entries, in the order of their names. What is no log
/// entry or could not be read is left out.
pub open spec fn collected(entries: Seq<EntryV>) -> Result<Seq<ProposalV>, ErrorV>
    decreases entries.len(),
{
    if entries.len() == 0 {
        Ok(Seq::empty())
    } else {
        match collected(entries.drop_last()) {
            Err(e) => Err(e),
            Ok(list) => {
                let entry = entries.last();
                match entry.body {
                    Some(body) if is_log(entry.name) => match proposal_in(entry.name, body) {
                        Err(e) => Err(e),
                        Ok(None) => Ok(list),
                        Ok(Some(p)) => Ok(inserted(list, p)),
                    },
                    _ => Ok(list),
                }
            },
        }
    }
}

fn insert_proposal(list: &mut Vec<Proposal>, proposal: Proposal)
    ensures
        proposals_view(final(list)@) == inserted(proposals_view(old(list)@), proposal@),
{
    let ghost whole = proposals_view(list@);
    let ghost p = proposal@;
    let mut at: usize = list.len();
    assert(whole.take(at as int) =~= whole);
    assert(inserted(whole, p) =~= inserted(whole.take(at as int), p) + whole.skip(at as int));
    while at > 0 && comes_before(&proposal.id, &list[at - 1].id)
        invariant
            at <= list@.len(),
            whole == proposals_view(list@),
            p == proposal@,
            inserted(whole, p) == inserted(whole.take(at as int), p) + whole.skip(at as int),
        decreases at,
    {
        proof {
            let here = whole.take(at as int);
            assert(here.last() == list@[at - 1]@);
            assert(here.drop_last() =~= whole.take(at - 1));
            assert(inserted(here, p) == inserted(here.drop_last(), p).push(here.last()));
            assert(inserted(here.drop_last(), p).push(here.last()) + whole.skip(at as int) =~= inserted(
                whole.take(at - 1),
                p,
            ) + whole.skip(at - 1));
        }
        at = at - 1;
    }
    proof {
        let here = whole.take(at as int);
        if at > 0 {
            assert(here.last() == list@[at - 1]@);
        }
        assert(inserted(here, p) == here.push(p));
    }
    let ghost earlier = list@;
    list.insert(at, proposal);
    assert(proposals_view(list@) =~= inserted(whole, p)) by {
        assert(inserted(whole, p) == whole.take(at as int).push(p) + whole.skip(at as int));
        assert forall|k: int| 0 <= k < list@.len() implies #[trigger] proposals_view(list@)[k] == inserted(whole, p)[k]
            by {
            if k < at {
                assert(list@[k] == earlier[k]);
                assert(whole[k] == earlier[k]@);
            } else if k > at {
                assert(list@[k] == earlier[k - 1]);
                assert(whole[k - 1] == earlier[k - 1]@);
            }
        }
    }
}

proof fn lemma_collected_stops(entries: Seq<EntryV>, i: int)
    requires
        0 <= i <= entries.len(),
        collected(entries.take(i)) is Err,
    ensures
        collected(entries) == collected(entries.take(i)),
    decreases entries.len() - i,
{
    if i == entries.len() {
        assert(entries.take(i) =~= entries);
    } else {
        assert(entries.take(i + 1).drop_last() =~= entries.take(i));
        lemma_collected_stops(entries, i + 1);
    }
}

/// Lists the proposals in log entries, in the order of their names.
pub fn list_proposals(entries: &[Entry]) -> (r: Result<Vec<Proposal>, Error>)
    ensures
        (match r {
            Ok(list) => Ok(proposals_view(list@)),
            Err(e) => Err(e@),
        }) == collected(entries_view(entries@)),
{
    let mut out: Vec<Proposal> = Vec::new();
    let n: usize = entries.len();
    let mut i: usize = 0;
    let ghost all = entries_view(entries@);
    assert(proposals_view(out@) =~= Seq::empty());
    assert(all.take(0).len() == 0);
    while i < n
        invariant
            i <= n == entries@.len(),
            all == entries_view(entries@),
            collected(all.take(i as int)) == Ok::<Seq<ProposalV>, ErrorV>(proposals_view(out@)),
        decreases n - i,
    {
        assert(all.take(i + 1).drop_last() =~= all.take(i as int));
        assert(all.take(i + 1).last() == entries@[i as int]@);
        if is_log_entry(&entries[i].name) {
            if let Some(body) = &entries[i].body {
                match parse_proposal(&entries[i].name, body) {
                    Ok(Some(p)) => {
                        insert_proposal(&mut out, p);
                    },
                    Ok(None) => {},
                    Err(e) => {
                        proof {
                            lemma_collected_stops(all, i + 1);
                        }
                        return Err(e);
                    },
                }
            }
        }
        i = i + 1;
    }
    assert(all.take(n as int) =~= all);
    Ok(out)
}

/// The log entry that an index, counted from one, or a name stands for.
pub open spec fn entry_named(proposals: Seq<ProposalV>, text: Seq<char>) -> Result<Seq<char>, ErrorV> {
    match parsed(text, usize::MAX as nat) {
        Some(index) => if index == 0 || index > proposals.len() {
            Err(with(Fault::NoProposal, decimal(index)))
        } else {
            Ok(proposals[index - 1].id)
        },
        None => Ok(text),
    }
}

/// Whether a proposal is named by its index, so that the list is needed to find it.
pub fn needs_list(index_or_id: &str) -> (r: bool)
    ensures
        r == (parsed(index_or_id@, usize::MAX as nat) is Some),
        !r ==> forall|proposals: Seq<ProposalV>| #[trigger]
            entry_named(proposals, index_or_id@) == Ok::<Seq<char>, ErrorV>(index_or_id@),
{
    parse_usize(&to_chars(index_or_id)).is_some()
}

/// Finds the log entry that an index or a name stands for.
pub fn resolve_id(proposals: &[Proposal], index_or_id: &str) -> (r: Result<String, Error>)
    ensures
        seen(r) == entry_named(proposals_view(proposals@), index_or_id@),
{
    match parse_usize(&to_chars(index_or_id)) {
        Some(index) => {
            if index == 0 || index > proposals.len() {
                return Err(fail_with(Fault::NoProposal, format_usize(index)));
            }
            assert(proposals_view(proposals@)[index - 1] == proposals@[index - 1]@);
            Ok(proposals[index - 1].id.clone())
        },
        None => Ok(index_or_id.to_owned()),
    }
}

/// The path of a log entry.
pub open spec fn entry_path(id: Seq<char>) -> Seq<char> {
    "/.ark/requests/"@ + id
}

/// The path of a log entry.
pub fn entry_path_of(id: &str) -> (r: String)
    ensures
        r@ == entry_path(id@),
{
    concat("/.ark/requests/", id)
}

/// Rejects a proposal: finds the log entry that is to be removed.
pub fn reject_proposal(proposals: &[Proposal], index_or_id: &str) -> (r: Result<String, Error>)
    ensures
        seen(r) == (match entry_named(proposals_view(proposals@), index_or_id@) {
            Ok(id) => Ok(entry_path(id)),
            Err(e) => Err(e),
        }),
{
    match resolve_id(proposals, index_or_id) {
        Ok(id) => Ok(entry_path_of(&id)),
        Err(e) => Err(e),
    }
}

// Accepting.

/// What is needed to accept a proposal: where the file is now, and where it goes.
#[derive(Debug)]
pub struct Acceptance {
    pub proposal: Proposal,
    /// Whether a directory is proposed.
    pub dir: bool,
    /// The address of the file in the account of who proposed it.
    pub source: String,
    /// The path in the own account.
    pub destination: String,
}

/// The view of what is needed to accept a proposal.
#[verifier::ext_equal]
pub struct AcceptanceV {
    pub proposal: ProposalV,
    pub dir: bool,
    pub source: Seq<char>,
    pub destination: Seq<char>,
}

impl View for Acceptance {
    type V = AcceptanceV;

    open spec fn view(&self) -> AcceptanceV {
        AcceptanceV {
            proposal: self.proposal@,
            dir: self.dir,
            source: self.source@,
            destination: self.destination@,
        }
    }
}

/// The path of a directory ends with one slash.
pub open spec fn as_listed(path: Seq<char>, dir: bool) -> Seq<char> {
    if dir {
        trim_back(path, Trim::Slash) + "/"@
    } else {
        path
    }
}

/// What is needed to accept the proposal in a log entry.
pub open spec fn acceptance(account: Seq<char>, id: Seq<char>, b: Seq<u8>) -> Result<AcceptanceV, ErrorV> {
    match proposal_in(id, b) {
        Err(e) => Err(e),
        Ok(None) => Err(bare(Fault::NotProposal)),
        Ok(Some(proposal)) => match address_parts(account) {
            Err(e) => Err(e),
            Ok(parts) => match after_prefix(proposal.target, "/ark/"@ + parts.0 + "/"@) {
                None => Err(bare(Fault::TargetNotWithin)),
                Some(path) => {
                    let dir = proposal.metadata.body_hash is None;
                    Ok(
                        AcceptanceV {
                            proposal,
                            dir,
                            source: proposal.metadata.modified_by + "/"@ + as_listed(path, dir),
                            destination: "/"@ + as_listed(path, dir),
                        },
                    )
                },
            },
        },
    }
}

/// Finds out what is needed to accept the proposal in a log entry.
pub fn plan_acceptance(ctx: &Context, id: &str, entry_body: &[u8]) -> (r: Result<Acceptance, Error>)
    ensures
        seen(r) == acceptance(ctx@.identity.address, id@, entry_body@),
{
    let proposal = match parse_proposal(id, entry_body) {
        Ok(Some(p)) => p,
        Ok(None) => {
            return Err(fail(Fault::NotProposal));
        },
        Err(e) => {
            return Err(e);
        },
    };
    let (name, _, _) = match parse_address(&ctx.identity.address) {
        Ok(p) => p,
        Err(e) => {
            return Err(e);
        },
    };
    let path = match strip_prefix(&proposal.target, &concat3("/ark/", &name, "/")) {
        Some(p) => p,
        None => {
            return Err(fail(Fault::TargetNotWithin));
        },
    };
    let dir = proposal.metadata.body_hash.is_none();
    let listed = if dir {
        let chars = to_chars(&path);
        concat(&from_chars(trim_end(&chars, Trim::Slash)), "/")
    } else {
        path
    };
    let source = concat3(&proposal.metadata.modified_by, "/", &listed);
    let destination = concat("/", &listed);
    Ok(Acceptance { proposal, dir, source, destination })
}

/// Why the members of a file may not be accepted as they are now, given what was
/// proposed.
#[derive(Clone, Copy, Debug, PartialEq, Eq, Structural)]
pub enum Suspicion {
    Downgraded,
    Added,
    Upgraded,
}

/// What a suspicion says.
pub open spec fn suspicion_text(s: Suspicion) -> Seq<char> {
    match s {
        Suspicion::Downgraded => "your permission was downgraded since proposal"@,
        Suspicion::Added => "member added since proposal"@,
        Suspicion::Upgraded => "member permission upgraded since proposal"@,
    }
}

fn say_suspicion(s: Suspicion) -> (r: &'static str)
    ensures
        r@ == suspicion_text(s),
{
    match s {
        Suspicion::Downgraded => "your permission was downgraded since proposal",
        Suspicion::Added => "member added since proposal",
        Suspicion::Upgraded => "member permission upgraded since proposal",
    }
}

/// Whether a member has more than was proposed, and how.
pub open spec fn raised(proposed: Seq<MemberV>, m: MemberV) -> Option<Suspicion> {
    match member_at(proposed, m.address) {
        None => Some(Suspicion::Added),
        Some(before) => if rank_of(m.permission) > rank_of(before.permission) {
            Some(Suspicion::Upgraded)
        } else {
            None
        },
    }
}

/// The first member that has more than was proposed, and how.
pub open spec fn first_raised(proposed: Seq<MemberV>, current: Seq<MemberV>) -> Option<Suspicion>
    decreases current.len(),
{
    if current.len() == 0 {
        None
    } else if raised(proposed, current[0]) is Some {
        raised(proposed, current[0])
    } else {
        first_raised(proposed, current.skip(1))
    }
}

/// Whether the account has less than was proposed to it.
pub open spec fn downgraded(proposed: Seq<MemberV>, current: Seq<MemberV>, own: Seq<char>) -> bool {
    &&& member_at(proposed, own) matches Some(before)
    &&& member_at(current, own) matches Some(now)
    &&& rank_of(now.permission) < rank_of(before.permission)
}

/// Whether an address was proposed as an owner.
pub open spec fn proposed_owner(proposed: Seq<MemberV>, address: Seq<char>) -> bool {
    member_at(proposed, address) matches Some(m) && m.permission == Permission::Owner
}

/// What is wrong with the members of a file now, given what was proposed. Who was
/// proposed as an owner may have added and raised others since.
pub open spec fn suspected(proposal: MetadataV, current: MetadataV, own: Seq<char>) -> Option<Suspicion> {
    if downgraded(proposal.members, current.members, own) {
        Some(Suspicion::Downgraded)
    } else if proposed_owner(proposal.members, current.modified_by) {
        None
    } else {
        first_raised(proposal.members, current.members)
    }
}

/// Finds out what is wrong with the members of a file now, given what was
/// proposed.
pub fn check_member_changes(proposal: &Metadata, current: &Metadata, self_address: &str) -> (r: Option<Suspicion>)
    ensures
        r == suspected(proposal@, current@, self_address@),
{
    if let (Some(proposed), Some(now)) = (
        get_member(&proposal.members, self_address),
        get_member(&current.members, self_address),
    ) {
        if now.permission.rank() < proposed.permission.rank() {
            return Some(Suspicion::Downgraded);
        }
    }
    if let Some(m) = get_member(&proposal.members, &current.modified_by) {
        if m.permission == Permission::Owner {
            return None;
        }
    }
    let n: usize = current.members.len();
    let mut i: usize = 0;
    let ghost proposed = proposal@.members;
    let ghost all = current@.members;
    assert(all.skip(0) =~= all);
    while i < n
        invariant
            i <= n == current.members@.len(),
            proposed == proposal@.members,
            all == current@.members,
            !downgraded(proposed, all, self_address@),
            !proposed_owner(proposed, current@.modified_by),
            first_raised(proposed, all.skip(i as int)) == first_raised(proposed, all),
        decreases n - i,
    {
        assert(all.skip(i as int)[0] == current.members@[i as int]@);
        match get_member(&proposal.members, &current.members[i].address) {
            None => {
                return Some(Suspicion::Added);
            },
            Some(m) => {
                if current.members[i].permission.rank() > m.permission.rank() {
                    return Some(Suspicion::Upgraded);
                }
            },
        }
        assert(all.skip(i as int).skip(1) =~= all.skip(i + 1));
        i = i + 1;
    }
    None
}

/// The lines that list members.
pub open spec fn member_lines(members: Seq<MemberV>) -> Seq<char>
    decreases members.len(),
{
    if members.len() == 0 {
        Seq::empty()
    } else {
        member_lines(members.drop_last()) + "\n  "@ + members.last().address + " = "@ + permission_name(
            members.last().permission,
        )
    }
}

fn write_members(text: &str, members: &[Member]) -> (r: String)
    ensures
        r@ == text@ + member_lines(members_view(members@)),
{
    let mut out = text.to_owned();
    let n: usize = members.len();
    let mut i: usize = 0;
    let ghost all = members_view(members@);
    assert(text@ + member_lines(all.take(0)) =~= text@);
    while i < n
        invariant
            i <= n == members@.len(),
            all == members_view(members@),
            out@ == text@ + member_lines(all.take(i as int)),
        decreases n - i,
    {
        out.append("\n  ");
        out.append(&members[i].address);
        out.append(" = ");
        out.append(members[i].permission.as_str());
        proof {
            assert(all.take(i + 1).drop_last() =~= all.take(i as int));
            assert(all.take(i + 1).last() == members@[i as int]@);
            assert(out@ =~= text@ + member_lines(all.take(i + 1)));
        }
        i = i + 1;
    }
    assert(all.take(n as int) =~= all);
    out
}

/// Whether a file may be accepted as it is now, given what was proposed.
pub open spec fn change_accepted(proposal: MetadataV, current: MetadataV, own: Seq<char>) -> Result<(), ErrorV> {
    if current.id != proposal.id {
        Err(bare(Fault::IdWrong))
    } else {
        match suspected(proposal, current, own) {
            Some(s) => Err(
                with(
                    Fault::MembersChanged,
                    suspicion_text(s) + ". Current members:"@ + member_lines(current.members),
                ),
            ),
            None => Ok(()),
        }
    }
}

/// Checks that a file may be accepted as it is now, given what was proposed.
pub fn verify_metadata_changes(proposal: &Metadata, current: &Metadata, self_address: &str) -> (r: Result<(), Error>)
    ensures
        seen(r) == change_accepted(proposal@, current@, self_address@),
{
    if !same(&current.id, &proposal.id) {
        return Err(fail(Fault::IdWrong));
    }
    match check_member_changes(proposal, current, self_address) {
        Some(s) => {
            let start = concat(say_suspicion(s), ". Current members:");
            Err(fail_with(Fault::MembersChanged, write_members(&start, &current.members)))
        },
        None => Ok(()),
    }
}

/// Whether a fetched file is whole: a directory has no body, and the body of a
/// file is the one that its metadata was signed for.
pub open spec fn fetched_whole(dir: bool, m: MetadataV, body: Seq<u8>) -> Result<(), ErrorV> {
    if dir {
        Ok(())
    } else {
        match m.body_hash {
            None => Err(bare(Fault::FetchedNoHash)),
            Some(hash) => if sha256_of(body) != hash.value {
                Err(bare(Fault::FetchedHash))
            } else {
                Ok(())
            },
        }
    }
}

/// The request that accepts a proposal, given the file as it is now.
pub open spec fn acceptance_request(
    ctx: ContextV,
    plan: AcceptanceV,
    current: MetadataV,
    body: Seq<u8>,
    force: bool,
    timestamp: nat,
) -> Result<Seq<u8>, ErrorV> {
    match fetched_whole(plan.dir, current, body) {
        Err(e) => Err(e),
        Ok(_) => {
            let checked = if force {
                Ok(())
            } else {
                change_accepted(plan.proposal.metadata, current, ctx.identity.address)
            };
            match checked {
                Err(e) => Err(e),
                Ok(_) => match client_url(ctx.identity.address, plan.destination) {
                    Err(e) => Err(e),
                    Ok(url) => ark_request_bytes(
                        Some(ctx),
                        "PUT"@,
                        url,
                        header_fields(current),
                        if plan.dir {
                            Seq::empty()
                        } else {
                            body
                        },
                        timestamp,
                    ),
                },
            }
        },
    }
}

/// Accepts a proposal: makes the request that writes the file, as it is now, to
/// the own account. Unless it is forced, the file must be the one that was
/// proposed and nobody may have gained rights since.
///
/// The secret key of the account must be there.
pub fn accept_proposal(
    ctx: &Context,
    plan: &Acceptance,
    current: &Metadata,
    body: &[u8],
    force: bool,
    timestamp: u64,
) -> (r: Result<Vec<u8>, Error>)
    requires
        ctx@.identity_key is Some,
    ensures
        seen(r) == acceptance_request(ctx@, plan@, current@, body@, force, timestamp as nat),
{
    if !plan.dir {
        match &current.body_hash {
            None => {
                return Err(fail(Fault::FetchedNoHash));
            },
            Some(hash) => {
                if !same_bytes(&sha256(body), &hash.value) {
                    return Err(fail(Fault::FetchedHash));
                }
            },
        }
    }
    if !force {
        match verify_metadata_changes(&plan.proposal.metadata, current, &ctx.identity.address) {
            Ok(()) => {},
            Err(e) => {
                return Err(e);
            },
        }
    }
    let url = match resolve_client_url(ctx, &plan.destination) {
        Ok(u) => u,
        Err(e) => {
            return Err(e);
        },
    };
    let headers = write_metadata_headers(current);
    let empty: Vec<u8> = Vec::new();
    assert(empty@ =~= Seq::empty());
    if plan.dir {
        ark_request(Some(ctx), "PUT", &url, &headers, &empty, timestamp)
    } else {
        ark_request(Some(ctx), "PUT", &url, &headers, body, timestamp)
    }
}

/// Reads the answer to an accepted proposal. Its log entry is removed next.
pub fn proposal_accepted(status: u16, body: &[u8]) -> (r: Result<(), Error>)
    ensures
        r is Ok <==> status == 201 || status == 204,
        r matches Err(e) ==> e@ == http_error(status, body@),
{
    if status != 201 && status != 204 {
        Err(refused(status, body))
    } else {
        Ok(())
    }
}

// Laws.

proof fn lemma_none_raised(proposed: Seq<MemberV>, current: Seq<MemberV>, i: int)
    requires
        first_raised(proposed, current) is None,
        0 <= i < current.len(),
    ensures
        raised(proposed, current[i]) is None,
    decreases current.len(),
{
    if i > 0 {
        assert(current.skip(1)[i - 1] == current[i]);
        lemma_none_raised(proposed, current.skip(1), i - 1);
    }
}

/// A proposal that is accepted without force is for the file that was proposed,
/// does not take rights from the account, and gives nobody more than was
/// proposed, unless it was changed by a proposed owner.
pub proof fn accepted_proposals_are_safe(proposal: MetadataV, current: MetadataV, own: Seq<char>)
    requires
        change_accepted(proposal, current, own) is Ok,
    ensures
        current.id == proposal.id,
        member_at(proposal.members, own) matches Some(before) ==> member_at(current.members, own) matches Some(now)
            ==> rank_of(now.permission) >= rank_of(before.permission),
        proposed_owner(proposal.members, current.modified_by) || forall|i: int|
            0 <= i < current.members.len() ==> (member_at(
                proposal.members,
                (#[trigger] current.members[i]).address,
            ) matches Some(before) && rank_of(current.members[i].permission) <= rank_of(before.permission)),
{
    if !proposed_owner(proposal.members, current.modified_by) {
        assert forall|i: int| 0 <= i < current.members.len() implies (member_at(
            proposal.members,
            (#[trigger] current.members[i]).address,
        ) matches Some(before) && rank_of(current.members[i].permission) <= rank_of(before.permission)) by {
            lemma_none_raised(proposal.members, current.members, i);
        }
    }
}

/// A proposal for what has not changed since is accepted.
pub proof fn unchanged_proposals_are_accepted(proposal: MetadataV, own: Seq<char>)
    requires
        forall|i: int, j: int|
            0 <= i < j < proposal.members.len() ==> (#[trigger] proposal.members[i]).address != (
            #[trigger] proposal.members[j]).address,
    ensures
        change_accepted(proposal, proposal, own) is Ok,
{
    lemma_not_raised(proposal.members, proposal.members.len() as int);
    assert(proposal.members.skip(0) =~= proposal.members);
}

proof fn lemma_not_raised(members: Seq<MemberV>, n: int)
    requires
        0 <= n <= members.len(),
        forall|i: int, j: int|
            0 <= i < j < members.len() ==> (#[trigger] members[i]).address != (#[trigger] members[j]).address,
    ensures
        first_raised(members, members.skip(members.len() - n)) is None,
    decreases n,
{
    let at = members.len() - n;
    let rest = members.skip(at);
    if n > 0 {
        lemma_not_raised(members, n - 1);
        assert(rest.skip(1) =~= members.skip(at + 1));
        assert(rest[0] == members[at]);
        lemma_own_member(members, at, 0);
        assert(members.skip(0) =~= members);
    }
}

proof fn lemma_own_member(members: Seq<MemberV>, at: int, from: int)
    requires
        0 <= from <= at < members.len(),
        forall|i: int, j: int|
            0 <= i < j < members.len() ==> (#[trigger] members[i]).address != (#[trigger] members[j]).address,
    ensures
        member_at(members.skip(from), members[at].address) == Some(members[at]),
    decreases at - from,
{
    let rest = members.skip(from);
    assert(rest[0] == members[from]);
    if from < at {
        assert(members[from].address != members[at].address);
        assert(rest.skip(1) =~= members.skip(from + 1));
        lemma_own_member(members, at, from + 1);
    }
}

/// A write that was refused and recorded is a proposal of what was to be written.
pub proof fn refused_writes_are_proposed(b: Seq<u8>, request: RequestV, m: MetadataV, name: Seq<char>)
    requires
        request_read(b, true) == Ok::<RequestV, ErrorV>(request),
        request.method == "PUT"@,
        metadata_of(request.headers) == Ok::<MetadataV, ErrorV>(m),
        recorded(b, 403) is Some,
    ensures
        proposal_in(name, recorded(b, 403)->0) == Ok::<Option<ProposalV>, ErrorV>(
            Some(ProposalV { id: name, target: before(request.target, '?'), metadata: m }),
        ),
{
    logged_request_is_read_back(b, 403, request);
}

} // verus!
