//! Directory listings.

use vstd::prelude::*;

use crate::http::{sort_pairs, sorted};
use crate::json::{escaped, json_escape};
use crate::number::{decimal, format_u64};
use crate::text::{find_last, from_chars, last, lower, same, to_chars, to_lower};
use crate::types::pairs;

verus! {

/// What a directory entry is.
#[derive(Clone, Copy, Debug, PartialEq, Eq, Structural)]
pub enum DirectoryEntryKind {
    Dir,
    File,
    Symlink,
}

/// The name of a kind of entry.
pub open spec fn kind_name(kind: DirectoryEntryKind) -> Seq<char> {
    match kind {
        DirectoryEntryKind::Dir => "dir"@,
        DirectoryEntryKind::File => "file"@,
        DirectoryEntryKind::Symlink => "symlink"@,
    }
}

impl DirectoryEntryKind {
    /// The name of the kind.
    pub fn as_str(self) -> (r: &'static str)
        ensures
            r@ == kind_name(self),
    {
        match self {
            DirectoryEntryKind::Dir => "dir",
            DirectoryEntryKind::File => "file",
            DirectoryEntryKind::Symlink => "symlink",
        }
    }
}

/// An entry of a directory.
#[derive(Clone, Debug, PartialEq, Eq)]
pub struct DirectoryEntry {
    pub kind: DirectoryEntryKind,
    pub name: String,
    pub size: u64,
}

/// The view of an entry.
#[verifier::ext_equal]
pub struct EntryV {
    pub kind: DirectoryEntryKind,
    pub name: Seq<char>,
    pub size: u64,
}

impl View for DirectoryEntry {
    type V = EntryV;

    open spec fn view(&self) -> EntryV {
        EntryV { kind: self.kind, name: self.name@, size: self.size }
    }
}

/// The views of entries.
pub open spec fn entries_view(list: Seq<DirectoryEntry>) -> Seq<EntryV> {
    list.map_values(|e: DirectoryEntry| e@)
}

/// How an entry is written.
#[derive(Clone, Copy, Debug, PartialEq, Eq, Structural)]
pub enum Layout {
    /// `kind`, `name`, `size`.
    Account,
    /// `name`, `type`, `size`.
    Plain,
}

/// The JSON text of an entry.
pub open spec fn entry_json(e: EntryV, layout: Layout) -> Seq<char> {
    match layout {
        Layout::Account => "{\"kind\":\""@ + kind_name(e.kind) + "\",\"name\":\""@ + escaped(e.name) + "\",\"size\":"@
            + decimal(e.size as nat) + "}"@,
        Layout::Plain => "{\"name\":\""@ + escaped(e.name) + "\",\"type\":\""@ + kind_name(e.kind) + "\",\"size\":"@
            + decimal(e.size as nat) + "}"@,
    }
}

/// The texts of named values, separated by commas.
pub open spec fn joined_values(list: Seq<(Seq<char>, Seq<char>)>) -> Seq<char>
    decreases list.len(),
{
    if list.len() == 0 {
        Seq::empty()
    } else if list.len() == 1 {
        list[0].1
    } else {
        joined_values(list.drop_last()) + ","@ + list.last().1
    }
}

/// The entries with their names.
pub open spec fn named_entries(entries: Seq<EntryV>, layout: Layout) -> Seq<(Seq<char>, Seq<char>)> {
    entries.map_values(|e: EntryV| (e.name, entry_json(e, layout)))
}

/// The listing of a directory: its entries in the order of their names.
pub open spec fn listing(entries: Seq<EntryV>, layout: Layout) -> Seq<char> {
    "["@ + joined_values(sorted(named_entries(entries, layout))) + "]"@
}

fn write_entry(entry: &DirectoryEntry, layout: Layout) -> (r: String)
    ensures
        r@ == entry_json(entry@, layout),
{
    let mut out = String::new();
    let name = json_escape(&entry.name);
    match layout {
        Layout::Account => {
            out.append("{\"kind\":\"");
            assert(out@ =~= "{\"kind\":\""@);
            out.append(entry.kind.as_str());
            out.append("\",\"name\":\"");
            out.append(&name);
        },
        Layout::Plain => {
            out.append("{\"name\":\"");
            assert(out@ =~= "{\"name\":\""@);
            out.append(&name);
            out.append("\",\"type\":\"");
            out.append(entry.kind.as_str());
        },
    }
    out.append("\",\"size\":");
    out.append(&format_u64(entry.size));
    out.append("}");
    out
}

/// Writes the listing of a directory.
pub fn list_dir(entries: &[DirectoryEntry], layout: Layout) -> (r: String)
    ensures
        r@ == listing(entries_view(entries@), layout),
{
    let mut list: Vec<(String, String)> = Vec::new();
    let n: usize = entries.len();
    let mut i: usize = 0;
    let ghost all = named_entries(entries_view(entries@), layout);
    while i < n
        invariant
            i <= n == entries@.len(),
            all == named_entries(entries_view(entries@), layout),
            pairs(list@) == all.take(i as int),
        decreases n - i,
    {
        let ghost earlier = pairs(list@);
        let text = write_entry(&entries[i], layout);
        let ghost added = (entries@[i as int].name@, text@);
        list.push((entries[i].name.clone(), text));
        proof {
            assert(all[i as int] == added);
            assert(pairs(list@) =~= earlier.push(added));
            assert(all.take(i + 1) =~= all.take(i as int).push(added));
        }
        i = i + 1;
    }
    assert(all.take(n as int) =~= all);
    let ordered = sort_pairs(&list);
    let ghost shown = pairs(ordered@);
    let m: usize = ordered.len();
    let mut out = String::new();
    out.append("[");
    assert(out@ =~= "["@);
    assert("["@ + joined_values(shown.take(0)) =~= "["@);
    let mut k: usize = 0;
    while k < m
        invariant
            k <= m == ordered@.len(),
            shown == pairs(ordered@),
            out@ == "["@ + joined_values(shown.take(k as int)),
        decreases m - k,
    {
        let ghost earlier = out@;
        if k > 0 {
            out.append(",");
        }
        out.append(&ordered[k].1);
        proof {
            let more = shown.take(k + 1);
            assert(more.drop_last() =~= shown.take(k as int));
            assert(more.last() == (ordered@[k as int].0@, ordered@[k as int].1@));
            assert(out@ =~= "["@ + joined_values(more));
        }
        k = k + 1;
    }
    assert(shown.take(m as int) =~= shown);
    out.append("]");
    out
}

// Content types.

/// The extension of a file name: what follows its last dot, unless that is the
/// first character.
pub open spec fn extension(name: Seq<char>) -> Seq<char> {
    let at = last(name, '.');
    if 0 < at < name.len() {
        name.skip(at as int + 1)
    } else {
        Seq::empty()
    }
}

/// The content type that goes with an extension.
pub open spec fn type_of_extension(e: Seq<char>) -> Seq<char> {
    if e == "html"@ || e == "htm"@ {
        "text/html; charset=utf-8"@
    } else if e == "css"@ {
        "text/css; charset=utf-8"@
    } else if e == "js"@ {
        "application/javascript"@
    } else if e == "json"@ {
        "application/json"@
    } else if e == "png"@ {
        "image/png"@
    } else if e == "jpg"@ || e == "jpeg"@ {
        "image/jpeg"@
    } else if e == "gif"@ {
        "image/gif"@
    } else if e == "svg"@ {
        "image/svg+xml"@
    } else if e == "txt"@ || e == "md"@ {
        "text/plain; charset=utf-8"@
    } else if e == "pdf"@ {
        "application/pdf"@
    } else {
        "application/octet-stream"@
    }
}

/// The content type of a file, by the extension of its name.
pub open spec fn type_of(name: Seq<char>) -> Seq<char> {
    type_of_extension(lower(extension(name)))
}

/// The content type of a file, by the extension of its name.
pub fn content_type(name: &str) -> (r: &'static str)
    ensures
        r@ == type_of(name@),
{
    let chars = to_chars(name);
    let n: usize = chars.len();
    let at: usize = find_last(&chars, '.');
    let mut e = String::new();
    if 0 < at && at < n {
        let tail = crate::text::part(&chars, at + 1, n);
        assert(tail@ =~= name@.skip(at + 1));
        e = from_chars(&to_lower(tail));
    } else {
        assert(e@ =~= lower(extension(name@)));
    }
    if same(&e, "html") || same(&e, "htm") {
        "text/html; charset=utf-8"
    } else if same(&e, "css") {
        "text/css; charset=utf-8"
    } else if same(&e, "js") {
        "application/javascript"
    } else if same(&e, "json") {
        "application/json"
    } else if same(&e, "png") {
        "image/png"
    } else if same(&e, "jpg") || same(&e, "jpeg") {
        "image/jpeg"
    } else if same(&e, "gif") {
        "image/gif"
    } else if same(&e, "svg") {
        "image/svg+xml"
    } else if same(&e, "txt") || same(&e, "md") {
        "text/plain; charset=utf-8"
    } else if same(&e, "pdf") {
        "application/pdf"
    } else {
        "application/octet-stream"
    }
}

} // verus!
