//! Paths.

use vstd::prelude::*;

use crate::text::{
    concat, concat3, cut, first, from_chars, lemma_first, lemma_first_is, opt_text, runs, same, split, split_on, texts,
    to_chars, trim_back, Trim,
};

verus! {

/// The texts of a list that are not empty.
pub open spec fn nonempty(list: Seq<Seq<char>>) -> Seq<Seq<char>>
    decreases list.len(),
{
    if list.len() == 0 {
        Seq::empty()
    } else if list.last().len() > 0 {
        nonempty(list.drop_last()).push(list.last())
    } else {
        nonempty(list.drop_last())
    }
}

/// The names along a path.
pub open spec fn segments(path: Seq<char>) -> Seq<Seq<char>> {
    nonempty(split(path, '/'))
}

/// The names along a path.
pub fn path_segments(path: &str) -> (r: Vec<String>)
    ensures
        texts(r@) == segments(path@),
{
    let chars = to_chars(path);
    let parts = split_on(&chars, '/');
    let ghost all = runs(parts@);
    let mut out: Vec<String> = Vec::new();
    let n: usize = parts.len();
    let mut i: usize = 0;
    assert(texts(out@) =~= nonempty(all.take(0)));
    while i < n
        invariant
            i <= n == parts@.len(),
            all == runs(parts@),
            texts(out@) == nonempty(all.take(i as int)),
        decreases n - i,
    {
        let ghost earlier = texts(out@);
        assert(all.take(i + 1).drop_last() =~= all.take(i as int));
        assert(all.take(i + 1).last() == parts@[i as int]@);
        if parts[i].len() > 0 {
            let name = from_chars(&parts[i]);
            let ghost added = name@;
            out.push(name);
            assert(texts(out@) =~= earlier.push(added));
        }
        i = i + 1;
    }
    assert(all.take(n as int) =~= all);
    out
}

/// Names with slashes between them.
pub open spec fn joined_names(names: Seq<Seq<char>>) -> Seq<char>
    decreases names.len(),
{
    if names.len() == 0 {
        Seq::empty()
    } else if names.len() == 1 {
        names[0]
    } else {
        joined_names(names.drop_last()) + "/"@ + names.last()
    }
}

/// The first of some names, with slashes between them.
pub fn join_names(names: &[String], count: usize) -> (r: String)
    requires
        count <= names@.len(),
    ensures
        r@ == joined_names(texts(names@).take(count as int)),
{
    let ghost all = texts(names@);
    let mut out = String::new();
    let mut i: usize = 0;
    assert(out@ =~= joined_names(all.take(0)));
    while i < count
        invariant
            i <= count <= names@.len(),
            all == texts(names@),
            out@ == joined_names(all.take(i as int)),
        decreases count - i,
    {
        assert(all.take(i + 1).drop_last() =~= all.take(i as int));
        assert(all.take(i + 1).last() == names@[i as int]@);
        if i > 0 {
            out.append("/");
        }
        out.append(&names[i]);
        proof {
            if i == 0 {
                assert(out@ =~= joined_names(all.take(1)));
            }
        }
        i = i + 1;
    }
    out
}

/// The last name along a path.
pub open spec fn file_name(path: Seq<char>) -> Seq<char> {
    let names = segments(path);
    if names.len() == 0 {
        Seq::empty()
    } else {
        names.last()
    }
}

/// The last name along a path.
pub fn last_name(path: &str) -> (r: String)
    ensures
        r@ == file_name(path@),
{
    let mut names = path_segments(path);
    assert(texts(names@).len() == names@.len());
    match names.pop() {
        Some(name) => name,
        None => {
            let r = String::new();
            assert(r@ =~= Seq::<char>::empty());
            r
        },
    }
}

/// Whether a part of a path names something: it is neither empty nor a dot.
pub open spec fn is_name(part: Seq<char>) -> bool {
    part.len() > 0 && part != "."@
}

/// The parts of a path that name something.
pub open spec fn names_in(parts: Seq<Seq<char>>) -> Seq<Seq<char>>
    decreases parts.len(),
{
    if parts.len() == 0 {
        Seq::empty()
    } else if is_name(parts[0]) {
        seq![parts[0]] + names_in(parts.skip(1))
    } else {
        names_in(parts.skip(1))
    }
}

/// Parts of a path from the first that names something on.
pub open spec fn from_name(parts: Seq<Seq<char>>) -> Seq<Seq<char>>
    decreases parts.len(),
{
    if parts.len() > 0 && !is_name(parts[0]) {
        from_name(parts.skip(1))
    } else {
        parts
    }
}

/// Parts of a path up to the last that names something.
pub open spec fn up_to_name(parts: Seq<Seq<char>>) -> Seq<Seq<char>>
    decreases parts.len(),
{
    if parts.len() > 0 && !is_name(parts.last()) {
        up_to_name(parts.drop_last())
    } else {
        parts
    }
}

/// What a path begins with: a slash where it is absolute, a dot where that is its
/// first part, otherwise nothing.
pub open spec fn anchor(path: Seq<char>) -> Seq<char> {
    if path.len() > 0 && path[0] == '/' {
        "/"@
    } else if split(path, '/')[0] == "."@ {
        "."@
    } else {
        Seq::empty()
    }
}

/// The text of the first parts of a path, which is what the path begins with where
/// there are none.
pub open spec fn parts_text(path: Seq<char>, parts: Seq<Seq<char>>) -> Seq<char> {
    if parts.len() == 0 {
        anchor(path)
    } else {
        joined_names(parts)
    }
}

/// The parts of a path behind some names, from the next name to the last one.
pub open spec fn after_names(names: Seq<Seq<char>>, parts: Seq<Seq<char>>) -> Option<Seq<Seq<char>>>
    decreases names.len(),
{
    let rest = from_name(parts);
    if names.len() == 0 {
        Some(up_to_name(rest))
    } else if rest.len() > 0 && rest[0] == names[0] {
        after_names(names.skip(1), rest.skip(1))
    } else {
        None
    }
}

/// The rest of a path below a directory. The two are compared name by name; empty
/// parts and dots count for nothing, but for a dot that a path begins with.
pub open spec fn below(root: Seq<char>, path: Seq<char>) -> Option<Seq<char>> {
    let parts = split(path, '/');
    if root.len() == 0 {
        Some(parts_text(path, up_to_name(parts)))
    } else if anchor(root) != anchor(path) {
        None
    } else {
        match after_names(names_in(split(root, '/')), parts) {
            Some(rest) => Some(joined_names(rest)),
            None => None,
        }
    }
}

/// The parts of a path.
pub fn path_parts(path: &str) -> (r: Vec<String>)
    ensures
        texts(r@) == split(path@, '/'),
{
    let chars = to_chars(path);
    let parts = split_on(&chars, '/');
    let ghost all = runs(parts@);
    let mut out: Vec<String> = Vec::new();
    let n: usize = parts.len();
    let mut i: usize = 0;
    assert(texts(out@) =~= all.take(0));
    while i < n
        invariant
            i <= n == parts@.len(),
            all == runs(parts@),
            texts(out@) == all.take(i as int),
        decreases n - i,
    {
        let ghost earlier = texts(out@);
        let part = from_chars(&parts[i]);
        let ghost added = part@;
        out.push(part);
        assert(texts(out@) =~= earlier.push(added));
        assert(all.take(i + 1) =~= all.take(i as int).push(all[i as int]));
        i = i + 1;
    }
    assert(all.take(n as int) =~= all);
    out
}

fn names_something(part: &str) -> (r: bool)
    ensures
        r == is_name(part@),
{
    !part.is_empty() && !same(part, ".")
}

fn next_name(parts: &[String], from: usize) -> (r: usize)
    requires
        from <= parts@.len(),
    ensures
        from <= r <= parts@.len(),
        texts(parts@).skip(r as int) == from_name(texts(parts@).skip(from as int)),
{
    let ghost all = texts(parts@);
    let n: usize = parts.len();
    let mut i: usize = from;
    while i < n && !names_something(&parts[i])
        invariant
            from <= i <= n == parts@.len(),
            all == texts(parts@),
            from_name(all.skip(i as int)) == from_name(all.skip(from as int)),
        decreases n - i,
    {
        assert(all.skip(i as int)[0] == parts@[i as int]@);
        assert(all.skip(i as int).skip(1) =~= all.skip(i + 1));
        i = i + 1;
    }
    proof {
        if i < n {
            assert(all.skip(i as int)[0] == parts@[i as int]@);
        }
    }
    i
}

fn last_end(parts: &[String], from: usize, to: usize) -> (r: usize)
    requires
        from <= to <= parts@.len(),
    ensures
        from <= r <= to,
        texts(parts@).subrange(from as int, r as int) == up_to_name(texts(parts@).subrange(from as int, to as int)),
{
    let ghost all = texts(parts@);
    let mut i: usize = to;
    while i > from && !names_something(&parts[i - 1])
        invariant
            from <= i <= to <= parts@.len(),
            all == texts(parts@),
            up_to_name(all.subrange(from as int, i as int)) == up_to_name(all.subrange(from as int, to as int)),
        decreases i,
    {
        assert(all.subrange(from as int, i as int).last() == parts@[i - 1]@);
        assert(all.subrange(from as int, i as int).drop_last() =~= all.subrange(from as int, i - 1));
        i = i - 1;
    }
    proof {
        if i > from {
            assert(all.subrange(from as int, i as int).last() == parts@[i - 1]@);
        }
    }
    i
}

fn join_parts(parts: &[String], from: usize, to: usize) -> (r: String)
    requires
        from <= to <= parts@.len(),
    ensures
        r@ == joined_names(texts(parts@).subrange(from as int, to as int)),
{
    let some = vstd::slice::slice_subrange(parts, from, to);
    assert(texts(some@).take(to - from) =~= texts(parts@).subrange(from as int, to as int));
    join_names(some, to - from)
}

/// What a path begins with.
pub fn anchor_of(path: &str) -> (r: String)
    ensures
        r@ == anchor(path@),
{
    let chars = to_chars(path);
    if chars.len() > 0 && chars[0] == '/' {
        return "/".to_owned();
    }
    let parts = split_on(&chars, '/');
    proof {
        lemma_split_some(path@, '/');
        assert(runs(parts@)[0] == parts@[0]@);
    }
    if same(&from_chars(&parts[0]), ".") {
        ".".to_owned()
    } else {
        let r = String::new();
        assert(r@ =~= Seq::<char>::empty());
        r
    }
}

fn write_parts(path: &str, parts: &[String], count: usize) -> (r: String)
    requires
        count <= parts@.len(),
    ensures
        r@ == parts_text(path@, texts(parts@).take(count as int)),
{
    assert(texts(parts@).take(count as int) =~= texts(parts@).subrange(0, count as int));
    if count == 0 {
        anchor_of(path)
    } else {
        join_parts(parts, 0, count)
    }
}

fn plain_names(path: &str) -> (r: Vec<String>)
    ensures
        texts(r@) == names_in(split(path@, '/')),
{
    let parts = path_parts(path);
    let ghost all = texts(parts@);
    let n: usize = parts.len();
    let mut out: Vec<String> = Vec::new();
    let mut i: usize = 0;
    assert(all.skip(0) =~= all);
    assert(texts(out@) + names_in(all) =~= names_in(all));
    while i < n
        invariant
            i <= n == parts@.len(),
            all == texts(parts@),
            texts(out@) + names_in(all.skip(i as int)) == names_in(all),
        decreases n - i,
    {
        let ghost earlier = texts(out@);
        assert(all.skip(i as int)[0] == parts@[i as int]@);
        assert(all.skip(i as int).skip(1) =~= all.skip(i + 1));
        if names_something(&parts[i]) {
            out.push(parts[i].clone());
            proof {
                let tail = names_in(all.skip(i + 1));
                assert(texts(out@) =~= earlier.push(all[i as int]));
                assert(earlier + (seq![all[i as int]] + tail) =~= earlier.push(all[i as int]) + tail);
            }
        }
        i = i + 1;
    }
    assert(texts(out@) + names_in(all.skip(n as int)) =~= texts(out@));
    out
}

/// The rest of a path below a directory.
pub fn strip_root(root: &str, path: &str) -> (r: Option<String>)
    ensures
        opt_text(r) == below(root@, path@),
{
    let parts = path_parts(path);
    let ghost all = texts(parts@);
    let n: usize = parts.len();
    assert(all.subrange(0, n as int) =~= all);
    if root.is_empty() {
        let end = last_end(&parts, 0, n);
        assert(all.take(end as int) =~= all.subrange(0, end as int));
        return Some(write_parts(path, &parts, end));
    }
    if !same(&anchor_of(root), &anchor_of(path)) {
        return None;
    }
    let names = plain_names(root);
    let ghost wanted = texts(names@);
    let m: usize = names.len();
    let mut i: usize = 0;
    let mut j: usize = 0;
    assert(wanted.skip(0) =~= wanted);
    assert(all.skip(0) =~= all);
    while i < m
        invariant
            i <= m == names@.len(),
            j <= n == parts@.len(),
            all == texts(parts@),
            wanted == texts(names@),
            after_names(wanted.skip(i as int), all.skip(j as int)) == after_names(wanted, all),
            all == split(path@, '/'),
            wanted == names_in(split(root@, '/')),
            root@.len() > 0,
            anchor(root@) == anchor(path@),
        decreases m - i,
    {
        j = next_name(&parts, j);
        assert(wanted.skip(i as int)[0] == names@[i as int]@);
        if j == n {
            return None;
        }
        assert(all.skip(j as int)[0] == parts@[j as int]@);
        if !same(&parts[j], &names[i]) {
            return None;
        }
        assert(wanted.skip(i as int).skip(1) =~= wanted.skip(i + 1));
        assert(all.skip(j as int).skip(1) =~= all.skip(j + 1));
        i = i + 1;
        j = j + 1;
    }
    let from = next_name(&parts, j);
    let end = last_end(&parts, from, n);
    assert(wanted.skip(m as int).len() == 0);
    assert(all.skip(from as int) =~= all.subrange(from as int, n as int));
    Some(join_parts(&parts, from, end))
}

/// A name in a directory.
pub open spec fn named_in(dir: Seq<char>, name: Seq<char>) -> Seq<char> {
    if dir.len() == 0 || dir.last() == '/' {
        dir + name
    } else {
        dir + "/"@ + name
    }
}

fn name_in(dir: &str, name: &str) -> (r: String)
    ensures
        r@ == named_in(dir@, name@),
{
    let chars = to_chars(dir);
    let n: usize = chars.len();
    if n == 0 || chars[n - 1] == '/' {
        concat(dir, name)
    } else {
        concat3(dir, "/", name)
    }
}

/// The path beside a file, with something behind the name of the file. Where a path
/// does not end in a name, it is that of a directory, and another name is used in it.
pub open spec fn beside(path: Seq<char>, other: Seq<char>, behind: Seq<char>) -> Seq<char> {
    let parts = up_to_name(split(path, '/'));
    if parts.len() > 0 && parts.last() != ".."@ {
        named_in(parts_text(path, up_to_name(parts.drop_last())), parts.last() + behind)
    } else {
        named_in(path, other + behind)
    }
}

/// Writes the path beside a file.
pub fn path_beside(path: &str, other: &str, behind: &str) -> (r: String)
    ensures
        r@ == beside(path@, other@, behind@),
{
    let parts = path_parts(path);
    let ghost all = texts(parts@);
    let n: usize = parts.len();
    let end = last_end(&parts, 0, n);
    assert(all.subrange(0, n as int) =~= all);
    if end > 0 && !same(&parts[end - 1], "..") {
        let top = last_end(&parts, 0, end - 1);
        proof {
            let kept = all.subrange(0, end as int);
            assert(kept.last() == parts@[end - 1]@);
            assert(kept.drop_last() =~= all.subrange(0, end - 1));
            assert(all.take(top as int) =~= all.subrange(0, top as int));
        }
        let dir = write_parts(path, &parts, top);
        name_in(&dir, &concat(&parts[end - 1], behind))
    } else {
        proof {
            let kept = all.subrange(0, end as int);
            if end > 0 {
                assert(kept.last() == parts@[end - 1]@);
            }
        }
        name_in(path, &concat(other, behind))
    }
}

/// The names along a path are not empty and hold no slash.
pub proof fn lemma_segments_plain(path: Seq<char>)
    ensures
        forall|i: int|
            0 <= i < segments(path).len() ==> (#[trigger] segments(path)[i]).len() > 0 && !segments(path)[i].contains('/'),
{
    lemma_split_plain(path, '/');
    lemma_nonempty_plain(split(path, '/'));
}

proof fn lemma_split_plain(s: Seq<char>, c: char)
    ensures
        forall|i: int| 0 <= i < split(s, c).len() ==> !(#[trigger] split(s, c)[i]).contains(c),
    decreases s.len(),
{
    match cut(s, c) {
        Some((head, rest)) => {
            lemma_first(s, c);
            lemma_split_plain(rest, c);
            assert(!head.contains(c)) by {
                if head.contains(c) {
                    let k = choose|k: int| 0 <= k < head.len() && head[k] == c;
                    assert(s[k] == c);
                }
            }
            let tail = split(rest, c);
            assert(split(s, c) == seq![head] + tail);
            assert forall|i: int| 0 <= i < split(s, c).len() implies !(#[trigger] split(s, c)[i]).contains(c) by {
                if i > 0 {
                    assert(split(s, c)[i] == tail[i - 1]);
                }
            }
        },
        None => {
            lemma_first(s, c);
        },
    }
}

proof fn lemma_nonempty_plain(list: Seq<Seq<char>>)
    requires
        forall|i: int| 0 <= i < list.len() ==> !(#[trigger] list[i]).contains('/'),
    ensures
        forall|i: int|
            0 <= i < nonempty(list).len() ==> (#[trigger] nonempty(list)[i]).len() > 0 && !nonempty(list)[i].contains('/'),
    decreases list.len(),
{
    if list.len() > 0 {
        assert forall|i: int| 0 <= i < list.drop_last().len() implies !(#[trigger] list.drop_last()[i]).contains('/') by {
            assert(list.drop_last()[i] == list[i]);
        }
        lemma_nonempty_plain(list.drop_last());
        assert(list.last() == list[list.len() - 1]);
        let kept = nonempty(list.drop_last());
        assert forall|i: int| 0 <= i < nonempty(list).len() implies (#[trigger] nonempty(list)[i]).len() > 0
            && !nonempty(list)[i].contains('/') by {
            if i < kept.len() {
                assert(nonempty(list)[i] == kept[i]);
            }
        }
    }
}

proof fn lemma_split_some(s: Seq<char>, c: char)
    ensures
        split(s, c).len() > 0,
{
    match cut(s, c) {
        Some((head, rest)) => {
            assert(split(s, c)[0] == head);
        },
        None => {},
    }
}

/// The parts of two paths with a slash between them are those of both.
proof fn lemma_split_joined(a: Seq<char>, b: Seq<char>)
    ensures
        split(a + "/"@ + b, '/') == split(a, '/') + split(b, '/'),
    decreases a.len(),
{
    reveal_strlit("/");
    let whole = a + "/"@ + b;
    lemma_first(a, '/');
    let at = first(a, '/') as int;
    assert forall|k: int| 0 <= k < at implies whole[k] != '/' by {
        assert(whole[k] == a[k]);
    }
    lemma_first_is(whole, '/', at);
    if at < a.len() {
        let rest = a.skip(at + 1);
        lemma_split_joined(rest, b);
        assert(whole.take(at) =~= a.take(at));
        assert(whole.skip(at + 1) =~= rest + "/"@ + b);
        assert(split(whole, '/') == seq![a.take(at)] + (split(rest, '/') + split(b, '/')));
        assert(seq![a.take(at)] + (split(rest, '/') + split(b, '/')) =~= (seq![a.take(at)] + split(rest, '/')) + split(
            b,
            '/',
        ));
    } else {
        assert(whole.take(at) =~= a);
        assert(whole.skip(at + 1) =~= b);
    }
}

/// The parts of names with slashes between them are the names.
proof fn lemma_split_names(names: Seq<Seq<char>>)
    requires
        names.len() > 0,
        forall|i: int| 0 <= i < names.len() ==> !(#[trigger] names[i]).contains('/'),
    ensures
        split(joined_names(names), '/') == names,
    decreases names.len(),
{
    let tail = names.last();
    assert(!names[names.len() - 1].contains('/'));
    assert forall|k: int| 0 <= k < tail.len() implies tail[k] != '/' by {
        assert(tail.contains(tail[k]));
    }
    lemma_first_is(tail, '/', tail.len() as int);
    assert(split(tail, '/') == seq![tail]);
    if names.len() == 1 {
        assert(names =~= seq![tail]);
    } else {
        let rest = names.drop_last();
        assert forall|i: int| 0 <= i < rest.len() implies !(#[trigger] rest[i]).contains('/') by {
            assert(rest[i] == names[i]);
        }
        lemma_split_names(rest);
        lemma_split_joined(joined_names(rest), tail);
        assert(rest + seq![tail] =~= names);
    }
}

/// Names with slashes between them, the first apart.
proof fn lemma_joined_first(head: Seq<char>, rest: Seq<Seq<char>>)
    requires
        rest.len() > 0,
    ensures
        joined_names(seq![head] + rest) == head + "/"@ + joined_names(rest),
    decreases rest.len(),
{
    let whole = seq![head] + rest;
    assert(whole.last() == rest.last());
    assert(whole.drop_last() =~= seq![head] + rest.drop_last());
    if rest.len() == 1 {
        reveal_with_fuel(joined_names, 2);
        assert(whole.drop_last() =~= seq![head]);
        assert(joined_names(whole) =~= head + "/"@ + joined_names(rest));
    } else {
        lemma_joined_first(head, rest.drop_last());
        assert(joined_names(whole) =~= head + "/"@ + joined_names(rest));
    }
}

/// The parts of a path with slashes between them are the path.
pub proof fn lemma_join_split(path: Seq<char>)
    ensures
        joined_names(split(path, '/')) == path,
    decreases path.len(),
{
    reveal_strlit("/");
    lemma_first(path, '/');
    match cut(path, '/') {
        Some((head, rest)) => {
            lemma_join_split(rest);
            lemma_split_some(rest, '/');
            lemma_joined_first(head, split(rest, '/'));
            assert(head + "/"@ + rest =~= path);
        },
        None => {},
    }
}

proof fn lemma_one_part(part: Seq<char>)
    requires
        !is_name(part),
    ensures
        names_in(seq![part]) == Seq::<Seq<char>>::empty(),
        up_to_name(seq![part]) == Seq::<Seq<char>>::empty(),
{
    reveal_with_fuel(names_in, 2);
    reveal_with_fuel(up_to_name, 2);
    assert(seq![part].skip(1) =~= Seq::empty());
    assert(seq![part].drop_last() =~= Seq::empty());
}

proof fn lemma_names_added(a: Seq<Seq<char>>, b: Seq<Seq<char>>)
    ensures
        names_in(a + b) == names_in(a) + names_in(b),
    decreases a.len(),
{
    if a.len() == 0 {
        assert(a + b =~= b);
        assert(names_in(a) + names_in(b) =~= names_in(b));
    } else {
        lemma_names_added(a.skip(1), b);
        assert((a + b).skip(1) =~= a.skip(1) + b);
        assert(names_in(a + b) =~= names_in(a) + names_in(b));
    }
}

/// What follows the names of a path is what the path is continued with.
proof fn lemma_after_names(a: Seq<Seq<char>>, b: Seq<Seq<char>>)
    ensures
        after_names(names_in(a), a + b) == Some(up_to_name(from_name(b))),
    decreases a.len(),
{
    if a.len() == 0 {
        assert(a + b =~= b);
    } else {
        lemma_after_names(a.skip(1), b);
        assert((a + b)[0] == a[0]);
        assert((a + b).skip(1) =~= a.skip(1) + b);
        if is_name(a[0]) {
            assert(names_in(a).skip(1) =~= names_in(a.skip(1)));
        } else {
            lemma_from_name(a.skip(1) + b);
            lemma_from_name(a + b);
            lemma_after_same(names_in(a), a + b, a.skip(1) + b);
        }
    }
}

proof fn lemma_from_name(parts: Seq<Seq<char>>)
    ensures
        from_name(from_name(parts)) == from_name(parts),
        names_in(from_name(parts)) == names_in(parts),
    decreases parts.len(),
{
    if parts.len() > 0 && !is_name(parts[0]) {
        lemma_from_name(parts.skip(1));
    }
}

proof fn lemma_after_same(names: Seq<Seq<char>>, a: Seq<Seq<char>>, b: Seq<Seq<char>>)
    requires
        from_name(a) == from_name(b),
    ensures
        after_names(names, a) == after_names(names, b),
{
}

proof fn lemma_up_to_name(parts: Seq<Seq<char>>)
    ensures
        names_in(up_to_name(parts)) == names_in(parts),
    decreases parts.len(),
{
    if parts.len() > 0 && !is_name(parts.last()) {
        lemma_up_to_name(parts.drop_last());
        lemma_names_added(parts.drop_last(), seq![parts.last()]);
        assert(parts.drop_last() + seq![parts.last()] =~= parts);
        lemma_one_part(parts.last());
        assert(names_in(parts) =~= names_in(parts.drop_last()));
    }
}

proof fn lemma_names_trimmed(root: Seq<char>)
    ensures
        names_in(split(trim_back(root, Trim::Slash), '/')) == names_in(split(root, '/')),
    decreases root.len(),
{
    reveal_strlit("/");
    if root.len() > 0 && root.last() == '/' {
        let rest = root.drop_last();
        lemma_names_trimmed(rest);
        let none = Seq::<char>::empty();
        assert(root =~= rest + "/"@ + none);
        lemma_split_joined(rest, none);
        lemma_names_added(split(rest, '/'), split(none, '/'));
        lemma_first_is(none, '/', 0);
        assert(split(none, '/') == seq![none]);
        lemma_one_part(none);
        assert(names_in(split(root, '/')) =~= names_in(split(rest, '/')));
    }
}

proof fn lemma_anchor_joined(root: Seq<char>, path: Seq<char>)
    requires
        root.len() > 0,
    ensures
        anchor(trim_back(root, Trim::Slash) + "/"@ + path) == anchor(root),
{
    reveal_strlit("/");
    let top = trim_back(root, Trim::Slash);
    let whole = top + "/"@ + path;
    lemma_trim_prefix(root);
    if top.len() == 0 {
        assert(whole[0] == '/');
        assert(root[0] == '/');
    } else {
        assert(whole[0] == top[0] && root[0] == top[0]);
        lemma_split_joined(top, path);
        lemma_split_some(top, '/');
        if top.len() < root.len() {
            let behind = root.skip(top.len() as int + 1);
            assert(root =~= top + "/"@ + behind);
            lemma_split_joined(top, behind);
        } else {
            assert(root =~= top);
        }
    }
}

proof fn lemma_trim_prefix(root: Seq<char>)
    ensures
        trim_back(root, Trim::Slash).len() <= root.len(),
        trim_back(root, Trim::Slash) == root.take(trim_back(root, Trim::Slash).len() as int),
        forall|k: int| trim_back(root, Trim::Slash).len() <= k < root.len() ==> root[k] == '/',
    decreases root.len(),
{
    if root.len() > 0 && root.last() == '/' {
        lemma_trim_prefix(root.drop_last());
        let top = trim_back(root, Trim::Slash);
        assert(root.drop_last().take(top.len() as int) =~= root.take(top.len() as int));
        assert forall|k: int| top.len() <= k < root.len() implies root[k] == '/' by {
            if k < root.len() - 1 {
                assert(root.drop_last()[k] == root[k]);
            }
        }
    } else {
        assert(root.take(root.len() as int) =~= root);
    }
}

/// What a directory, a slash and a path make lies below the directory, from the first
/// name of the path to its last.
pub proof fn lemma_below_joined(root: Seq<char>, path: Seq<char>)
    requires
        root.len() > 0,
    ensures
        below(root, trim_back(root, Trim::Slash) + "/"@ + path) == Some(
            joined_names(up_to_name(from_name(split(path, '/')))),
        ),
{
    let top = trim_back(root, Trim::Slash);
    lemma_anchor_joined(root, path);
    lemma_split_joined(top, path);
    lemma_names_trimmed(root);
    lemma_after_names(split(top, '/'), split(path, '/'));
}

/// A directory lies below itself, with nothing left.
pub proof fn lemma_below_itself(root: Seq<char>)
    ensures
        below(root, root) == Some(Seq::<char>::empty()),
{
    let parts = split(root, '/');
    let none = Seq::<Seq<char>>::empty();
    if root.len() == 0 {
        lemma_first_is(root, '/', 0);
        reveal_strlit(".");
        assert(parts == seq![root]);
        lemma_one_part(root);
        assert("."@.len() == 1);
    } else {
        lemma_after_names(parts, none);
        assert(parts + none =~= parts);
    }
}

/// Whether a path begins and ends with a name.
pub open spec fn is_plain(path: Seq<char>) -> bool {
    is_name(split(path, '/')[0]) && is_name(split(path, '/').last())
}

/// A path that begins and ends with a name lies below a directory as it is.
pub proof fn lemma_plain_below(root: Seq<char>, path: Seq<char>)
    requires
        root.len() > 0,
        is_plain(path),
    ensures
        below(root, trim_back(root, Trim::Slash) + "/"@ + path) == Some(path),
{
    lemma_below_joined(root, path);
    lemma_split_some(path, '/');
    lemma_join_split(path);
}

/// Names below a directory are the names of what lies below it.
pub proof fn lemma_names_below(root: Seq<char>, names: Seq<Seq<char>>)
    requires
        forall|i: int| 0 <= i < names.len() ==> !(#[trigger] names[i]).contains('/'),
    ensures
        below(root, trim_back(root, Trim::Slash) + "/"@ + joined_names(names)) matches Some(rest) && names_in(
            split(rest, '/'),
        ) == names_in(names),
{
    let path = joined_names(names);
    let whole = trim_back(root, Trim::Slash) + "/"@ + path;
    let none = Seq::<char>::empty();
    lemma_first_is(none, '/', 0);
    assert(split(none, '/') == seq![none]);
    lemma_one_part(none);
    let parts = split(path, '/');
    if names.len() > 0 {
        lemma_split_names(names);
    }
    assert(names_in(parts) =~= names_in(names));
    lemma_split_plain(whole, '/');
    if root.len() > 0 {
        lemma_below_joined(root, path);
        lemma_split_plain(path, '/');
        let kept = up_to_name(from_name(parts));
        lemma_from_name(parts);
        lemma_up_to_name(from_name(parts));
        lemma_kept_plain(parts);
        lemma_kept_plain(from_name(parts));
        if kept.len() > 0 {
            lemma_split_names(kept);
        } else {
            assert(names_in(names) =~= Seq::empty());
        }
    } else {
        reveal_strlit("/");
        assert(whole =~= none + "/"@ + path);
        lemma_split_joined(none, path);
        lemma_names_added(seq![none], parts);
        let kept = up_to_name(split(whole, '/'));
        lemma_up_to_name(split(whole, '/'));
        lemma_kept_plain(split(whole, '/'));
        assert(names_in(kept) =~= names_in(names));
        if kept.len() > 0 {
            lemma_split_names(kept);
        } else {
            assert(whole[0] == '/');
            assert("/"@ =~= none + "/"@ + none);
            lemma_split_joined(none, none);
            lemma_names_added(seq![none], seq![none]);
            assert(names_in(split("/"@, '/')) =~= Seq::empty());
            assert(names_in(names) =~= Seq::empty());
        }
    }
}

proof fn lemma_kept_plain(parts: Seq<Seq<char>>)
    requires
        forall|i: int| 0 <= i < parts.len() ==> !(#[trigger] parts[i]).contains('/'),
    ensures
        forall|i: int| 0 <= i < from_name(parts).len() ==> !(#[trigger] from_name(parts)[i]).contains('/'),
        forall|i: int| 0 <= i < up_to_name(parts).len() ==> !(#[trigger] up_to_name(parts)[i]).contains('/'),
    decreases parts.len(),
{
    if parts.len() > 0 {
        let rest = parts.skip(1);
        assert forall|i: int| 0 <= i < rest.len() implies !(#[trigger] rest[i]).contains('/') by {
            assert(rest[i] == parts[i + 1]);
        }
        lemma_kept_plain(rest);
        let front = parts.drop_last();
        assert forall|i: int| 0 <= i < front.len() implies !(#[trigger] front[i]).contains('/') by {
            assert(front[i] == parts[i]);
        }
        lemma_kept_plain(front);
        if !is_name(parts[0]) {
            assert(from_name(parts) == from_name(rest));
        }
        if !is_name(parts.last()) {
            assert(up_to_name(parts) == up_to_name(front));
        }
    }
}

} // verus!
