//! Where the files of an account are.

use vstd::prelude::*;

use crate::error::{bare, fail, seen, Error, ErrorV, Fault};
use crate::identity::{address_parts, parse_address, port_in};
use crate::paths::{
    below, is_plain, join_names, joined_names, lemma_below_itself, lemma_names_below, lemma_plain_below,
    lemma_segments_plain, names_in, path_segments, segments, strip_root,
};
use crate::primitives::{parse_url, url_parts, UrlParts, UrlPartsV};
use crate::text::{
    after_prefix, concat3, find, first, from_chars, lemma_first, lemma_first_is, same, split, strip_prefix, texts,
    to_chars, trim_back, trim_end, Trim,
};
use crate::types::Context;

verus! {

/// An address without the `http://` that asks for a plain connection.
pub open spec fn bare_address(address: Seq<char>) -> Seq<char> {
    match after_prefix(address, "http://"@) {
        Some(rest) => rest,
        None => address,
    }
}

/// Takes the `http://` off an address, and says whether it was there.
pub fn take_scheme(address: &str) -> (r: (bool, String))
    ensures
        r.0 == "http://"@.is_prefix_of(address@),
        r.1@ == bare_address(address@),
{
    match strip_prefix(address, "http://") {
        Some(rest) => (true, rest),
        None => (false, address.to_owned()),
    }
}

/// Whether a path is an address: `<name>@<host>/...`, with or without `http://`.
pub open spec fn is_address(path: Seq<char>) -> bool {
    let address = bare_address(path);
    first(address, '@') < first(address, '/')
}

/// Whether a path is an address.
pub fn names_account(path: &str) -> (r: bool)
    ensures
        r == is_address(path@),
{
    let (_, address) = take_scheme(path);
    let chars = to_chars(&address);
    find(&chars, '@') < find(&chars, '/')
}

/// A path from the root of an account.
pub open spec fn from_root(path: Seq<char>) -> Seq<char> {
    if path.len() > 0 && path[0] == '/' {
        path
    } else {
        "/"@ + path
    }
}

/// The scheme of a URL: `https`, unless a plain connection is asked for.
pub open spec fn scheme(plain: bool) -> Seq<char> {
    if plain {
        "http://"@
    } else {
        "https://"@
    }
}

/// The URL of a path in the account with an address, behind its scheme, and whether a
/// plain connection is asked for. The path is relative or absolute in that account, or
/// an address of its own.
pub open spec fn located(account: Seq<char>, path: Seq<char>) -> Result<(bool, Seq<char>), ErrorV> {
    let address = if is_address(path) {
        path
    } else {
        account
    };
    match address_parts(bare_address(address)) {
        Ok((name, host, tail)) => Ok(
            (
                "http://"@.is_prefix_of(address),
                host + "/ark/"@ + name + if is_address(path) {
                    tail
                } else {
                    from_root(path)
                },
            ),
        ),
        Err(e) => Err(e),
    }
}

/// The URL of a path in the account with an address. It is one of `https`, unless the
/// address begins with `http://`.
pub open spec fn url_text(account: Seq<char>, path: Seq<char>) -> Result<Seq<char>, ErrorV> {
    match located(account, path) {
        Ok((plain, rest)) => Ok(scheme(plain) + rest),
        Err(e) => Err(e),
    }
}

fn locate(account: &str, path: &str) -> (r: Result<(bool, String), Error>)
    ensures
        (match r {
            Ok(l) => Ok((l.0, l.1@)),
            Err(e) => Err(e@),
        }) == located(account@, path@),
{
    let own = !names_account(path);
    let (plain, address) = take_scheme(
        if own {
            account
        } else {
            path
        },
    );
    match parse_address(&address) {
        Ok((name, host, tail)) => {
            let mut out = concat3(&host, "/ark/", &name);
            if !own {
                out.append(&tail);
            } else {
                let chars = to_chars(path);
                if chars.len() > 0 && chars[0] == '/' {
                    out.append(path);
                } else {
                    let rooted = crate::text::concat("/", path);
                    out.append(&rooted);
                }
            }
            Ok((plain, out))
        },
        Err(e) => Err(e),
    }
}

fn write_scheme(plain: bool, rest: &str) -> (r: String)
    ensures
        r@ == scheme(plain) + rest@,
{
    crate::text::concat(
        if plain {
            "http://"
        } else {
            "https://"
        },
        rest,
    )
}

/// The URL of a path in the account with an address.
pub fn write_url(account: &str, path: &str) -> (r: Result<String, Error>)
    ensures
        seen(r) == url_text(account@, path@),
{
    match locate(account, path) {
        Ok((plain, rest)) => Ok(write_scheme(plain, &rest)),
        Err(e) => Err(e),
    }
}

/// The parts of a URL that must be one, with the port that is given, be it the usual
/// one of its scheme or not.
pub open spec fn parts_of(plain: bool, rest: Seq<char>) -> Result<UrlPartsV, ErrorV> {
    match url_parts(scheme(plain) + rest) {
        Some(u) => Ok(
            match u.port {
                Some(_) => u,
                None => UrlPartsV { port: port_in(scheme(!plain) + rest), ..u },
            },
        ),
        None => Err(bare(Fault::InvalidAddress)),
    }
}

/// The URL of a path in the account with an address.
pub open spec fn client_url(account: Seq<char>, path: Seq<char>) -> Result<UrlPartsV, ErrorV> {
    match located(account, path) {
        Ok((plain, rest)) => parts_of(plain, rest),
        Err(e) => Err(e),
    }
}

/// Finds the URL of a path in the account with an address.
pub fn resolve_client_url_raw(account: &str, path: &str) -> (r: Result<UrlParts, Error>)
    ensures
        seen(r) == client_url(account@, path@),
{
    let (plain, rest) = match locate(account, path) {
        Ok(l) => l,
        Err(e) => {
            return Err(e);
        },
    };
    let mut url = match parse_url(&write_scheme(plain, &rest)) {
        Some(u) => u,
        None => {
            return Err(fail(Fault::InvalidAddress));
        },
    };
    if url.port.is_none() {
        let ghost before = url@;
        let other = parse_url(&write_scheme(!plain, &rest));
        url.port = match other {
            Some(u) => u.port,
            None => None,
        };
        assert(url@ =~= UrlPartsV { port: port_in(scheme(!plain) + rest@), ..before });
    }
    Ok(url)
}

/// Finds the URL of a path. The path is relative or absolute in the account, or
/// an address of its own.
pub fn resolve_client_url(ctx: &Context, path: &str) -> (r: Result<UrlParts, Error>)
    ensures
        seen(r) == client_url(ctx@.identity.address, path@),
{
    resolve_client_url_raw(&ctx.identity.address, path)
}

// Paths as they are given.

/// A path as given in a directory of the account, taken from the root of the
/// account; an address stays as it is.
pub open spec fn rooted(root: Seq<char>, current: Seq<char>, path: Seq<char>) -> Result<Seq<char>, ErrorV> {
    if is_address(path) || (path.len() > 0 && path[0] == '/') {
        Ok(path)
    } else {
        match below(root, current) {
            Some(dir) => if dir.len() == 0 {
                Ok("/"@ + path)
            } else {
                Ok("/"@ + dir + "/"@ + path)
            },
            None => Err(bare(Fault::NotWithin)),
        }
    }
}

/// Takes a path that was given in the directory `current` from the root of the
/// account.
pub fn resolve_path(ctx: &Context, current: &str, path: &str) -> (r: Result<String, Error>)
    ensures
        seen(r) == rooted(ctx@.root, current@, path@),
{
    let chars = to_chars(path);
    if names_account(path) || (chars.len() > 0 && chars[0] == '/') {
        return Ok(path.to_owned());
    }
    match strip_root(&ctx.root, current) {
        Some(dir) => if to_chars(&dir).len() == 0 {
            Ok(crate::text::concat("/", path))
        } else {
            let mut out = concat3("/", &dir, "/");
            out.append(path);
            Ok(out)
        },
        None => Err(fail(Fault::NotWithin)),
    }
}

/// The part of a path that lies in an account.
pub open spec fn inner_path(path: Seq<char>) -> Result<Seq<char>, ErrorV> {
    if is_address(path) {
        match address_parts(bare_address(path)) {
            Ok((_, _, tail)) => Ok(tail),
            Err(e) => Err(e),
        }
    } else {
        Ok(path)
    }
}

/// Where the own copy of a path lies on the host: below the root of the account,
/// also where the path is an address of another one.
pub open spec fn fs_path(root: Seq<char>, path: Seq<char>) -> Result<Seq<char>, ErrorV> {
    match inner_path(path) {
        Ok(inner) => if segments(inner).contains(".."@) {
            Err(bare(Fault::NotWithin))
        } else {
            Ok(trim_back(root, Trim::Slash) + "/"@ + joined_names(segments(inner)))
        },
        Err(e) => Err(e),
    }
}

/// Finds where the own copy of a path lies on the host.
pub fn to_fs_path(ctx: &Context, path: &str) -> (r: Result<String, Error>)
    ensures
        seen(r) == fs_path(ctx@.root, path@),
{
    let inner = if names_account(path) {
        let (_, address) = take_scheme(path);
        match parse_address(&address) {
            Ok((_, _, tail)) => tail,
            Err(e) => {
                return Err(e);
            },
        }
    } else {
        path.to_owned()
    };
    let names = path_segments(&inner);
    let ghost all = segments(inner@);
    let n: usize = names.len();
    let mut i: usize = 0;
    while i < n
        invariant
            i <= n == names@.len(),
            all == texts(names@),
            all == segments(inner@),
            inner_path(path@) == Ok::<Seq<char>, ErrorV>(inner@),
            forall|k: int| 0 <= k < i ==> all[k] != ".."@,
        decreases n - i,
    {
        if same(&names[i], "..") {
            assert(all[i as int] == ".."@);
            return Err(fail(Fault::NotWithin));
        }
        i = i + 1;
    }
    let root = to_chars(&ctx.root);
    let mut out = from_chars(trim_end(&root, Trim::Slash));
    out.append("/");
    let rest = join_names(&names, n);
    out.append(&rest);
    assert(all.take(n as int) =~= all);
    Ok(out)
}

/// The own copy of a path lies below the root of the account, at the names along
/// the path.
pub proof fn copies_stay_inside(root: Seq<char>, path: Seq<char>)
    ensures
        match fs_path(root, path) {
            Ok(file) => (below(root, file) matches Some(rest) && names_in(split(rest, '/')) == names_in(
                segments(inner_path(path)->Ok_0),
            )) && !segments(inner_path(path)->Ok_0).contains(".."@),
            Err(_) => true,
        },
{
    if let Ok(inner) = inner_path(path) {
        lemma_segments_plain(inner);
        lemma_names_below(root, segments(inner));
    }
}

/// In the root of the account a relative path is the same as one from the root,
/// and in a directory of the account it is the same as the directory's path
/// followed by it.
pub proof fn relative_paths_follow_the_directory(account: Seq<char>, root: Seq<char>, dir: Seq<char>, path: Seq<char>)
    requires
        !is_address(path),
        path.len() > 0 ==> path[0] != '/',
        root.len() > 0,
        is_plain(dir),
    ensures
        rooted(root, root, path) == Ok::<Seq<char>, ErrorV>("/"@ + path),
        url_text(account, "/"@ + path) == url_text(account, path),
        rooted(root, trim_back(root, Trim::Slash) + "/"@ + dir, path)
            == Ok::<Seq<char>, ErrorV>("/"@ + dir + "/"@ + path),
{
    reveal_strlit("/");
    lemma_below_itself(root);
    lemma_plain_below(root, dir);
    assert(dir.len() > 0) by {
        if dir.len() == 0 {
            lemma_first_is(dir, '/', 0);
        }
    }
    lemma_first("/"@ + path, '/');
    lemma_first_is("/"@ + path, '/', 0);
    assert(("/"@ + path)[0] == '/');
    reveal_strlit("http://");
    assert("http://"@[0] == 'h');
    assert(!"http://"@.is_prefix_of("/"@ + path));
}

} // verus!
