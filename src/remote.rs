//! Repository context from a Git remote URL.
use vstd::prelude::*;
use crate::lang::opt_seq;
use crate::text::{
    chars_of, ends_with, find_char_from, has_prefix, has_suffix, index_of_from, push_all, push_str,
    slice, starts_with, string_from_chars, trim, trimmed,
};

verus! {

broadcast use vstd::string::group_string_axioms;

/// `s` without one trailing `.git`.
pub open spec fn strip_git(s: Seq<char>) -> Seq<char> {
    if ends_with(s, ".git"@) {
        s.subrange(0, s.len() - ".git"@.len())
    } else {
        s
    }
}

/// From the part of a remote after the host: the first two `/`-separated
/// pieces, trimmed, as owner and repository; both must be non-empty.
pub open spec fn repo_url_from_path(rest: Seq<char>) -> Option<Seq<char>> {
    let r = strip_git(rest);
    let first_slash = index_of_from(r, 0, '/');
    if first_slash >= r.len() {
        None
    } else {
        let second_slash = index_of_from(r, first_slash + 1, '/');
        let owner = trim(r.subrange(0, first_slash));
        let repo = trim(r.subrange(first_slash + 1, second_slash));
        if owner.len() == 0 || repo.len() == 0 {
            None
        } else {
            Some("https://github.com/"@ + owner + "/"@ + repo)
        }
    }
}

pub open spec fn after(s: Seq<char>, p: Seq<char>) -> Seq<char> {
    s.subrange(p.len() as int, s.len() as int)
}

/// The `https://github.com/owner/repo` base URL of a GitHub remote given in
/// HTTPS, HTTP, SCP-like SSH or `ssh://` form; `None` for anything else.
pub open spec fn github_remote(remote: Seq<char>) -> Option<Seq<char>> {
    if starts_with(remote, "https://github.com/"@) {
        repo_url_from_path(after(remote, "https://github.com/"@))
    } else if starts_with(remote, "http://github.com/"@) {
        repo_url_from_path(after(remote, "http://github.com/"@))
    } else if starts_with(remote, "git@github.com:"@) {
        repo_url_from_path(after(remote, "git@github.com:"@))
    } else if starts_with(remote, "ssh://git@github.com/"@) {
        repo_url_from_path(after(remote, "ssh://git@github.com/"@))
    } else {
        None
    }
}

fn repo_url_chars(rest: &Vec<char>) -> (r: Option<Vec<char>>)
    ensures
        opt_seq(r) == repo_url_from_path(rest@),
{
    let git = chars_of(".git");
    let r = if has_suffix(rest, &git) {
        slice(rest, 0, rest.len() - git.len())
    } else {
        slice(rest, 0, rest.len())
    };
    assert(rest@.subrange(0, rest@.len() as int) =~= rest@);
    let first_slash = find_char_from(&r, 0, '/');
    if first_slash >= r.len() {
        return None;
    }
    let second_slash = find_char_from(&r, first_slash + 1, '/');
    let owner = trimmed(&slice(&r, 0, first_slash));
    let repo = trimmed(&slice(&r, first_slash + 1, second_slash));
    if owner.len() == 0 || repo.len() == 0 {
        return None;
    }
    let mut out = chars_of("https://github.com/");
    push_all(&mut out, &owner);
    push_str(&mut out, "/");
    push_all(&mut out, &repo);
    Some(out)
}

fn after_prefix(remote: &Vec<char>, prefix: &str) -> (r: Option<Vec<char>>)
    ensures
        match r {
            Some(v) => starts_with(remote@, prefix@) && v@ == after(remote@, prefix@),
            None => !starts_with(remote@, prefix@),
        },
{
    let p = chars_of(prefix);
    if has_prefix(remote, &p) {
        Some(slice(remote, p.len(), remote.len()))
    } else {
        None
    }
}

/// The `https://github.com/owner/repo` base URL of a GitHub remote (see
/// `github_remote`).
pub fn parse_github_remote(remote: &str) -> (r: Option<String>)
    ensures
        opt_seq(r) == github_remote(remote@),
{
    let v = chars_of(remote);
    let rest = match after_prefix(&v, "https://github.com/") {
        Some(x) => Some(x),
        None => match after_prefix(&v, "http://github.com/") {
            Some(x) => Some(x),
            None => match after_prefix(&v, "git@github.com:") {
                Some(x) => Some(x),
                None => after_prefix(&v, "ssh://git@github.com/"),
            },
        },
    };
    match rest {
        Some(x) => match repo_url_chars(&x) {
            Some(u) => Some(string_from_chars(&u)),
            None => None,
        },
        None => None,
    }
}

} // verus!
