use vstd::prelude::*;
use crate::text::{chars_of, find_last, is_last};

verus! {

/// Database connection settings. Unset limits take their defaults.
#[derive(Clone, Debug)]
pub struct Database {
    pub url: String,
    pub min_connections: Option<u32>,
    pub max_connections: Option<u32>,
    pub connect_timeout: Option<u64>,
    pub acquire_timeout: Option<u64>,
    pub idle_timeout: Option<u64>,
    pub max_lifetime: Option<u64>,
}

/// Where the TLS certificate chain and private key are read from.
#[derive(Clone, Debug)]
pub struct SecureServer {
    pub cert_path: String,
    pub key_path: String,
}

/// `v`, or `d` when `v` is unset.
pub open spec fn or_default<T>(v: Option<T>, d: T) -> Option<T> {
    match v {
        Some(x) => Some(x),
        None => Some(d),
    }
}

/// Fills in every unset setting with its default: log filter `error`, one to 32 connections,
/// and ten seconds for each timeout and for a connection's lifetime. Set values stay.
pub fn apply_defaults(log: &mut Option<String>, database: &mut Database)
    ensures
        match *old(log) {
            Some(l) => *final(log) == Some(l),
            None => *final(log) matches Some(l) && l@ == "error"@,
        },
        final(database).url == old(database).url,
        final(database).min_connections == or_default(old(database).min_connections, 1u32),
        final(database).max_connections == or_default(old(database).max_connections, 32u32),
        final(database).connect_timeout == or_default(old(database).connect_timeout, 10u64),
        final(database).acquire_timeout == or_default(old(database).acquire_timeout, 10u64),
        final(database).idle_timeout == or_default(old(database).idle_timeout, 10u64),
        final(database).max_lifetime == or_default(old(database).max_lifetime, 10u64),
{
    if log.is_none() {
        *log = Some(String::from_str("error"));
    }
    if database.min_connections.is_none() {
        database.min_connections = Some(1);
    }
    if database.max_connections.is_none() {
        database.max_connections = Some(32);
    }
    if database.connect_timeout.is_none() {
        database.connect_timeout = Some(10);
    }
    if database.acquire_timeout.is_none() {
        database.acquire_timeout = Some(10);
    }
    if database.idle_timeout.is_none() {
        database.idle_timeout = Some(10);
    }
    if database.max_lifetime.is_none() {
        database.max_lifetime = Some(10);
    }
}

/// The name of the configuration file looked for in a directory and its ancestors.
pub open spec fn config_file_name() -> Seq<char> {
    "settlers.toml"@
}

/// The directory that contains `d` (`/`-separated, without a trailing separator): what stands
/// before its last `/`, the root for a child of the root, and the empty path for a bare name.
/// The root and the empty path have none.
pub open spec fn spec_parent(d: Seq<char>) -> Option<Seq<char>> {
    if d.len() == 0 || d == "/"@ {
        None
    } else if exists|i: int| is_last(d, '/', i) {
        let i = choose|i: int| is_last(d, '/', i);
        if i == 0 {
            Some("/"@)
        } else {
            Some(d.subrange(0, i))
        }
    } else {
        Some(Seq::empty())
    }
}

/// `name` within directory `d`.
pub open spec fn spec_join(d: Seq<char>, name: Seq<char>) -> Seq<char> {
    if d.len() == 0 {
        name
    } else if d.last() == '/' {
        d + name
    } else {
        d + "/"@ + name
    }
}

/// The configuration files to look for, nearest first: the one in `d`, then the one in each
/// ancestor of `d` in turn.
pub open spec fn spec_config_candidates(d: Seq<char>) -> Seq<Seq<char>>
    decreases d.len(),
{
    let here = seq![spec_join(d, config_file_name())];
    match spec_parent(d) {
        Some(p) => if p.len() < d.len() {
            here + spec_config_candidates(p)
        } else {
            here
        },
        None => here,
    }
}

/// `name` within directory `d`.
pub fn join_path(d: &str, name: &str) -> (r: String)
    ensures
        r@ == spec_join(d@, name@),
{
    let n = d.unicode_len();
    if n == 0 {
        String::from_str(name)
    } else if d.get_char(n - 1) == '/' {
        String::from_str(d).concat(name)
    } else {
        String::from_str(d).concat("/").concat(name)
    }
}

/// The directory that contains `d`, if any.
pub fn parent_path(d: &str) -> (r: Option<String>)
    ensures
        match r {
            Some(p) => spec_parent(d@) == Some(p@),
            None => spec_parent(d@) is None,
        },
{
    let v = chars_of(d);
    let n = v.len();
    if n == 0 || (n == 1 && v[0] == '/') {
        proof {
            reveal_strlit("/");
            if n == 1 {
                assert(d@ =~= "/"@);
            }
        }
        return None;
    }
    proof {
        reveal_strlit("/");
        assert(d@ != "/"@) by {
            if d@ == "/"@ {
                assert(d@.len() == 1);
            }
        }
    }
    match find_last(&v, '/') {
        Some(i) => {
            proof {
                assert forall|j: int| is_last(d@, '/', j) implies j == i by {
                    if j < i {
                        assert(d@[i as int] != '/');
                    } else if j > i {
                        assert(d@[j] != '/');
                    }
                }
            }
            if i == 0 {
                Some(String::from_str("/"))
            } else {
                Some(String::from_str(d.substring_char(0, i)))
            }
        },
        None => Some(String::new()),
    }
}

/// The configuration files to look for from directory `directory` up to the root, nearest
/// first; the first of them that exists is the one read.
pub fn search_config_current_recurse(directory: &str) -> (r: Vec<String>)
    ensures
        r@.map_values(|s: String| s@) == spec_config_candidates(directory@),
    decreases directory@.len(),
{
    let mut r: Vec<String> = Vec::new();
    r.push(join_path(directory, "settlers.toml"));
    proof {
        assert(r@.map_values(|s: String| s@) =~= seq![spec_join(directory@, config_file_name())]);
    }
    match parent_path(directory) {
        Some(p) => {
            if p.as_str().unicode_len() < directory.unicode_len() {
                let rest = search_config_current_recurse(p.as_str());
                let ghost before = r@;
                let mut rest = rest;
                r.append(&mut rest);
                proof {
                    assert(r@.map_values(|s: String| s@) =~= before.map_values(|s: String| s@)
                        + spec_config_candidates(p@));
                }
            }
            r
        },
        None => r,
    }
}

/// Where a configured path points: itself when absolute, else within the directory `current`.
pub fn prepare_check_path(path: &str, current: &str) -> (r: String)
    ensures
        path@.len() > 0 && path@[0] == '/' ==> r@ == path@,
        !(path@.len() > 0 && path@[0] == '/') ==> r@ == spec_join(current@, path@),
{
    if path.unicode_len() > 0 && path.get_char(0) == '/' {
        String::from_str(path)
    } else {
        join_path(current, path)
    }
}

} // verus!
