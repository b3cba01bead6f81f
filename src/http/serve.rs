use vstd::prelude::*;
use sha1::{Digest, Sha1};
use std::io::Write;
use vstd::utf8::encode_utf8;
use crate::text::{chars_of, str_eq};
use super::helpers::{
    get_ext, get_mime_type, header_value, spec_ext, spec_mime_type, status_response, HeaderName,
    HttpResponse, PreBuiltHeader, Status,
};

verus! {

/// Where the path component that starts at `i` ends: at the next `/`, or at the end.
pub open spec fn segment_end(p: Seq<char>, i: nat) -> nat
    decreases p.len() - i,
{
    if i >= p.len() {
        p.len()
    } else if p[i as int] == '/' {
        i
    } else {
        segment_end(p, i + 1)
    }
}

proof fn lemma_segment_end_bounds(p: Seq<char>, i: nat)
    ensures
        i <= p.len() ==> i <= segment_end(p, i) <= p.len(),
        i > p.len() ==> segment_end(p, i) == p.len(),
    decreases p.len() - i,
{
    if i < p.len() && p[i as int] != '/' {
        lemma_segment_end_bounds(p, i + 1);
    }
}

proof fn lemma_segment_end_at(p: Seq<char>, i: nat, j: nat)
    requires
        i <= j <= p.len(),
        j == p.len() || p[j as int] == '/',
        forall|k: int| i <= k < j ==> p[k] != '/',
    ensures
        segment_end(p, i) == j,
    decreases j - i,
{
    if i < j {
        lemma_segment_end_at(p, i + 1, j);
    }
}

#[via_fn]
proof fn components_from_decreases(p: Seq<char>, i: nat) {
    if i < p.len() {
        lemma_segment_end_bounds(p, i);
    }
}

/// The ordinary components of `p` from position `i` on: empty components and `.` are dropped;
/// `None` when one of them is `..`.
pub open spec fn components_from(p: Seq<char>, i: nat) -> Option<Seq<Seq<char>>>
    decreases p.len() - i,
    via components_from_decreases
{
    if i >= p.len() {
        Some(Seq::empty())
    } else {
        let j = segment_end(p, i);
        let seg = p.subrange(i as int, j as int);
        if seg == ".."@ {
            None
        } else {
            let rest = if j >= p.len() {
                Some(Seq::empty())
            } else {
                components_from(p, j + 1)
            };
            match rest {
                None => None,
                Some(rest) => if seg.len() == 0 || seg == "."@ {
                    Some(rest)
                } else {
                    Some(seq![seg] + rest)
                },
            }
        }
    }
}

/// Components joined by `/`.
pub open spec fn join_components(parts: Seq<Seq<char>>) -> Seq<char>
    decreases parts.len(),
{
    if parts.len() == 0 {
        Seq::empty()
    } else if parts.len() == 1 {
        parts[0]
    } else {
        parts[0] + "/"@ + join_components(parts.drop_first())
    }
}

/// The key under which a requested resource path is looked up: its ordinary components joined
/// by `/`. `None` for a path anchored at the root, one that starts with `.` as its own
/// component, or one with a `..` component.
pub open spec fn spec_normalize(p: Seq<char>) -> Option<Seq<char>> {
    if p.len() > 0 && p[0] == '/' {
        None
    } else if p.subrange(0, segment_end(p, 0) as int) == "."@ {
        None
    } else {
        match components_from(p, 0) {
            None => None,
            Some(parts) => Some(join_components(parts)),
        }
    }
}

/// The end of the component of `p` that starts at `i`.
fn find_segment_end(p: &Vec<char>, i: usize) -> (r: usize)
    requires
        i <= p@.len(),
    ensures
        r == segment_end(p@, i as nat),
        i <= r <= p@.len(),
{
    let mut j = i;
    while j < p.len() && p[j] != '/'
        invariant
            i <= j <= p@.len(),
            forall|k: int| i <= k < j ==> p@[k] != '/',
        decreases p@.len() - j,
    {
        j = j + 1;
    }
    proof {
        lemma_segment_end_at(p@, i as nat, j as nat);
    }
    j
}

/// The ordinary components of `path` from position `i` on, joined by `/`.
fn normalize_from(path: &str, p: &Vec<char>, i: usize) -> (r: Option<String>)
    requires
        p@ == path@,
        i <= p@.len(),
    ensures
        match r {
            Some(s) => components_from(p@, i as nat) matches Some(parts) && s@ == join_components(
                parts,
            ),
            None => components_from(p@, i as nat) is None,
        },
    decreases p@.len() - i,
{
    let n = p.len();
    if i >= n {
        return Some(String::new());
    }
    let j = find_segment_end(p, i);
    let seg = path.substring_char(i, j);
    if str_eq(seg, "..") {
        return None;
    }
    let rest = if j >= n {
        String::new()
    } else {
        match normalize_from(path, p, j + 1) {
            None => return None,
            Some(rest) => rest,
        }
    };
    proof {
        reveal_strlit("..");
        reveal_strlit(".");
        reveal_strlit("/");
    }
    let ghost parts = if j >= n {
        Seq::<Seq<char>>::empty()
    } else {
        components_from(p@, (j + 1) as nat)->0
    };
    if seg.unicode_len() == 0 || str_eq(seg, ".") {
        Some(rest)
    } else if rest.as_str().unicode_len() == 0 {
        proof {
            if parts.len() > 0 {
                lemma_components_nonempty(p@, (j + 1) as nat);
                lemma_join_nonempty(parts);
            }
            assert(seq![seg@] + parts =~= seq![seg@]);
        }
        Some(String::from_str(seg))
    } else {
        proof {
            lemma_join_empty(parts);
            let all = seq![seg@] + parts;
            assert(all.drop_first() =~= parts);
        }
        Some(String::from_str(seg).concat("/").concat(rest.as_str()))
    }
}

proof fn lemma_join_nonempty(parts: Seq<Seq<char>>)
    requires
        parts.len() > 0,
        forall|k: int| 0 <= k < parts.len() ==> (#[trigger] parts[k]).len() > 0,
    ensures
        join_components(parts).len() > 0,
    decreases parts.len(),
{
    if parts.len() > 1 {
        lemma_join_nonempty(parts.drop_first());
    }
}

proof fn lemma_components_nonempty(p: Seq<char>, i: nat)
    ensures
        components_from(p, i) matches Some(parts) ==> forall|k: int|
            0 <= k < parts.len() ==> (#[trigger] parts[k]).len() > 0,
    decreases p.len() - i,
{
    if i < p.len() {
        lemma_segment_end_bounds(p, i);
        let j = segment_end(p, i);
        if j < p.len() {
            lemma_components_nonempty(p, j + 1);
        }
        let seg = p.subrange(i as int, j as int);
        if let Some(parts) = components_from(p, i) {
            if seg.len() != 0 && seg != "."@ && j < p.len() {
                let rest = components_from(p, j + 1)->0;
                assert(parts == seq![seg] + rest);
                assert forall|k: int| 0 <= k < parts.len() implies (#[trigger] parts[k]).len() > 0 by {
                    if k > 0 {
                        assert(parts[k] == rest[k - 1]);
                    }
                }
            }
        }
    }
}

proof fn lemma_join_empty(parts: Seq<Seq<char>>)
    ensures
        parts.len() == 0 ==> join_components(parts).len() == 0,
{
}

/// The lookup key for a requested resource path; `None` when the path has a root, current
/// directory or parent directory component, which is answered with "not found".
pub fn normalize(path: &str) -> (r: Option<String>)
    ensures
        match r {
            Some(key) => spec_normalize(path@) == Some(key@),
            None => spec_normalize(path@) is None,
        },
{
    let p = chars_of(path);
    let n = p.len();
    if n > 0 && p[0] == '/' {
        return None;
    }
    let first_end = find_segment_end(&p, 0);
    if str_eq(path.substring_char(0, first_end), ".") {
        return None;
    }
    normalize_from(path, &p, 0)
}

/// Extensions whose content is already compressed and is stored as it is.
pub open spec fn spec_gzip_blacklisted(ext: Seq<char>) -> bool {
    ext == "woff2"@
}

/// One cached resource: media type, validation token, body, and whether the body is gzip data.
pub struct ResourceCache {
    pub mime_type: String,
    pub etag: String,
    pub is_gzipped: bool,
    pub body: Vec<u8>,
}

/// The digits of hexadecimal notation, lower case.
pub open spec fn hex_digit(n: int) -> char {
    if n < 10 {
        ('0' as int + n) as char
    } else {
        ('a' as int + n - 10) as char
    }
}

/// Two lowercase hexadecimal digits for each byte, in order.
pub open spec fn spec_hex(b: Seq<u8>) -> Seq<char> {
    Seq::new(
        2 * b.len(),
        |i: int|
            if i % 2 == 0 {
                hex_digit(b[i / 2] as int / 16)
            } else {
                hex_digit(b[i / 2] as int % 16)
            },
    )
}

/// The validation token for a content digest: its hexadecimal notation in double quotes.
pub open spec fn spec_etag(digest: Seq<u8>) -> Seq<char> {
    "\""@ + spec_hex(digest) + "\""@
}

/// The SHA-1 digest of `data`.
pub uninterp spec fn sha1_of(data: Seq<u8>) -> Seq<u8>;

/// The gzip stream, at the best compression level, of `data`.
pub uninterp spec fn gzip_of(data: Seq<u8>) -> Seq<u8>;

/// Relies on sha1's `Sha1::digest`: the SHA-1 digest of `data`, 20 bytes long.
#[verifier::external_body]
fn sha1_digest(data: &[u8]) -> (r: Vec<u8>)
    ensures
        r@ == sha1_of(data@),
        r@.len() == 20,
{
    Sha1::digest(data).to_vec()
}

/// Relies on `hex::encode`: two lowercase hexadecimal digits for each byte.
#[verifier::external_body]
fn hex_encode(data: &[u8]) -> (r: String)
    ensures
        r@ == spec_hex(data@),
{
    hex::encode(data)
}

/// Relies on flate2's `GzEncoder` (`new`, `write_all`, `finish`) writing into a `Vec`, a sink
/// that never fails: the gzip stream of `data` at the best level.
#[verifier::external_body]
fn gzip_best(data: &[u8]) -> (r: Vec<u8>)
    ensures
        r@ == gzip_of(data@),
{
    let mut encoder = flate2::write::GzEncoder::new(Vec::new(), flate2::Compression::best());
    match encoder.write_all(data) {
        Ok(()) => encoder.finish().unwrap_or_default(),
        Err(_) => Vec::new(),
    }
}

/// The validation token for a content digest: the digest in hexadecimal, in double quotes.
pub fn etag_of_digest(digest: &[u8]) -> (r: String)
    ensures
        r@ == spec_etag(digest@),
{
    let hex = hex_encode(digest);
    String::from_str("\"").concat(hex.as_str()).concat("\"")
}

/// Builds the cache entry for the file at `path` (relative to the resource root) with content
/// `content`: the media type by extension, the validation token from the SHA-1 digest of the raw
/// content, and the body gzip-compressed unless its format is compressed already.
pub fn build_resource_cache(path: &str, content: Vec<u8>) -> (r: ResourceCache)
    ensures
        is_entry_for(r, path@, content@),
{
    let digest = sha1_digest(content.as_slice());
    let etag = etag_of_digest(digest.as_slice());
    let mime_type = get_mime_type(path);
    if str_eq(get_ext(path), "woff2") {
        return ResourceCache { mime_type, etag, is_gzipped: false, body: content };
    }
    let body = gzip_best(content.as_slice());
    ResourceCache { mime_type, etag, is_gzipped: true, body }
}

/// `e` is the cache entry for a file at `path` with content `content`, as `build_resource_cache`
/// makes it.
pub open spec fn is_entry_for(e: ResourceCache, path: Seq<char>, content: Seq<u8>) -> bool {
    &&& e.mime_type@ == spec_mime_type(spec_ext(path))
    &&& e.etag@ == spec_etag(sha1_of(content))
    &&& e.is_gzipped == !spec_gzip_blacklisted(spec_ext(path))
    &&& e.body@ == if e.is_gzipped {
        gzip_of(content)
    } else {
        content
    }
}

/// The answer for a found resource, given the validation token that the client presented.
pub open spec fn spec_resource_response(e: ResourceCache, client_etag: Option<Seq<char>>) -> (
    Status,
    Seq<(HeaderName, Seq<char>)>,
    Seq<u8>,
) {
    if client_etag == Some(e.etag@) {
        (Status::NotModified, Seq::empty(), Seq::empty())
    } else {
        let base = seq![(HeaderName::ContentType, e.mime_type@), (HeaderName::ETag, e.etag@)];
        let headers = if e.is_gzipped {
            base.push((HeaderName::ContentEncoding, PreBuiltHeader::Gzip.spec_value()))
        } else {
            base
        };
        (Status::Success, headers, e.body@)
    }
}

/// The plain text answer for `code`, as plain values.
pub open spec fn spec_status_parts(code: Status) -> (Status, Seq<(HeaderName, Seq<char>)>, Seq<u8>) {
    (
        code,
        seq![(HeaderName::ContentType, PreBuiltHeader::TextPlain.spec_value())],
        encode_utf8(code.spec_reason()),
    )
}

/// The table of cached resources, keyed by path relative to the resource root.
pub struct ResourceTable {
    entries: Vec<(String, ResourceCache)>,
}

impl ResourceTable {
    /// No two entries share a key.
    pub closed spec fn wf(&self) -> bool {
        forall|i: int, j: int|
            0 <= i < self.entries@.len() && 0 <= j < self.entries@.len() && i != j
                ==> (#[trigger] self.entries@[i]).0@ != (#[trigger] self.entries@[j]).0@
    }

    /// Whether an entry has key `k`.
    pub closed spec fn contains(&self, k: Seq<char>) -> bool {
        exists|i: int| 0 <= i < self.entries@.len() && (#[trigger] self.entries@[i]).0@ == k
    }

    /// The entry under key `k`, if any.
    pub closed spec fn lookup(&self, k: Seq<char>) -> Option<ResourceCache> {
        if self.contains(k) {
            let i = choose|i: int| 0 <= i < self.entries@.len() && (#[trigger] self.entries@[i]).0@ == k;
            Some(self.entries@[i].1)
        } else {
            None
        }
    }

    /// The keys of the table.
    pub closed spec fn keys(&self) -> Set<Seq<char>> {
        Set::new(|k: Seq<char>| self.contains(k))
    }

    /// The answer to a request for `path` from a client that presented `client_etag`.
    pub open spec fn spec_serve(&self, path: Seq<char>, client_etag: Option<Seq<char>>) -> (
        Status,
        Seq<(HeaderName, Seq<char>)>,
        Seq<u8>,
    ) {
        match spec_normalize(path) {
            None => spec_status_parts(Status::NotFound),
            Some(key) => match self.lookup(key) {
                None => spec_status_parts(Status::NotFound),
                Some(e) => spec_resource_response(e, client_etag),
            },
        }
    }

    /// An empty table.
    pub fn new() -> (r: ResourceTable)
        ensures
            r.wf(),
            r.keys() == Set::<Seq<char>>::empty(),
    {
        let r = ResourceTable { entries: Vec::new() };
        assert(r.keys() =~= Set::<Seq<char>>::empty());
        r
    }

    /// Builds the table from files given as (path relative to the resource root, content): one
    /// entry per path, made from the last file given with that path.
    pub fn from_files(files: Vec<(String, Vec<u8>)>) -> (r: ResourceTable)
        ensures
            r.wf(),
            forall|k: Seq<char>|
                #[trigger] r.keys().contains(k) <==> exists|i: int|
                    0 <= i < files@.len() && (#[trigger] files@[i]).0@ == k,
            forall|i: int|
                #![trigger files@[i]]
                0 <= i < files@.len() && (forall|j: int|
                    i < j < files@.len() ==> (#[trigger] files@[j]).0@ != files@[i].0@)
                    ==> (r.lookup(files@[i].0@) matches Some(e) && is_entry_for(
                    e,
                    files@[i].0@,
                    files@[i].1@,
                )),
    {
        let ghost all = files@;
        let mut files = files;
        let mut table = ResourceTable::new();
        while files.len() > 0
            invariant
                table.wf(),
                files@.len() <= all.len(),
                files@ == all.subrange(0, files@.len() as int),
                forall|k: Seq<char>|
                    #[trigger] table.keys().contains(k) <==> exists|i: int|
                        files@.len() <= i < all.len() && (#[trigger] all[i]).0@ == k,
                forall|i: int|
                    #![trigger all[i]]
                    files@.len() <= i < all.len() && (forall|j: int|
                        i < j < all.len() ==> (#[trigger] all[j]).0@ != all[i].0@)
                        ==> (table.lookup(all[i].0@) matches Some(e) && is_entry_for(
                        e,
                        all[i].0@,
                        all[i].1@,
                    )),
            decreases files@.len(),
        {
            let ghost n = files@.len() - 1;
            assert(files@[n] == all[n]);
            let (path, content) = files.pop().unwrap();
            assert(all[n] == (path, content));
            let known = match table.position(path.as_str()) {
                Some(_) => true,
                None => false,
            };
            if !known {
                let entry = build_resource_cache(path.as_str(), content);
                let ghost before = table;
                table.insert(path, entry);
                proof {
                    assert forall|k: Seq<char>| #[trigger] table.keys().contains(k) <==> exists|i: int|
                        n <= i < all.len() && (#[trigger] all[i]).0@ == k by {
                        if k == all[n].0@ {
                            assert(all[n].0@ == k);
                        } else {
                            assert(table.keys().contains(k) <==> before.keys().contains(k));
                            if exists|i: int| n <= i < all.len() && (#[trigger] all[i]).0@ == k {
                                let i = choose|i: int| n <= i < all.len() && (#[trigger] all[i]).0@ == k;
                                assert(i != n);
                                assert(before.keys().contains(k));
                            }
                            if before.keys().contains(k) {
                                let i = choose|i: int| n + 1 <= i < all.len() && (#[trigger] all[i]).0@ == k;
                                assert(n <= i < all.len() && all[i].0@ == k);
                            }
                        }
                    }
                    assert forall|i: int|
                        #![trigger all[i]]
                        n <= i < all.len() && (forall|j: int|
                            i < j < all.len() ==> (#[trigger] all[j]).0@ != all[i].0@)
                            implies (table.lookup(all[i].0@) matches Some(e) && is_entry_for(
                            e,
                            all[i].0@,
                            all[i].1@,
                        )) by {
                        if i != n {
                            assert(all[n].0@ != all[i].0@);
                        }
                    }
                }
            } else {
                proof {
                    assert(table.keys().contains(all[n].0@));
                    assert forall|k: Seq<char>| #[trigger] table.keys().contains(k) <==> exists|i: int|
                        n <= i < all.len() && (#[trigger] all[i]).0@ == k by {
                        if exists|i: int| n <= i < all.len() && (#[trigger] all[i]).0@ == k {
                            let i = choose|i: int| n <= i < all.len() && (#[trigger] all[i]).0@ == k;
                            if i == n {
                                assert(table.keys().contains(all[n].0@));
                            }
                        }
                    }
                    assert forall|i: int|
                        #![trigger all[i]]
                        n <= i < all.len() && (forall|j: int|
                            i < j < all.len() ==> (#[trigger] all[j]).0@ != all[i].0@)
                            implies (table.lookup(all[i].0@) matches Some(e) && is_entry_for(
                            e,
                            all[i].0@,
                            all[i].1@,
                        )) by {
                        if i == n {
                            let w = choose|w: int| files@.len() + 1 <= w < all.len() && (#[trigger] all[w]).0@ == all[n].0@;
                            assert(all[w].0@ == all[n].0@);
                        }
                    }
                }
            }
        }
        proof {
            assert(all.subrange(0, 0) =~= files@);
        }
        table
    }

    /// The number of entries.
    pub fn len(&self) -> (r: usize)
        requires
            self.wf(),
        ensures
            r == self.keys().len(),
    {
        proof {
            self.lemma_keys_len();
        }
        self.entries.len()
    }

    proof fn lemma_keys_len(&self)
        requires
            self.wf(),
        ensures
            self.keys().finite(),
            self.keys().len() == self.entries@.len(),
    {
        let ks = self.entries@.map_values(|e: (String, ResourceCache)| e.0@);
        assert forall|k: Seq<char>| self.keys().contains(k) <==> ks.to_set().contains(k) by {
            if self.contains(k) {
                let i = choose|i: int| 0 <= i < self.entries@.len() && (#[trigger] self.entries@[i]).0@ == k;
                assert(ks[i] == k);
            }
            if ks.contains(k) {
                let i = choose|i: int| 0 <= i < ks.len() && ks[i] == k;
                assert(self.entries@[i].0@ == k);
            }
        }
        assert(self.keys() =~= ks.to_set());
        assert forall|i: int, j: int| 0 <= i < ks.len() && 0 <= j < ks.len() && i != j implies ks[i] != ks[j] by {
            assert(self.entries@[i].0@ != self.entries@[j].0@);
        }
        assert(ks.no_duplicates());
        ks.unique_seq_to_set();
    }

    /// The position of the entry with key `key`, if any.
    fn position(&self, key: &str) -> (r: Option<usize>)
        requires
            self.wf(),
        ensures
            match r {
                Some(i) => i < self.entries@.len() && self.entries@[i as int].0@ == key@
                    && self.lookup(key@) == Some(self.entries@[i as int].1),
                None => !self.contains(key@) && self.lookup(key@) is None,
            },
    {
        let mut i: usize = 0;
        while i < self.entries.len()
            invariant
                self.wf(),
                i <= self.entries@.len(),
                forall|j: int| 0 <= j < i ==> (#[trigger] self.entries@[j]).0@ != key@,
            decreases self.entries@.len() - i,
        {
            if str_eq(self.entries[i].0.as_str(), key) {
                let ghost k = choose|k: int| 0 <= k < self.entries@.len() && (#[trigger] self.entries@[k]).0@ == key@;
                assert(self.entries@[i as int].0@ == key@);
                assert(k == i) by {
                    if k != i {
                        assert(self.entries@[k].0@ != self.entries@[i as int].0@);
                    }
                }
                return Some(i);
            }
            i = i + 1;
        }
        None
    }

    /// The entry under `key`, if any.
    pub fn get(&self, key: &str) -> (r: Option<&ResourceCache>)
        requires
            self.wf(),
        ensures
            match r {
                Some(e) => self.lookup(key@) == Some(*e),
                None => self.lookup(key@) is None,
            },
    {
        match self.position(key) {
            Some(i) => Some(&self.entries[i].1),
            None => None,
        }
    }

    /// Stores `entry` under `key`, in place of any entry that had that key.
    pub fn insert(&mut self, key: String, entry: ResourceCache)
        requires
            old(self).wf(),
        ensures
            final(self).wf(),
            final(self).keys() == old(self).keys().insert(key@),
            final(self).lookup(key@) == Some(entry),
            forall|k: Seq<char>| k != key@ ==> #[trigger] final(self).lookup(k) == old(self).lookup(k),
    {
        let ghost k0 = key@;
        match self.position(key.as_str()) {
            Some(i) => {
                self.entries.set(i, (key, entry));
                proof {
                    assert forall|k: Seq<char>| k != k0 implies #[trigger] self.contains(k) == old(self).contains(k) by {
                        if self.contains(k) {
                            let m = choose|m: int| 0 <= m < self.entries@.len() && (#[trigger] self.entries@[m]).0@ == k;
                            assert(old(self).entries@[m].0@ == k);
                        }
                        if old(self).contains(k) {
                            let m = choose|m: int| 0 <= m < old(self).entries@.len() && (#[trigger] old(self).entries@[m]).0@ == k;
                            assert(self.entries@[m].0@ == k);
                        }
                    }
                    assert(self.contains(k0)) by {
                        assert(self.entries@[i as int].0@ == k0);
                    }
                    assert(self.keys() =~= old(self).keys().insert(k0));
                    let c = choose|m: int| 0 <= m < self.entries@.len() && (#[trigger] self.entries@[m]).0@ == k0;
                    assert(c == i) by {
                        if c != i {
                            assert(self.entries@[c].0@ != self.entries@[i as int].0@);
                        }
                    }
                    assert forall|k: Seq<char>| k != k0 implies #[trigger] self.lookup(k) == old(self).lookup(k) by {
                        if self.contains(k) {
                            let a = choose|m: int| 0 <= m < self.entries@.len() && (#[trigger] self.entries@[m]).0@ == k;
                            let b = choose|m: int| 0 <= m < old(self).entries@.len() && (#[trigger] old(self).entries@[m]).0@ == k;
                            assert(a == b) by {
                                if a != b {
                                    assert(old(self).entries@[a].0@ != old(self).entries@[b].0@);
                                }
                            }
                        }
                    }
                }
            },
            None => {
                self.entries.push((key, entry));
                proof {
                    let n = old(self).entries@.len() as int;
                    assert forall|k: Seq<char>| k != k0 implies #[trigger] self.contains(k) == old(self).contains(k) by {
                        if self.contains(k) {
                            let m = choose|m: int| 0 <= m < self.entries@.len() && (#[trigger] self.entries@[m]).0@ == k;
                            assert(m != n);
                            assert(old(self).entries@[m].0@ == k);
                        }
                        if old(self).contains(k) {
                            let m = choose|m: int| 0 <= m < old(self).entries@.len() && (#[trigger] old(self).entries@[m]).0@ == k;
                            assert(self.entries@[m].0@ == k);
                        }
                    }
                    assert(self.entries@[n].0@ == k0);
                    assert(self.keys() =~= old(self).keys().insert(k0));
                    let c = choose|m: int| 0 <= m < self.entries@.len() && (#[trigger] self.entries@[m]).0@ == k0;
                    assert(c == n) by {
                        if c != n {
                            assert(old(self).entries@[c].0@ == k0);
                        }
                    }
                    assert forall|k: Seq<char>| k != k0 implies #[trigger] self.lookup(k) == old(self).lookup(k) by {
                        if self.contains(k) {
                            let a = choose|m: int| 0 <= m < self.entries@.len() && (#[trigger] self.entries@[m]).0@ == k;
                            let b = choose|m: int| 0 <= m < old(self).entries@.len() && (#[trigger] old(self).entries@[m]).0@ == k;
                            assert(a != n);
                            assert(a == b) by {
                                if a != b {
                                    assert(old(self).entries@[a].0@ != old(self).entries@[b].0@);
                                }
                            }
                        }
                    }
                }
            },
        }
    }

    /// The answer for the resource under `key`: "not modified" with nothing else when the client
    /// already holds its validation token, else its body with media type, validation token and
    /// encoding; "not found" when there is no such resource.
    pub fn get_response_data(&self, key: &str, client_etag: Option<&str>) -> (r: HttpResponse)
        requires
            self.wf(),
        ensures
            r.parts() == match self.lookup(key@) {
                None => spec_status_parts(Status::NotFound),
                Some(e) => spec_resource_response(
                    e,
                    match client_etag {
                        Some(t) => Some(t@),
                        None => None,
                    },
                ),
            },
    {
        let e = match self.get(key) {
            Some(e) => e,
            None => return status_response(Status::NotFound),
        };
        if let Some(t) = client_etag {
            if str_eq(t, e.etag.as_str()) {
                let r = HttpResponse { status: Status::NotModified, headers: Vec::new(), body: Vec::new() };
                assert(r.header_list() =~= Seq::empty());
                return r;
            }
        }
        let mut headers: Vec<(HeaderName, String)> = Vec::new();
        headers.push((HeaderName::ContentType, e.mime_type.clone()));
        headers.push((HeaderName::ETag, e.etag.clone()));
        if e.is_gzipped {
            headers.push((HeaderName::ContentEncoding, header_value(PreBuiltHeader::Gzip)));
        }
        let r = HttpResponse { status: Status::Success, headers, body: e.body.clone() };
        assert(r.header_list() =~= spec_resource_response(
            *e,
            match client_etag {
                Some(t) => Some(t@),
                None => None,
            },
        ).1);
        r
    }

    /// The answer to a request for the resource at `path` from a client that presented
    /// `client_etag`. A path with a root, current directory or parent directory component is
    /// "not found" whatever the table holds.
    pub fn serve(&self, path: &str, client_etag: Option<&str>) -> (r: HttpResponse)
        requires
            self.wf(),
        ensures
            r.parts() == self.spec_serve(
                path@,
                match client_etag {
                    Some(t) => Some(t@),
                    None => None,
                },
            ),
    {
        match normalize(path) {
            None => status_response(Status::NotFound),
            Some(key) => self.get_response_data(key.as_str(), client_etag),
        }
    }
}

/// `p` has `..` as a whole component.
pub open spec fn has_parent_component(p: Seq<char>) -> bool {
    exists|i: int, j: int|
        0 <= i <= j <= p.len() && (i == 0 || p[i - 1] == '/') && (j == p.len() || p[j] == '/')
            && #[trigger] p.subrange(i, j) == ".."@
}

proof fn lemma_segment_end_before(p: Seq<char>, s: nat, k: nat)
    requires
        s <= k < p.len(),
        p[k as int] == '/',
    ensures
        segment_end(p, s) <= k,
    decreases k - s,
{
    if s < k && p[s as int] != '/' {
        lemma_segment_end_before(p, s + 1, k);
    }
}

proof fn lemma_parent_component_refused(p: Seq<char>, s: nat, i: nat)
    requires
        s <= i,
        i + 2 <= p.len(),
        i == 0 || p[i - 1] == '/',
        i + 2 == p.len() || p[i + 2 as int] == '/',
        p.subrange(i as int, i + 2 as int) == ".."@,
    ensures
        components_from(p, s) is None,
    decreases i - s,
{
    reveal_strlit("..");
    let k = i as int;
    assert(p[k] == p.subrange(k, k + 2)[0]);
    assert(p[k + 1] == p.subrange(k, k + 2)[1]);
    lemma_segment_end_bounds(p, s);
    if s == i {
        lemma_segment_end_at(p, i, (i + 2) as nat);
    } else {
        lemma_segment_end_before(p, s, (i - 1) as nat);
        let e = segment_end(p, s);
        if p.subrange(s as int, e as int) != ".."@ {
            lemma_parent_component_refused(p, e + 1, i);
        }
    }
}

/// A requested path anchored at the root, or with a `..` component, is answered "not found",
/// whatever the table holds and whatever token the client presents.
pub proof fn lemma_traversal_rejected(table: &ResourceTable, path: Seq<char>, client_etag: Option<Seq<char>>)
    requires
        (path.len() > 0 && path[0] == '/') || has_parent_component(path),
    ensures
        spec_normalize(path) is None,
        table.spec_serve(path, client_etag) == spec_status_parts(Status::NotFound),
{
    if !(path.len() > 0 && path[0] == '/') {
        let (i, j) = choose|i: int, j: int|
            0 <= i <= j <= path.len() && (i == 0 || path[i - 1] == '/') && (j == path.len() || path[j] == '/')
                && #[trigger] path.subrange(i, j) == ".."@;
        reveal_strlit("..");
        assert(".."@.len() == 2);
        assert(path.subrange(i, j).len() == j - i);
        assert(j == i + 2);
        lemma_parent_component_refused(path, 0, i as nat);
    }
}

/// A client that presents the validation token of the resource it asks for is answered "not
/// modified" with no headers and an empty body.
pub proof fn lemma_matching_token_not_modified(table: &ResourceTable, path: Seq<char>, e: ResourceCache)
    requires
        spec_normalize(path) matches Some(key) && table.lookup(key) == Some(e),
    ensures
        table.spec_serve(path, Some(e.etag@)) == (
            Status::NotModified,
            Seq::<(HeaderName, Seq<char>)>::empty(),
            Seq::<u8>::empty(),
        ),
{
}

/// Two lookups of the same path with the same token, on the same table, give identical answers:
/// the same status, the same headers with the same validation token, the same body bytes.
pub proof fn lemma_serve_repeatable(
    table: &ResourceTable,
    path: Seq<char>,
    client_etag: Option<Seq<char>>,
    first: HttpResponse,
    second: HttpResponse,
)
    requires
        first.parts() == table.spec_serve(path, client_etag),
        second.parts() == table.spec_serve(path, client_etag),
    ensures
        first.status == second.status,
        first.header_list() == second.header_list(),
        first.body@ == second.body@,
{
}

} // verus!
