//! What the project remembers between runs: per-file report state and the
//! hashes and keys that tell when a report is stale.
use vstd::prelude::*;
use vstd::string::*;
use crate::order::{text_lt, strictly_sorted};
use crate::settings::{ElementType, Settings};
use crate::text::{join_path, path_joined, push_char, push_str};

verus! {

/// The cached report of one source file.
pub struct FileState {
    pub hash: String,
    pub cache_key: String,
    pub report_path: String,
    pub dsl_path: String,
    pub error: Option<String>,
}

impl Clone for FileState {
    fn clone(&self) -> (r: Self)
        ensures
            r == *self,
    {
        FileState {
            hash: self.hash.clone(),
            cache_key: self.cache_key.clone(),
            report_path: self.report_path.clone(),
            dsl_path: self.dsl_path.clone(),
            error: self.error.clone(),
        }
    }
}

/// The cached project map.
pub struct ProjectReportState {
    pub cache_key: String,
    pub report_path: String,
    pub dsl_path: String,
}

/// The cached flow of one function.
pub struct FunctionState {
    pub cache_key: String,
    pub report_path: String,
    pub dsl_path: String,
}

/// Everything remembered about a project. `files` and `functions` are kept
/// sorted by key, each key once.
pub struct ProjectState {
    pub files: Vec<(String, FileState)>,
    pub project: Option<ProjectReportState>,
    pub functions: Vec<(String, FunctionState)>,
}

impl ProjectState {
    /// Files and functions are each kept in increasing key order, each key once.
    pub open spec fn wf(&self) -> bool {
        strictly_sorted(keys_of(self.files@)) && strictly_sorted(keys_of(self.functions@))
    }
}

impl Default for ProjectState {
    /// The state of a project that remembers nothing yet.
    fn default() -> (s: Self)
        ensures
            s.files@.len() == 0,
            s.project is None,
            s.functions@.len() == 0,
            s.wf(),
    {
        ProjectState { files: Vec::new(), project: None, functions: Vec::new() }
    }
}

/// Where the state of project `root` is stored.
pub fn state_path(root: &str) -> (p: String)
    ensures
        p@ == path_joined(path_joined(root@, ".graphloom"@), "state.json"@),
{
    let dir = join_path(root, ".graphloom");
    join_path(dir.as_str(), "state.json")
}

// ---------------------------------------------------------------------------
// Hashing.

/// The SHA-256 digest of `data`.
pub uninterp spec fn sha256_of(data: Seq<u8>) -> Seq<u8>;

/// `Sha256::digest` of the `sha2` crate. The contract claims that the digest
/// is a function of the data and 32 bytes long; which bytes is SHA-256's.
#[verifier::external_body]
fn sha256_digest(data: &[u8]) -> (r: Vec<u8>)
    ensures
        r@ == sha256_of(data@),
        r@.len() == 32,
{
    <sha2::Sha256 as sha2::Digest>::digest(data).to_vec()
}

pub open spec fn hex_digit(n: u8) -> char {
    if n < 10 { ('0' as u8 + n) as char } else { ('a' as u8 + n - 10) as char }
}

/// Bytes in lower-case hexadecimal, two digits each.
pub open spec fn hex_text(bytes: Seq<u8>) -> Seq<char>
    decreases bytes.len(),
{
    if bytes.len() == 0 {
        seq![]
    } else {
        hex_text(bytes.drop_last()) + seq![hex_digit(bytes.last() / 16), hex_digit(bytes.last() % 16)]
    }
}

fn hex_digit_of(n: u8) -> (c: char)
    requires
        n < 16,
    ensures
        c == hex_digit(n),
{
    if n < 10 {
        ((48u8 + n) as char)
    } else {
        ((97u8 + n - 10) as char)
    }
}

/// Writes bytes in lower-case hexadecimal.
pub fn to_hex(bytes: &[u8]) -> (s: String)
    ensures
        s@ == hex_text(bytes@),
{
    let mut s = String::new();
    let mut i: usize = 0;
    while i < bytes.len()
        invariant
            0 <= i <= bytes@.len(),
            s@ == hex_text(bytes@.take(i as int)),
        decreases bytes@.len() - i,
    {
        assert(bytes@.take((i + 1) as int).drop_last() == bytes@.take(i as int));
        let b = bytes[i];
        push_char(&mut s, hex_digit_of(b / 16));
        push_char(&mut s, hex_digit_of(b % 16));
        i = i + 1;
        assert(s@ =~= hex_text(bytes@.take(i as int)));
    }
    assert(bytes@.take(bytes@.len() as int) == bytes@);
    s
}

/// The SHA-256 of some bytes in lower-case hexadecimal.
pub fn hash_bytes(bytes: &[u8]) -> (s: String)
    ensures
        s@ == hex_text(sha256_of(bytes@)),
{
    let digest = sha256_digest(bytes);
    to_hex(digest.as_slice())
}

// ---------------------------------------------------------------------------
// JSON text.

/// A text as a JSON string literal, quotes included.
pub uninterp spec fn json_quoted(s: Seq<char>) -> Seq<char>;

/// `serde_json::to_string` on a string slice: the text as a JSON string
/// literal. The contract claims only that the literal is a function of the
/// text; which escapes it uses is serde_json's. Serializing a `str` into
/// memory does not fail.
#[verifier::external_body]
fn quote_json(s: &str) -> (r: String)
    ensures
        r@ == json_quoted(s@),
{
    serde_json::to_string(s).unwrap_or_default()
}

fn push_json_string(out: &mut String, s: &str)
    ensures
        final(out)@ == old(out)@ + json_quoted(s@),
{
    let q = quote_json(s);
    push_str(out, q.as_str());
}

/// An element type as a JSON object with sorted keys.
pub open spec fn element_json(e: ElementType) -> Seq<char> {
    "{\"color\":"@ + json_quoted(e.color@) + ",\"description\":"@ + json_quoted(e.description@)
        + ",\"icon\":"@ + json_quoted(e.icon@) + ",\"label\":"@ + json_quoted(e.label@) + ",\"type\":"@
        + json_quoted(e.kind@) + "}"@
}

pub open spec fn elements_json(p: Seq<ElementType>) -> Seq<char>
    decreases p.len(),
{
    if p.len() == 0 {
        seq![]
    } else if p.len() == 1 {
        element_json(p[0])
    } else {
        elements_json(p.drop_last()) + ","@ + element_json(p.last())
    }
}

/// The cache payload: prompt version, endpoint and palette, as compact JSON
/// with sorted keys.
pub open spec fn cache_payload(s: Settings) -> Seq<char> {
    "{\"base_url\":"@ + json_quoted(s.endpoint.base_url@) + ",\"model\":"@ + json_quoted(s.endpoint.model@)
        + ",\"palette\":["@ + elements_json(s.palette@) + "],\"prompt_version\":"@ + json_quoted("file-map-v2"@) + "}"@
}

fn push_element_json(out: &mut String, e: &ElementType)
    ensures
        final(out)@ == old(out)@ + element_json(*e),
{
    push_str(out, "{\"color\":");
    push_json_string(out, e.color.as_str());
    push_str(out, ",\"description\":");
    push_json_string(out, e.description.as_str());
    push_str(out, ",\"icon\":");
    push_json_string(out, e.icon.as_str());
    push_str(out, ",\"label\":");
    push_json_string(out, e.label.as_str());
    push_str(out, ",\"type\":");
    push_json_string(out, e.kind.as_str());
    push_str(out, "}");
    assert(final(out)@ =~= old(out)@ + element_json(*e));
}

/// The text whose hash keys every cached report: the prompt version, the
/// model, the endpoint's base URL and the palette, as compact JSON with keys
/// in order.
pub fn cache_payload_text(settings: &Settings) -> (out: String)
    ensures
        out@ == cache_payload(*settings),
{
    let mut out = String::from_str("{\"base_url\":");
    push_json_string(&mut out, settings.endpoint.base_url.as_str());
    push_str(&mut out, ",\"model\":");
    push_json_string(&mut out, settings.endpoint.model.as_str());
    push_str(&mut out, ",\"palette\":[");
    let ghost head = out@;
    let p = &settings.palette;
    let mut i: usize = 0;
    while i < p.len()
        invariant
            0 <= i <= p@.len(),
            p == &settings.palette,
            out@ == head + elements_json(p@.take(i as int)),
        decreases p@.len() - i,
    {
        assert(p@.take((i + 1) as int).drop_last() == p@.take(i as int));
        if i > 0 {
            push_str(&mut out, ",");
        }
        push_element_json(&mut out, &p[i]);
        i = i + 1;
        assert(out@ =~= head + elements_json(p@.take(i as int)));
    }
    assert(p@.take(p@.len() as int) == p@);
    push_str(&mut out, "],\"prompt_version\":");
    push_json_string(&mut out, "file-map-v2");
    push_str(&mut out, "}");
    assert(out@ =~= cache_payload(*settings));
    out
}

/// The key that cached reports were made with.
pub open spec fn cache_key_text(s: Settings) -> Seq<char> {
    hex_text(sha256_of(vstd::utf8::encode_utf8(cache_payload(s))))
}

/// The hash of the settings that reports depend on.
pub fn cache_key(settings: &Settings) -> (k: String)
    ensures
        k@ == cache_key_text(*settings),
{
    let payload = cache_payload_text(settings);
    hash_bytes(payload.as_str().as_bytes())
}


// ---------------------------------------------------------------------------
// Keyed entries, sorted by key like a `BTreeMap`.

pub open spec fn keys_of<V>(e: Seq<(String, V)>) -> Seq<Seq<char>> {
    e.map_values(|x: (String, V)| x.0@)
}

/// How many entries have a key before `k`.
pub open spec fn lower_bound<V>(e: Seq<(String, V)>, k: Seq<char>) -> int
    decreases e.len(),
{
    if e.len() == 0 {
        0
    } else {
        lower_bound(e.drop_last(), k) + if text_lt(e.last().0@, k) { 1int } else { 0int }
    }
}

/// The entries after setting key `k` to `v`: the entry with that key is
/// replaced, or a new one goes where the order puts it.
pub open spec fn map_inserted<V>(e: Seq<(String, V)>, k: String, v: V) -> Seq<(String, V)> {
    let p = lower_bound(e, k@);
    if p < e.len() && e[p].0@ == k@ {
        e.update(p, (k, v))
    } else {
        e.take(p) + seq![(k, v)] + e.skip(p)
    }
}

/// An entry has key `k`.
pub open spec fn has_key<V>(k: Seq<char>) -> spec_fn((String, V)) -> bool {
    |x: (String, V)| x.0@ == k
}

/// The value stored under key `k`.
pub open spec fn map_get<V>(e: Seq<(String, V)>, k: Seq<char>) -> Option<V> {
    match crate::order::first_match(e, has_key::<V>(k)) {
        Some(i) => Some(e[i].1),
        None => None,
    }
}

proof fn lemma_lower_bound_range<V>(e: Seq<(String, V)>, k: Seq<char>)
    ensures
        0 <= lower_bound(e, k) <= e.len(),
    decreases e.len(),
{
    if e.len() > 0 {
        lemma_lower_bound_range(e.drop_last(), k);
    }
}

/// With keys in increasing order, the entries before `lower_bound` are
/// exactly those with a key before `k`.
proof fn lemma_lower_bound_split<V>(e: Seq<(String, V)>, k: Seq<char>)
    requires
        strictly_sorted(keys_of(e)),
    ensures
        0 <= lower_bound(e, k) <= e.len(),
        forall|i: int| 0 <= i < lower_bound(e, k) ==> text_lt(#[trigger] e[i].0@, k),
        forall|i: int| lower_bound(e, k) <= i < e.len() ==> !text_lt(#[trigger] e[i].0@, k),
    decreases e.len(),
{
    if e.len() > 0 {
        let d = e.drop_last();
        assert(strictly_sorted(keys_of(d))) by {
            assert forall|i: int, j: int| 0 <= i < j < keys_of(d).len() implies text_lt(keys_of(d)[i], keys_of(d)[j]) by {
                assert(keys_of(d)[i] == keys_of(e)[i]);
                assert(keys_of(d)[j] == keys_of(e)[j]);
            }
        }
        lemma_lower_bound_split(d, k);
        let n = e.len() - 1;
        assert forall|i: int| 0 <= i < n implies #[trigger] e[i] == d[i] by {}
        if text_lt(e.last().0@, k) {
            assert forall|i: int| 0 <= i < lower_bound(e, k) implies text_lt(#[trigger] e[i].0@, k) by {
                if i < n {
                    assert(keys_of(e)[i] == e[i].0@);
                    assert(keys_of(e)[n] == e[n].0@);
                    if lower_bound(d, k) <= i {
                        assert(text_lt(e[i].0@, e[n].0@));
                        crate::order::lemma_text_lt_transitive(e[i].0@, e[n].0@, k);
                        assert(text_lt(d[i].0@, k));
                    }
                }
            }
            assert(lower_bound(d, k) == n) by {
                if lower_bound(d, k) < n {
                    let i = lower_bound(d, k);
                    assert(keys_of(e)[i] == e[i].0@);
                    assert(keys_of(e)[n] == e[n].0@);
                    assert(text_lt(e[i].0@, e[n].0@));
                    crate::order::lemma_text_lt_transitive(e[i].0@, e[n].0@, k);
                    assert(text_lt(d[i].0@, k));
                }
            }
        }
    }
}

/// The first entry with key `k` is the one at index `i`, when keys are in
/// increasing order.
proof fn lemma_map_get_at<V>(e: Seq<(String, V)>, k: Seq<char>, i: int)
    requires
        strictly_sorted(keys_of(e)),
        0 <= i < e.len(),
        e[i].0@ == k,
    ensures
        map_get(e, k) == Some(e[i].1),
{
    crate::order::lemma_first_match_spec(e, has_key::<V>(k));
    match crate::order::first_match(e, has_key::<V>(k)) {
        Some(j) => {
            if j < i {
                assert(keys_of(e)[j] == e[j].0@);
                assert(keys_of(e)[i] == e[i].0@);
                assert(text_lt(k, k));
                crate::order::lemma_text_lt_irreflexive(k);
            } else if j > i {
                assert(e[i].0@ != k);
            }
        },
        None => {
            assert(e[i].0@ != k);
        },
    }
}

/// No entry has key `k`.
proof fn lemma_map_get_none<V>(e: Seq<(String, V)>, k: Seq<char>)
    requires
        forall|i: int| 0 <= i < e.len() ==> (#[trigger] e[i]).0@ != k,
    ensures
        map_get(e, k) is None,
{
    crate::order::lemma_first_match_spec(e, has_key::<V>(k));
    if let Some(j) = crate::order::first_match(e, has_key::<V>(k)) {
        assert(e[j].0@ == k);
    }
}

/// Setting a key of entries kept in increasing key order keeps them so;
/// afterwards the key reads back the value just set, and every other key
/// reads what it read before.
pub proof fn law_map_insert_read_back<V>(e: Seq<(String, V)>, k: String, v: V, other: Seq<char>)
    requires
        strictly_sorted(keys_of(e)),
    ensures
        strictly_sorted(keys_of(map_inserted(e, k, v))),
        map_get(map_inserted(e, k, v), k@) == Some(v),
        other != k@ ==> map_get(map_inserted(e, k, v), other) == map_get(e, other),
{
    lemma_lower_bound_split(e, k@);
    let p = lower_bound(e, k@);
    let n = map_inserted(e, k, v);
    if p < e.len() && e[p].0@ == k@ {
        assert(keys_of(n) =~= keys_of(e));
        assert(n[p] == (k, v));
        lemma_map_get_at(n, k@, p);
        if other != k@ {
            if exists|i: int| 0 <= i < e.len() && (#[trigger] e[i]).0@ == other {
                let i = choose|i: int| 0 <= i < e.len() && (#[trigger] e[i]).0@ == other;
                assert(n[i] == e[i]);
                lemma_map_get_at(e, other, i);
                lemma_map_get_at(n, other, i);
            } else {
                assert forall|i: int| 0 <= i < n.len() implies (#[trigger] n[i]).0@ != other by {
                    if i != p {
                        assert(n[i] == e[i]);
                    }
                }
                lemma_map_get_none(n, other);
                lemma_map_get_none(e, other);
            }
        }
    } else {
        // `k` goes in at `p`: every key before it is smaller, every key after it larger.
        assert forall|m: int| p <= m < e.len() implies text_lt(k@, #[trigger] e[m].0@) by {
            crate::order::lemma_text_lt_total(k@, e[m].0@);
            if e[m].0@ == k@ {
                assert(m != p);
                assert(keys_of(e)[p] == e[p].0@);
                assert(keys_of(e)[m] == e[m].0@);
                assert(text_lt(e[p].0@, e[m].0@));
            }
        }
        assert(n.len() == e.len() + 1);
        assert forall|i: int| 0 <= i < n.len() implies #[trigger] n[i] == (if i < p { e[i] } else if i == p { (k, v) } else { e[i - 1] }) by {}
        assert forall|i: int, j: int| 0 <= i < j < keys_of(n).len() implies text_lt(keys_of(n)[i], keys_of(n)[j]) by {
            assert(keys_of(n)[i] == n[i].0@);
            assert(keys_of(n)[j] == n[j].0@);
            if j < p {
                assert(keys_of(e)[i] == e[i].0@);
                assert(keys_of(e)[j] == e[j].0@);
            } else if j == p {
            } else if i < p {
                crate::order::lemma_text_lt_transitive(e[i].0@, k@, e[j - 1].0@);
            } else if i == p {
            } else {
                assert(keys_of(e)[i - 1] == e[i - 1].0@);
                assert(keys_of(e)[j - 1] == e[j - 1].0@);
            }
        }
        assert(n[p] == (k, v));
        lemma_map_get_at(n, k@, p);
        if other != k@ {
            if exists|i: int| 0 <= i < e.len() && (#[trigger] e[i]).0@ == other {
                let i = choose|i: int| 0 <= i < e.len() && (#[trigger] e[i]).0@ == other;
                lemma_map_get_at(e, other, i);
                if i < p {
                    assert(n[i] == e[i]);
                    lemma_map_get_at(n, other, i);
                } else {
                    assert(n[i + 1] == e[i]);
                    lemma_map_get_at(n, other, i + 1);
                }
            } else {
                assert forall|i: int| 0 <= i < n.len() implies (#[trigger] n[i]).0@ != other by {
                    if i < p {
                        assert(n[i] == e[i]);
                    } else if i > p {
                        assert(n[i] == e[i - 1]);
                    }
                }
                lemma_map_get_none(n, other);
                lemma_map_get_none(e, other);
            }
        }
    }
}

/// Sets key `key` to `value`.
pub fn map_insert<V>(entries: &mut Vec<(String, V)>, key: String, value: V)
    ensures
        final(entries)@ == map_inserted(old(entries)@, key, value),
{
    let ghost e = entries@;
    let mut p: usize = 0;
    let mut i: usize = 0;
    while i < entries.len()
        invariant
            0 <= i <= entries@.len(),
            entries@ == e,
            p <= i,
            p == lower_bound(e.take(i as int), key@),
        decreases entries@.len() - i,
    {
        assert(e.take((i + 1) as int).drop_last() == e.take(i as int));
        if crate::order::text_less(&entries[i].0, &key) {
            p = p + 1;
        }
        i = i + 1;
    }
    assert(e.take(e.len() as int) == e);
    if p < entries.len() && entries[p].0 == key {
        let _ = entries.remove(p);
        entries.insert(p, (key, value));
        assert(entries@ =~= map_inserted(e, key, value));
    } else {
        entries.insert(p, (key, value));
        assert(entries@ =~= map_inserted(e, key, value));
    }
}

/// The index of the entry under key `k`.
pub fn map_index<V>(entries: &Vec<(String, V)>, k: &str) -> (r: Option<usize>)
    ensures
        match r {
            Some(i) => i < entries@.len() && map_get(entries@, k@) == Some(entries@[i as int].1) && entries@[i as int].0@ == k@,
            None => map_get(entries@, k@) is None,
        },
{
    let ghost p = has_key::<V>(k@);
    let key = k.to_owned();
    let mut i: usize = 0;
    while i < entries.len()
        invariant
            0 <= i <= entries@.len(),
            key@ == k@,
            p == has_key::<V>(k@),
            crate::order::first_match(entries@.take(i as int), p) is None,
        decreases entries@.len() - i,
    {
        if entries[i].0 == key {
            proof {
                crate::order::lemma_first_match_prefix(entries@, p, i as int);
            }
            return Some(i);
        }
        proof {
            crate::order::lemma_first_match_step(entries@, p, i as int);
        }
        i = i + 1;
    }
    assert(entries@.take(entries@.len() as int) == entries@);
    None
}

/// The entries whose key is one of `keys`, in order.
pub open spec fn retained<V>(e: Seq<(String, V)>, keys: Seq<Seq<char>>) -> Seq<(String, V)>
    decreases e.len(),
{
    if e.len() == 0 {
        seq![]
    } else {
        retained(e.drop_last(), keys) + if keys.contains(e.last().0@) {
            seq![e.last()]
        } else {
            Seq::<(String, V)>::empty()
        }
    }
}

/// Forgetting entries keeps the others in order: the entries kept are
/// entries of `e`, under the given keys, still in increasing key order.
pub proof fn law_retained_sorted<V>(e: Seq<(String, V)>, keys: Seq<Seq<char>>)
    requires
        strictly_sorted(keys_of(e)),
    ensures
        strictly_sorted(keys_of(retained(e, keys))),
        forall|i: int| 0 <= i < retained(e, keys).len() ==> keys.contains(#[trigger] retained(e, keys)[i].0@)
            && exists|j: int| 0 <= j < e.len() && e[j] == retained(e, keys)[i],
    decreases e.len(),
{
    if e.len() > 0 {
        let d = e.drop_last();
        let n = e.len() - 1;
        assert(strictly_sorted(keys_of(d))) by {
            assert forall|i: int, j: int| 0 <= i < j < keys_of(d).len() implies text_lt(keys_of(d)[i], keys_of(d)[j]) by {
                assert(keys_of(d)[i] == keys_of(e)[i]);
                assert(keys_of(d)[j] == keys_of(e)[j]);
            }
        }
        law_retained_sorted(d, keys);
        let r = retained(d, keys);
        let out = retained(e, keys);
        assert forall|i: int| 0 <= i < r.len() implies text_lt(#[trigger] r[i].0@, e[n].0@) by {
            assert(keys.contains(r[i].0@));
            let j = choose|j: int| 0 <= j < d.len() && d[j] == r[i];
            assert(d[j] == e[j]);
            assert(keys_of(e)[j] == e[j].0@);
            assert(keys_of(e)[n] == e[n].0@);
        }
        if keys.contains(e[n].0@) {
            assert(out == r.push(e[n]));
            assert forall|i: int, j: int| 0 <= i < j < keys_of(out).len() implies text_lt(keys_of(out)[i], keys_of(out)[j]) by {
                assert(keys_of(out)[i] == out[i].0@);
                assert(keys_of(out)[j] == out[j].0@);
                if j < r.len() {
                    assert(keys_of(r)[i] == r[i].0@);
                    assert(keys_of(r)[j] == r[j].0@);
                }
            }
            assert forall|i: int| 0 <= i < out.len() implies keys.contains(#[trigger] out[i].0@)
                && exists|j: int| 0 <= j < e.len() && e[j] == out[i] by {
                if i < r.len() {
                    assert(keys.contains(r[i].0@));
                    let j = choose|j: int| 0 <= j < d.len() && d[j] == r[i];
                    assert(d[j] == e[j]);
                    assert(e[j] == out[i]);
                } else {
                    assert(e[n] == out[i]);
                }
            }
        } else {
            assert(out == r);
            assert forall|i: int| 0 <= i < out.len() implies keys.contains(#[trigger] out[i].0@)
                && exists|j: int| 0 <= j < e.len() && e[j] == out[i] by {
                assert(keys.contains(r[i].0@));
                let j = choose|j: int| 0 <= j < d.len() && d[j] == r[i];
                assert(d[j] == e[j]);
                assert(e[j] == out[i]);
            }
        }
    }
}

/// Forgets the files that are no longer part of the project.
pub fn retain_files(state: &mut ProjectState, paths: &Vec<String>)
    ensures
        final(state).files@ == retained(old(state).files@, crate::validate::views(paths@)),
        final(state).project == old(state).project,
        final(state).functions == old(state).functions,
        old(state).wf() ==> final(state).wf(),
{
    proof {
        if old(state).wf() {
            law_retained_sorted(old(state).files@, crate::validate::views(paths@));
        }
    }
    let mut pending: Vec<(String, FileState)> = Vec::new();
    std::mem::swap(&mut pending, &mut state.files);
    let ghost orig = pending@;
    assert(orig.len() == pending.len());
    let mut kept: Vec<(String, FileState)> = Vec::new();
    let mut k: usize = 0;
    while pending.len() > 0
        invariant
            k <= orig.len(),
            orig.len() <= usize::MAX,
            pending@ == orig.skip(k as int),
            kept@ == retained(orig.take(k as int), crate::validate::views(paths@)),
        decreases pending@.len(),
    {
        assert(k < orig.len());
        let item = pending.remove(0);
        assert(item == orig[k as int]);
        assert(orig.take((k + 1) as int).drop_last() == orig.take(k as int));
        if crate::validate::contains_text(paths, &item.0) {
            kept.push(item);
        }
        k = k + 1;
        assert(kept@ =~= retained(orig.take(k as int), crate::validate::views(paths@)));
        assert(pending@ =~= orig.skip(k as int));
    }
    assert(orig.take(k as int) =~= orig);
    state.files = kept;
}

/// A source file that enters the fingerprint: not under `.graphloom`, with a
/// Go or TypeScript extension.
pub open spec fn fingerprinted(components: Seq<Seq<char>>, name: Seq<char>) -> bool {
    &&& !components.contains(".graphloom"@)
    &&& (crate::pipeline::extension_of(name) == Some("go"@)
        || crate::pipeline::extension_of(name) == Some("ts"@)
        || crate::pipeline::extension_of(name) == Some("tsx"@))
}

/// Whether a file, given by the components of its path relative to the
/// project and by its name, enters the fingerprint.
pub fn fingerprint_candidate(components: &Vec<String>, name: &str) -> (r: bool)
    ensures
        r == fingerprinted(crate::validate::views(components@), name@),
{
    let ghost cv = crate::validate::views(components@);
    let mut i: usize = 0;
    while i < components.len()
        invariant
            0 <= i <= components@.len(),
            cv == crate::validate::views(components@),
            forall|j: int| 0 <= j < i ==> cv[j] != ".graphloom"@,
        decreases components@.len() - i,
    {
        if crate::text::same_text(components[i].as_str(), ".graphloom") {
            assert(cv[i as int] == ".graphloom"@);
            return false;
        }
        i = i + 1;
    }
    assert(!cv.contains(".graphloom"@));
    crate::commands::has_extension(name, "go") || crate::commands::has_extension(name, "ts")
        || crate::commands::has_extension(name, "tsx")
}

/// Path order: component by component, each compared as text; a path
/// comes before the paths it is a prefix of.
pub open spec fn components_lt(a: Seq<Seq<char>>, b: Seq<Seq<char>>) -> bool
    decreases a.len(),
{
    if a.len() == 0 {
        b.len() > 0
    } else if b.len() == 0 {
        false
    } else if a[0] != b[0] {
        text_lt(a[0], b[0])
    } else {
        components_lt(a.drop_first(), b.drop_first())
    }
}

/// A source file of the fingerprint: its path relative to the project, and
/// that path's components.
pub struct SourcePath {
    pub path: String,
    pub components: Vec<String>,
}

fn components_less(a: &Vec<String>, b: &Vec<String>) -> (r: bool)
    ensures
        r == components_lt(crate::validate::views(a@), crate::validate::views(b@)),
{
    let ghost x = crate::validate::views(a@);
    let ghost y = crate::validate::views(b@);
    let mut i: usize = 0;
    assert(x.skip(0) =~= x);
    assert(y.skip(0) =~= y);
    while i < a.len() && i < b.len() && crate::text::same_text(a[i].as_str(), b[i].as_str())
        invariant
            0 <= i <= a@.len(),
            i <= b@.len(),
            x == crate::validate::views(a@),
            y == crate::validate::views(b@),
            components_lt(x, y) == components_lt(x.skip(i as int), y.skip(i as int)),
        decreases a@.len() - i,
    {
        assert(x.skip((i + 1) as int) == x.skip(i as int).drop_first());
        assert(y.skip((i + 1) as int) == y.skip(i as int).drop_first());
        i = i + 1;
    }
    if i == a.len() {
        i < b.len()
    } else if i == b.len() {
        false
    } else {
        assert(x.skip(i as int)[0] == x[i as int]);
        assert(y.skip(i as int)[0] == y[i as int]);
        crate::order::text_less(&a[i], &b[i])
    }
}

impl crate::order::SortKey for SourcePath {
    open spec fn precedes(&self, other: &Self) -> bool {
        components_lt(crate::validate::views(self.components@), crate::validate::views(other.components@))
    }

    fn sorts_before(&self, other: &Self) -> (r: bool) {
        components_less(&self.components, &other.components)
    }
}

/// The fingerprint's files in path order.
pub fn sort_source_paths(files: Vec<SourcePath>) -> (out: Vec<SourcePath>)
    ensures
        out@ == crate::order::stable_sorted(files@),
{
    crate::order::stable_sort(files)
}

/// The bytes hashed for a source fingerprint: each file's path, a zero byte,
/// its content, a zero byte, in the given order.
pub open spec fn fingerprint_input(files: Seq<(String, Vec<u8>)>) -> Seq<u8>
    decreases files.len(),
{
    if files.len() == 0 {
        seq![]
    } else {
        fingerprint_input(files.drop_last()) + vstd::utf8::encode_utf8(files.last().0@) + seq![0u8]
            + files.last().1@ + seq![0u8]
    }
}

/// The fingerprint of the project's sources, given in path order.
pub fn fingerprint(files: &Vec<(String, Vec<u8>)>) -> (s: String)
    ensures
        s@ == hex_text(sha256_of(fingerprint_input(files@))),
{
    let mut bytes: Vec<u8> = Vec::new();
    let mut i: usize = 0;
    while i < files.len()
        invariant
            0 <= i <= files@.len(),
            bytes@ == fingerprint_input(files@.take(i as int)),
        decreases files@.len() - i,
    {
        assert(files@.take((i + 1) as int).drop_last() == files@.take(i as int));
        let path = files[i].0.as_str().as_bytes();
        let mut k: usize = 0;
        let ghost b0 = bytes@;
        while k < path.len()
            invariant
                0 <= k <= path@.len(),
                bytes@ == b0 + path@.take(k as int),
            decreases path@.len() - k,
        {
            bytes.push(path[k]);
            k = k + 1;
            assert(bytes@ =~= b0 + path@.take(k as int));
        }
        assert(path@.take(path@.len() as int) == path@);
        bytes.push(0u8);
        let content = &files[i].1;
        let mut k: usize = 0;
        let ghost b1 = bytes@;
        while k < content.len()
            invariant
                0 <= k <= content@.len(),
                bytes@ == b1 + content@.take(k as int),
            decreases content@.len() - k,
        {
            bytes.push(content[k]);
            k = k + 1;
            assert(bytes@ =~= b1 + content@.take(k as int));
        }
        assert(content@.take(content@.len() as int) == content@);
        bytes.push(0u8);
        i = i + 1;
        assert(bytes@ =~= fingerprint_input(files@.take(i as int)));
    }
    assert(files@.take(files@.len() as int) == files@);
    hash_bytes(bytes.as_slice())
}

/// The key of a cached project map: the settings key and the model's hash.
pub fn project_cache_key(settings: &Settings, ucm_json: &str) -> (k: String)
    ensures
        k@ == cache_key_text(*settings) + "-"@ + hex_text(sha256_of(vstd::utf8::encode_utf8(ucm_json@))),
{
    let mut k = cache_key(settings);
    push_str(&mut k, "-");
    let h = hash_bytes(ucm_json.as_bytes());
    push_str(&mut k, h.as_str());
    k
}

/// The key of a cached function flow: the settings key, the file's hash and the symbol.
pub fn function_cache_key(settings: &Settings, file_hash: &str, symbol_id: &str) -> (k: String)
    ensures
        k@ == cache_key_text(*settings) + "-"@ + file_hash@ + "-"@ + symbol_id@,
{
    let mut k = cache_key(settings);
    push_str(&mut k, "-");
    push_str(&mut k, file_hash);
    push_str(&mut k, "-");
    push_str(&mut k, symbol_id);
    k
}

/// The report and diagram of the cached project map, when it was made
/// under cache key `key`.
pub fn project_report_hit(state: &ProjectState, key: &str) -> (r: Option<(String, String)>)
    ensures
        match state.project {
            Some(p) => if p.cache_key@ == key@ { r == Some((p.report_path, p.dsl_path)) } else { r is None },
            None => r is None,
        },
{
    match &state.project {
        Some(p) => if crate::text::same_text(p.cache_key.as_str(), key) {
            Some((p.report_path.clone(), p.dsl_path.clone()))
        } else {
            None
        },
        None => None,
    }
}

/// The report and diagram of a cached function flow, when it was made under
/// cache key `key`.
pub fn function_report_hit(state: &ProjectState, symbol_id: &str, key: &str) -> (r: Option<(String, String)>)
    ensures
        match map_get(state.functions@, symbol_id@) {
            Some(f) => if f.cache_key@ == key@ { r == Some((f.report_path, f.dsl_path)) } else { r is None },
            None => r is None,
        },
{
    match map_index(&state.functions, symbol_id) {
        Some(i) => {
            let f = &state.functions[i].1;
            if crate::text::same_text(f.cache_key.as_str(), key) {
                Some((f.report_path.clone(), f.dsl_path.clone()))
            } else {
                None
            }
        },
        None => None,
    }
}

} // verus!
