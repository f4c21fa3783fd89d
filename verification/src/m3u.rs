//! The playlist parser: semi-structured manifest text in, ordered channel
//! records out.
//!
//! A manifest is a sequence of lines. A directive line starts with `#EXTINF`
//! and, paired with the next line when that line does not start with `#EXT`,
//! forms one logical entry: the directive carries `key="value"` attributes
//! and an optional trailing description after its last comma, the payload
//! line carries the media address. Lines that fit no entry are dropped;
//! parsing never fails.

use vstd::prelude::*;

use crate::text::{
    chars_eq, chars_vec, find_char, find_char_from, first_nonspace, has_prefix, has_prefix_exec,
    is_space, is_space_char, lemma_find_char, lower, lower_chars, string_from_chars,
    subvec, trim, trim_chars,
};

verus! {

/// One playlist entry. The media address is always set; everything else is
/// optional presentation metadata from the source manifest.
#[derive(Clone, Debug, PartialEq, Eq)]
pub struct Stream {
    pub url: String,
    pub id: Option<String>,
    pub name: Option<String>,
    pub description: Option<String>,
    pub channel_number: Option<String>,
    pub logo: Option<String>,
    pub group: Option<String>,
    pub epg_id: Option<String>,
    /// Anything found but not captured by the other fields; keys are unique.
    pub metadata: Vec<(String, String)>,
}

/// The mathematical model of a `Stream`.
#[verifier::ext_equal]
pub struct StreamView {
    pub url: Seq<char>,
    pub id: Option<Seq<char>>,
    pub name: Option<Seq<char>>,
    pub description: Option<Seq<char>>,
    pub channel_number: Option<Seq<char>>,
    pub logo: Option<Seq<char>>,
    pub group: Option<Seq<char>>,
    pub epg_id: Option<Seq<char>>,
    pub metadata: Seq<(Seq<char>, Seq<char>)>,
}

pub open spec fn opt_view(o: Option<String>) -> Option<Seq<char>> {
    match o {
        Some(s) => Some(s@),
        None => None,
    }
}

impl View for Stream {
    type V = StreamView;

    open spec fn view(&self) -> StreamView {
        StreamView {
            url: self.url@,
            id: opt_view(self.id),
            name: opt_view(self.name),
            description: opt_view(self.description),
            channel_number: opt_view(self.channel_number),
            logo: opt_view(self.logo),
            group: opt_view(self.group),
            epg_id: opt_view(self.epg_id),
            metadata: self.metadata@.map_values(|p: (String, String)| (p.0@, p.1@)),
        }
    }
}

pub open spec fn empty_stream(url: Seq<char>) -> StreamView {
    StreamView {
        url: url,
        id: None,
        name: None,
        description: None,
        channel_number: None,
        logo: None,
        group: None,
        epg_id: None,
        metadata: Seq::empty(),
    }
}

impl Stream {
    /// A stream holding only a media address.
    pub fn new(url: &str) -> (s: Self)
        ensures
            s@ == empty_stream(url@),
    {
        let s = Stream {
            url: url.to_owned(),
            id: None,
            name: None,
            description: None,
            channel_number: None,
            logo: None,
            group: None,
            epg_id: None,
            metadata: Vec::new(),
        };
        proof {
            assert(s@ =~= empty_stream(url@));
        }
        s
    }
}

/// An ordered list of streams, in source manifest order.
#[derive(Clone, Debug, PartialEq, Eq)]
pub struct Playlist {
    pub streams: Vec<Stream>,
}

impl View for Playlist {
    type V = Seq<StreamView>;

    open spec fn view(&self) -> Seq<StreamView> {
        self.streams@.map_values(|s: Stream| s@)
    }
}

// ---------------------------------------------------------------------------
// Line structure
// ---------------------------------------------------------------------------

pub open spec fn ext_prefix() -> Seq<char> {
    seq!['#', 'E', 'X', 'T']
}

pub open spec fn extinf_prefix() -> Seq<char> {
    seq!['#', 'E', 'X', 'T', 'I', 'N', 'F']
}

/// The pieces of `s[start..]` cut at each newline.
pub open spec fn split_from(s: Seq<char>, start: int) -> Seq<Seq<char>>
    decreases s.len() - start,
    via split_from_decreases
{
    if start < 0 || start > s.len() {
        Seq::empty()
    } else {
        let i = find_char(s, start, '\n');
        if i >= s.len() {
            seq![s.subrange(start, s.len() as int)]
        } else {
            seq![s.subrange(start, i)] + split_from(s, i + 1)
        }
    }
}

#[via_fn]
proof fn split_from_decreases(s: Seq<char>, start: int) {
    if 0 <= start <= s.len() {
        lemma_find_char(s, start, '\n');
    }
}

/// The lines of a manifest: pieces cut at newlines, a final newline ending
/// the last line rather than opening an empty one.
pub open spec fn lines_of(text: Seq<char>) -> Seq<Seq<char>> {
    if text.len() == 0 {
        Seq::empty()
    } else if text.last() == '\n' {
        split_from(text.take(text.len() - 1), 0)
    } else {
        split_from(text, 0)
    }
}

/// The manifest's lines, each trimmed of surrounding whitespace.
pub open spec fn manifest_lines(text: Seq<char>) -> Seq<Seq<char>> {
    lines_of(text).map_values(|l: Seq<char>| trim(l))
}

/// The logical entries at or after line `i`: each directive line starting
/// with `#EXTINF` paired with the next line, when that next line does not
/// start with `#EXT`.
pub open spec fn entries_from(lines: Seq<Seq<char>>, i: int) -> Seq<(Seq<char>, Seq<char>)>
    decreases lines.len() - i,
{
    if i < 0 || i + 1 >= lines.len() {
        Seq::empty()
    } else if has_prefix(lines[i], extinf_prefix()) && !has_prefix(lines[i + 1], ext_prefix()) {
        seq![(lines[i], lines[i + 1])] + entries_from(lines, i + 1)
    } else {
        entries_from(lines, i + 1)
    }
}

/// The logical entries of a manifest, in source order.
pub open spec fn manifest_entries(text: Seq<char>) -> Seq<(Seq<char>, Seq<char>)> {
    entries_from(manifest_lines(text), 0)
}

// ---------------------------------------------------------------------------
// Attribute extraction
// ---------------------------------------------------------------------------

/// An attribute match in `s` whose key spans `[p, e)`: the key is a nonempty
/// run of non-whitespace characters, followed by `="`, a nonempty run of
/// quote-free characters, and a closing quote.
pub open spec fn match_at(s: Seq<char>, p: int, e: int) -> bool {
    &&& 0 <= p < e
    &&& e + 2 <= s.len()
    &&& (forall|j: int| p <= j < e ==> !is_space(s[j]))
    &&& s[e] == '='
    &&& s[e + 1] == '"'
    &&& find_char(s, e + 2, '"') > e + 2
    &&& find_char(s, e + 2, '"') < s.len()
}

/// The greatest `e'` at most `e` with a match at `(p, e')`, or -1: the key
/// is as long as a completable match allows.
pub open spec fn best_e(s: Seq<char>, p: int, e: int) -> int
    decreases e + 1,
{
    if e < 0 {
        -1
    } else if match_at(s, p, e) {
        e
    } else {
        best_e(s, p, e - 1)
    }
}

pub proof fn lemma_best_e(s: Seq<char>, p: int, e: int)
    ensures
        best_e(s, p, e) == -1 || (0 <= best_e(s, p, e) <= e && match_at(s, p, best_e(s, p, e))),
        forall|k: int| best_e(s, p, e) < k <= e ==> !match_at(s, p, k),
    decreases e + 1,
{
    if e >= 0 && !match_at(s, p, e) {
        lemma_best_e(s, p, e - 1);
    }
}

pub open spec fn has_match_at(s: Seq<char>, p: int) -> bool {
    best_e(s, p, s.len() as int) >= 0
}

/// The `key="value"` attribute pairs found in `s` at or after `pos`,
/// scanning left to right, each scan resuming after the closing quote of
/// the previous match.
pub open spec fn attrs_from(s: Seq<char>, pos: int) -> Seq<(Seq<char>, Seq<char>)>
    decreases s.len() - pos,
    via attrs_from_decreases
{
    if pos < 0 || pos >= s.len() {
        Seq::empty()
    } else if has_match_at(s, pos) {
        let e = best_e(s, pos, s.len() as int);
        let c = find_char(s, e + 2, '"');
        seq![(s.subrange(pos, e), s.subrange(e + 2, c))] + attrs_from(s, c + 1)
    } else {
        attrs_from(s, pos + 1)
    }
}

#[via_fn]
proof fn attrs_from_decreases(s: Seq<char>, pos: int) {
    if 0 <= pos < s.len() && has_match_at(s, pos) {
        lemma_best_e(s, pos, s.len() as int);
    }
}

// ---------------------------------------------------------------------------
// Attribute keys and their effect
// ---------------------------------------------------------------------------

pub open spec fn key_channel_id() -> Seq<char> {
    seq!['c', 'h', 'a', 'n', 'n', 'e', 'l', '-', 'i', 'd']
}

pub open spec fn key_tvg_id() -> Seq<char> {
    seq!['t', 'v', 'g', '-', 'i', 'd']
}

pub open spec fn key_tvg_epgid() -> Seq<char> {
    seq!['t', 'v', 'g', '-', 'e', 'p', 'g', 'i', 'd']
}

pub open spec fn key_tvg_name() -> Seq<char> {
    seq!['t', 'v', 'g', '-', 'n', 'a', 'm', 'e']
}

pub open spec fn key_tvg_chno() -> Seq<char> {
    seq!['t', 'v', 'g', '-', 'c', 'h', 'n', 'o']
}

pub open spec fn key_tvg_logo() -> Seq<char> {
    seq!['t', 'v', 'g', '-', 'l', 'o', 'g', 'o']
}

pub open spec fn key_tvg_group() -> Seq<char> {
    seq!['t', 'v', 'g', '-', 'g', 'r', 'o', 'u', 'p']
}

pub open spec fn key_group_title() -> Seq<char> {
    seq!['g', 'r', 'o', 'u', 'p', '-', 't', 'i', 't', 'l', 'e']
}

pub open spec fn key_tvg_url() -> Seq<char> {
    seq!['t', 'v', 'g', '-', 'u', 'r', 'l']
}

/// Insert under a unique key: an existing binding of the key is replaced in
/// place, otherwise the pair is appended.
pub open spec fn meta_insert(
    m: Seq<(Seq<char>, Seq<char>)>,
    k: Seq<char>,
    v: Seq<char>,
) -> Seq<(Seq<char>, Seq<char>)>
    decreases m.len(),
{
    if m.len() == 0 {
        seq![(k, v)]
    } else if m[0].0 == k {
        seq![(k, v)] + m.skip(1)
    } else {
        seq![m[0]] + meta_insert(m.skip(1), k, v)
    }
}

/// Well-formed metadata: no key occurs twice.
pub open spec fn meta_wf(m: Seq<(Seq<char>, Seq<char>)>) -> bool {
    forall|i: int, j: int| 0 <= i < j < m.len() ==> m[i].0 != m[j].0
}

proof fn lemma_meta_insert_wf(m: Seq<(Seq<char>, Seq<char>)>, k: Seq<char>, v: Seq<char>)
    requires
        meta_wf(m),
    ensures
        meta_wf(meta_insert(m, k, v)),
        forall|j: int|
            0 <= j < meta_insert(m, k, v).len() ==> (meta_insert(m, k, v)[j].0 == k
                || (exists|i: int| 0 <= i < m.len() && m[i].0 == #[trigger] meta_insert(m, k, v)[j].0)),
    decreases m.len(),
{
    if m.len() == 0 {
    } else if m[0].0 == k {
        let r = meta_insert(m, k, v);
        assert forall|i: int, j: int| 0 <= i < j < r.len() implies r[i].0 != r[j].0 by {
            if i == 0 {
                assert(r[j].0 == m[j].0);
            } else {
                assert(r[i].0 == m[i].0 && r[j].0 == m[j].0);
            }
        }
        assert forall|j: int| 0 <= j < r.len() implies (r[j].0 == k || (exists|i: int|
            0 <= i < m.len() && m[i].0 == r[j].0)) by {
            if j > 0 {
                assert(m[j].0 == r[j].0);
            }
        }
    } else {
        assert(meta_wf(m.skip(1))) by {
            assert(forall|i: int, j: int|
                0 <= i < j < m.skip(1).len() ==> m.skip(1)[i].0 == m[i + 1].0 && m.skip(1)[j].0
                    == m[j + 1].0);
        }
        lemma_meta_insert_wf(m.skip(1), k, v);
        let r = meta_insert(m, k, v);
        let rt = meta_insert(m.skip(1), k, v);
        assert(r =~= seq![m[0]] + rt);
        assert forall|j: int| 1 <= j < r.len() implies r[j].0 != m[0].0 by {
            assert(r[j] == rt[j - 1]);
            if rt[j - 1].0 == k {
            } else {
                let i = choose|i: int| 0 <= i < m.skip(1).len() && m.skip(1)[i].0 == rt[j - 1].0;
                assert(m.skip(1)[i].0 == m[i + 1].0);
            }
        }
        assert forall|i: int, j: int| 0 <= i < j < r.len() implies r[i].0 != r[j].0 by {
            if i > 0 {
                assert(r[i] == rt[i - 1] && r[j] == rt[j - 1]);
            }
        }
        assert forall|j: int| 0 <= j < r.len() implies (r[j].0 == k || (exists|i: int|
            0 <= i < m.len() && m[i].0 == r[j].0)) by {
            if j > 0 {
                assert(r[j] == rt[j - 1]);
                if rt[j - 1].0 != k {
                    let i = choose|i: int|
                        0 <= i < m.skip(1).len() && m.skip(1)[i].0 == rt[j - 1].0;
                    assert(m[i + 1].0 == r[j].0);
                }
            } else {
                assert(m[0].0 == r[0].0);
            }
        }
    }
}

proof fn lemma_apply_attrs_wf(sv: StreamView, attrs: Seq<(Seq<char>, Seq<char>)>)
    requires
        meta_wf(sv.metadata),
    ensures
        meta_wf(apply_attrs(sv, attrs).metadata),
    decreases attrs.len(),
{
    if attrs.len() > 0 {
        let sv2 = apply_attr(sv, attrs[0].0, attrs[0].1);
        if sv2.metadata != sv.metadata {
            lemma_meta_insert_wf(sv.metadata, attrs[0].0, attrs[0].1);
        }
        lemma_apply_attrs_wf(sv2, attrs.skip(1));
    }
}

/// Every parsed stream has well-formed metadata: unrecognized attribute keys
/// are kept uniquely, a later occurrence replacing an earlier one.
pub proof fn lemma_parse_metadata_unique(text: Seq<char>, i: int)
    requires
        0 <= i < parse_spec(text).len(),
    ensures
        meta_wf(parse_spec(text)[i].metadata),
{
    let e = manifest_entries(text)[i];
    assert(parse_spec(text)[i] == stream_of(e.0, e.1));
    lemma_apply_attrs_wf(empty_stream(e.1), attrs_from(e.0, 0));
}

/// The effect of one attribute on a stream under construction. Keys are
/// matched after ASCII lower-casing; an unrecognized key goes to the
/// metadata under its original spelling.
pub open spec fn apply_attr(sv: StreamView, k: Seq<char>, v: Seq<char>) -> StreamView {
    let lk = lower(k);
    if lk == key_channel_id() || lk == key_tvg_id() {
        StreamView { id: Some(v), ..sv }
    } else if lk == key_tvg_epgid() {
        StreamView { epg_id: Some(v), ..sv }
    } else if lk == key_tvg_name() {
        StreamView { name: Some(v), ..sv }
    } else if lk == key_tvg_chno() {
        StreamView { channel_number: Some(v), ..sv }
    } else if lk == key_tvg_logo() {
        StreamView { logo: Some(v), ..sv }
    } else if lk == key_tvg_group() || lk == key_group_title() {
        StreamView { group: Some(v), ..sv }
    } else if lk == key_tvg_url() {
        StreamView { url: v, ..sv }
    } else {
        StreamView { metadata: meta_insert(sv.metadata, k, v), ..sv }
    }
}

/// All attributes applied in order: a later occurrence of a key wins.
pub open spec fn apply_attrs(sv: StreamView, attrs: Seq<(Seq<char>, Seq<char>)>) -> StreamView
    decreases attrs.len(),
{
    if attrs.len() == 0 {
        sv
    } else {
        apply_attrs(apply_attr(sv, attrs[0].0, attrs[0].1), attrs.skip(1))
    }
}

/// The greatest index at or before `from` holding `c`, or -1.
pub open spec fn last_char_index(s: Seq<char>, from: int, c: char) -> int
    decreases from + 1,
{
    if from < 0 || from >= s.len() {
        -1
    } else if s[from] == c {
        from
    } else {
        last_char_index(s, from - 1, c)
    }
}

/// The trailing free text after the last comma of a directive line, leading
/// whitespace dropped; nothing when there is no comma or nothing follows it.
pub open spec fn description_of(line: Seq<char>) -> Option<Seq<char>> {
    let k = last_char_index(line, line.len() - 1, ',');
    if k < 0 {
        None
    } else {
        let t = line.subrange(k + 1, line.len() as int);
        let a = first_nonspace(t, 0);
        if a >= t.len() {
            None
        } else {
            Some(t.skip(a))
        }
    }
}

/// The stream record of one logical entry: the payload line is the media
/// address unless a `tvg-url` attribute overrides it; the description, when
/// present, also names an otherwise unnamed stream; an explicit id doubles
/// as the EPG id when none was given.
pub open spec fn stream_of(directive: Seq<char>, payload: Seq<char>) -> StreamView {
    let s1 = apply_attrs(empty_stream(payload), attrs_from(directive, 0));
    let s2 = (match description_of(directive) {
        Some(d) => StreamView {
            description: Some(d),
            name: if s1.name is None {
                Some(d)
            } else {
                s1.name
            },
            ..s1
        },
        None => s1,
    });
    if s2.id is Some && s2.epg_id is None {
        StreamView { epg_id: s2.id, ..s2 }
    } else {
        s2
    }
}

/// The whole parse: every logical entry of the manifest becomes one stream,
/// in source order; everything else is dropped.
pub open spec fn parse_spec(text: Seq<char>) -> Seq<StreamView> {
    manifest_entries(text).map_values(|e: (Seq<char>, Seq<char>)| stream_of(e.0, e.1))
}

// ---------------------------------------------------------------------------
// The executable parser
// ---------------------------------------------------------------------------

pub open spec fn pair_views(m: Seq<(Vec<char>, Vec<char>)>) -> Seq<(Seq<char>, Seq<char>)> {
    m.map_values(|p: (Vec<char>, Vec<char>)| (p.0@, p.1@))
}

fn match_at_exec(s: &Vec<char>, p: usize, e: usize) -> (r: bool)
    requires
        e <= s.len(),
    ensures
        r == match_at(s@, p as int, e as int),
{
    if !(p < e) {
        return false;
    }
    if s.len() < 2 || e > s.len() - 2 {
        return false;
    }
    let mut j: usize = p;
    while j < e
        invariant
            p <= j <= e <= s@.len(),
            forall|k: int| p <= k < j ==> !is_space(s@[k]),
        decreases e - j,
    {
        if is_space_char(s[j]) {
            return false;
        }
        j = j + 1;
    }
    if s[e] != '=' || s[e + 1] != '"' {
        return false;
    }
    let c = find_char_from(s, e + 2, '"');
    c > e + 2 && c < s.len()
}

fn best_e_exec(s: &Vec<char>, p: usize) -> (r: Option<usize>)
    ensures
        (match r {
            Some(e) => best_e(s@, p as int, s@.len() as int) == e,
            None => best_e(s@, p as int, s@.len() as int) == -1,
        }),
{
    let mut e: usize = s.len();
    loop
        invariant
            e <= s.len(),
            best_e(s@, p as int, s@.len() as int) == best_e(s@, p as int, e as int),
        decreases e,
    {
        if match_at_exec(s, p, e) {
            return Some(e);
        }
        if e == 0 {
            assert(best_e(s@, p as int, 0) == best_e(s@, p as int, -1));
            return None;
        }
        e = e - 1;
    }
}

/// All `key="value"` attribute pairs of a directive line, in order.
fn extract_attrs(s: &Vec<char>) -> (r: Vec<(Vec<char>, Vec<char>)>)
    ensures
        pair_views(r@) == attrs_from(s@, 0),
{
    let mut r: Vec<(Vec<char>, Vec<char>)> = Vec::new();
    let mut pos: usize = 0;
    while pos < s.len()
        invariant
            pos <= s.len(),
            attrs_from(s@, 0) =~= pair_views(r@) + attrs_from(s@, pos as int),
        decreases s.len() - pos,
    {
        match best_e_exec(s, pos) {
            Some(e) => {
                proof {
                    lemma_best_e(s@, pos as int, s@.len() as int);
                    lemma_find_char(s@, e + 2, '"');
                }
                assert(match_at(s@, pos as int, e as int));
                let c = find_char_from(s, e + 2, '"');
                let key = subvec(s, pos, e);
                let val = subvec(s, e + 2, c);
                let ghost old_pairs = pair_views(r@);
                r.push((key, val));
                proof {
                    assert(pair_views(r@) =~= old_pairs + seq![
                        (s@.subrange(pos as int, e as int), s@.subrange(e + 2, c as int)),
                    ]);
                }
                pos = c + 1;
            },
            None => {
                assert(!has_match_at(s@, pos as int));
                pos = pos + 1;
            },
        }
    }
    proof {
        assert(attrs_from(s@, pos as int) =~= Seq::<(Seq<char>, Seq<char>)>::empty());
        assert(pair_views(r@) =~= attrs_from(s@, 0));
    }
    r
}

proof fn lemma_meta_insert_found(s: Seq<(Seq<char>, Seq<char>)>, i: int, k: Seq<char>, v: Seq<char>)
    requires
        0 <= i < s.len(),
        s[i].0 == k,
        forall|j: int| 0 <= j < i ==> s[j].0 != k,
    ensures
        meta_insert(s, k, v) =~= s.update(i, (k, v)),
    decreases i,
{
    if i == 0 {
        assert(meta_insert(s, k, v) =~= s.update(0, (k, v)));
    } else {
        assert(s[0].0 != k);
        lemma_meta_insert_found(s.skip(1), i - 1, k, v);
        assert(meta_insert(s, k, v) =~= seq![s[0]] + s.skip(1).update(i - 1, (k, v)));
        assert(meta_insert(s, k, v) =~= s.update(i, (k, v)));
    }
}

proof fn lemma_meta_insert_fresh(s: Seq<(Seq<char>, Seq<char>)>, k: Seq<char>, v: Seq<char>)
    requires
        forall|j: int| 0 <= j < s.len() ==> s[j].0 != k,
    ensures
        meta_insert(s, k, v) =~= s + seq![(k, v)],
    decreases s.len(),
{
    if s.len() > 0 {
        lemma_meta_insert_fresh(s.skip(1), k, v);
        assert(meta_insert(s, k, v) =~= seq![s[0]] + (s.skip(1) + seq![(k, v)]));
        assert(meta_insert(s, k, v) =~= s + seq![(k, v)]);
    }
}

fn meta_insert_exec(m: &Vec<(Vec<char>, Vec<char>)>, k: Vec<char>, v: Vec<char>) -> (r: Vec<
    (Vec<char>, Vec<char>),
>)
    ensures
        pair_views(r@) == meta_insert(pair_views(m@), k@, v@),
{
    let ghost s = pair_views(m@);
    let ghost kk = k@;
    let ghost vv = v@;
    let n = m.len();
    let mut idx: usize = n;
    let mut i: usize = 0;
    while i < n
        invariant
            i <= n == m@.len(),
            idx <= n,
            s == pair_views(m@),
            kk == k@,
            idx == n ==> forall|j: int| 0 <= j < i ==> s[j].0 != kk,
            idx < n ==> idx < i && s[idx as int].0 == kk && (forall|j: int|
                0 <= j < idx ==> s[j].0 != kk),
        decreases n - i,
    {
        if idx == n && chars_eq(&m[i].0, &k) {
            idx = i;
        }
        i = i + 1;
    }
    let mut r: Vec<(Vec<char>, Vec<char>)> = Vec::new();
    let mut c: usize = 0;
    while c < n
        invariant
            c <= n == m@.len(),
            s == pair_views(m@),
            kk == k@,
            vv == v@,
            r@.len() == c as int,
            forall|j: int|
                0 <= j < c ==> pair_views(r@)[j] == (if j == idx as int {
                    (kk, vv)
                } else {
                    s[j]
                }),
        decreases n - c,
    {
        let ghost pre = pair_views(r@);
        if c == idx {
            r.push((subvec(&k, 0, k.len()), subvec(&v, 0, v.len())));
            proof {
                assert(pair_views(r@)[c as int].0 =~= kk);
                assert(pair_views(r@)[c as int].1 =~= vv);
                assert(pair_views(r@) =~= pre + seq![(kk, vv)]);
            }
        } else {
            r.push((subvec(&m[c].0, 0, m[c].0.len()), subvec(&m[c].1, 0, m[c].1.len())));
            proof {
                assert(pair_views(r@)[c as int].0 =~= s[c as int].0);
                assert(pair_views(r@)[c as int].1 =~= s[c as int].1);
                assert(pair_views(r@) =~= pre + seq![s[c as int]]);
            }
        }
        c = c + 1;
    }
    proof {
        assert(s.len() == n as int);
    }
    if idx == n {
        let ghost pre = pair_views(r@);
        r.push((k, v));
        proof {
            assert(pair_views(r@) =~= pre + seq![(kk, vv)]);
            lemma_meta_insert_fresh(s, kk, vv);
            assert(pre =~= s);
            assert(pair_views(r@) =~= s + seq![(kk, vv)]);
        }
    } else {
        proof {
            lemma_meta_insert_found(s, idx as int, kk, vv);
            assert(pair_views(r@) =~= s.update(idx as int, (kk, vv)));
        }
    }
    r
}

/// The working state of one entry while its attributes are applied.
struct EntryState {
    url: Vec<char>,
    id: Option<Vec<char>>,
    name: Option<Vec<char>>,
    description: Option<Vec<char>>,
    channel_number: Option<Vec<char>>,
    logo: Option<Vec<char>>,
    group: Option<Vec<char>>,
    epg_id: Option<Vec<char>>,
    metadata: Vec<(Vec<char>, Vec<char>)>,
}

pub open spec fn opt_chars_view(o: Option<Vec<char>>) -> Option<Seq<char>> {
    match o {
        Some(v) => Some(v@),
        None => None,
    }
}

impl View for EntryState {
    type V = StreamView;

    closed spec fn view(&self) -> StreamView {
        StreamView {
            url: self.url@,
            id: opt_chars_view(self.id),
            name: opt_chars_view(self.name),
            description: opt_chars_view(self.description),
            channel_number: opt_chars_view(self.channel_number),
            logo: opt_chars_view(self.logo),
            group: opt_chars_view(self.group),
            epg_id: opt_chars_view(self.epg_id),
            metadata: pair_views(self.metadata@),
        }
    }
}

fn opt_string(o: Option<Vec<char>>) -> (r: Option<String>)
    ensures
        opt_view(r) == opt_chars_view(o),
{
    match o {
        Some(v) => Some(string_from_chars(&v)),
        None => None,
    }
}

/// The stream record of one logical entry.
fn stream_from_entry(directive: &Vec<char>, payload: &Vec<char>) -> (s: Stream)
    ensures
        s@ == stream_of(directive@, payload@),
{
    let attrs = extract_attrs(directive);
    let ghost aseq = attrs_from(directive@, 0);
    let mut st = EntryState {
        url: subvec(payload, 0, payload.len()),
        id: None,
        name: None,
        description: None,
        channel_number: None,
        logo: None,
        group: None,
        epg_id: None,
        metadata: Vec::new(),
    };
    proof {
        assert(payload@.subrange(0, payload@.len() as int) =~= payload@);
        assert(st@ =~= empty_stream(payload@));
    }
    let k_channel_id: Vec<char> = vec!['c', 'h', 'a', 'n', 'n', 'e', 'l', '-', 'i', 'd'];
    let k_tvg_id: Vec<char> = vec!['t', 'v', 'g', '-', 'i', 'd'];
    let k_tvg_epgid: Vec<char> = vec!['t', 'v', 'g', '-', 'e', 'p', 'g', 'i', 'd'];
    let k_tvg_name: Vec<char> = vec!['t', 'v', 'g', '-', 'n', 'a', 'm', 'e'];
    let k_tvg_chno: Vec<char> = vec!['t', 'v', 'g', '-', 'c', 'h', 'n', 'o'];
    let k_tvg_logo: Vec<char> = vec!['t', 'v', 'g', '-', 'l', 'o', 'g', 'o'];
    let k_tvg_group: Vec<char> = vec!['t', 'v', 'g', '-', 'g', 'r', 'o', 'u', 'p'];
    let k_group_title: Vec<char> = vec!['g', 'r', 'o', 'u', 'p', '-', 't', 'i', 't', 'l', 'e'];
    let k_tvg_url: Vec<char> = vec!['t', 'v', 'g', '-', 'u', 'r', 'l'];
    proof {
        assert(k_channel_id@ =~= key_channel_id());
        assert(k_tvg_id@ =~= key_tvg_id());
        assert(k_tvg_epgid@ =~= key_tvg_epgid());
        assert(k_tvg_name@ =~= key_tvg_name());
        assert(k_tvg_chno@ =~= key_tvg_chno());
        assert(k_tvg_logo@ =~= key_tvg_logo());
        assert(k_tvg_group@ =~= key_tvg_group());
        assert(k_group_title@ =~= key_group_title());
        assert(k_tvg_url@ =~= key_tvg_url());
    }
    let mut i: usize = 0;
    proof {
        assert(aseq.skip(0) =~= aseq);
    }
    while i < attrs.len()
        invariant
            i <= attrs@.len(),
            pair_views(attrs@) == aseq,
            apply_attrs(st@, aseq.skip(i as int)) == apply_attrs(empty_stream(payload@), aseq),
            k_channel_id@ == key_channel_id(),
            k_tvg_id@ == key_tvg_id(),
            k_tvg_epgid@ == key_tvg_epgid(),
            k_tvg_name@ == key_tvg_name(),
            k_tvg_chno@ == key_tvg_chno(),
            k_tvg_logo@ == key_tvg_logo(),
            k_tvg_group@ == key_tvg_group(),
            k_group_title@ == key_group_title(),
            k_tvg_url@ == key_tvg_url(),
        decreases attrs.len() - i,
    {
        let ghost pre = st@;
        let ghost rest = aseq.skip(i as int);
        proof {
            assert(rest[0] == aseq[i as int]);
            assert(rest.skip(1) =~= aseq.skip(i as int + 1));
        }
        let (key, val) = (subvec(&attrs[i].0, 0, attrs[i].0.len()), subvec(
            &attrs[i].1,
            0,
            attrs[i].1.len(),
        ));
        proof {
            assert(key@ =~= aseq[i as int].0);
            assert(val@ =~= aseq[i as int].1);
        }
        let lk = lower_chars(&key);
        if chars_eq(&lk, &k_channel_id) || chars_eq(&lk, &k_tvg_id) {
            st.id = Some(val);
        } else if chars_eq(&lk, &k_tvg_epgid) {
            st.epg_id = Some(val);
        } else if chars_eq(&lk, &k_tvg_name) {
            st.name = Some(val);
        } else if chars_eq(&lk, &k_tvg_chno) {
            st.channel_number = Some(val);
        } else if chars_eq(&lk, &k_tvg_logo) {
            st.logo = Some(val);
        } else if chars_eq(&lk, &k_tvg_group) || chars_eq(&lk, &k_group_title) {
            st.group = Some(val);
        } else if chars_eq(&lk, &k_tvg_url) {
            st.url = val;
        } else {
            let nm = meta_insert_exec(&st.metadata, key, val);
            st.metadata = nm;
        }
        proof {
            assert(st@ =~= apply_attr(pre, aseq[i as int].0, aseq[i as int].1));
        }
        i = i + 1;
    }
    proof {
        assert(aseq.skip(i as int) =~= Seq::<(Seq<char>, Seq<char>)>::empty());
    }
    let ghost s1 = apply_attrs(empty_stream(payload@), aseq);
    assert(st@ == s1);
    // trailing description after the last comma
    let dlen = directive.len();
    let mut kk: usize = dlen;
    while kk > 0 && directive[kk - 1] != ','
        invariant
            kk <= dlen == directive@.len(),
            last_char_index(directive@, dlen as int - 1, ',') == last_char_index(
                directive@,
                kk as int - 1,
                ',',
            ),
        decreases kk,
    {
        kk = kk - 1;
    }
    let mut desc: Option<Vec<char>> = None;
    if kk > 0 {
        assert(last_char_index(directive@, dlen as int - 1, ',') == kk - 1);
        let t = subvec(directive, kk, dlen);
        let mut a: usize = 0;
        while a < t.len() && is_space_char(t[a])
            invariant
                a <= t@.len(),
            first_nonspace(t@, 0) == first_nonspace(t@, a as int),
            decreases t.len() - a,
        {
            a = a + 1;
        }
        assert(first_nonspace(t@, 0) == a as int);
        if a < t.len() {
            let d = subvec(&t, a, t.len());
            proof {
                assert(d@ =~= t@.skip(a as int));
            }
            desc = Some(d);
        }
    } else {
        assert(last_char_index(directive@, dlen as int - 1, ',') == -1);
    }
    let ghost s2 = (match description_of(directive@) {
        Some(d) => StreamView {
            description: Some(d),
            name: if s1.name is None {
                Some(d)
            } else {
                s1.name
            },
            ..s1
        },
        None => s1,
    });
    match desc {
        Some(d) => {
            if st.name.is_none() {
                st.name = Some(subvec(&d, 0, d.len()));
                proof {
                    assert(d@.subrange(0, d@.len() as int) =~= d@);
                }
            }
            st.description = Some(d);
        },
        None => {},
    }
    assert(st@ =~= s2);
    if st.id.is_some() && st.epg_id.is_none() {
        let idc = match &st.id {
            Some(v) => subvec(v, 0, v.len()),
            None => Vec::new(),
        };
        proof {
            assert(idc@ =~= s2.id->0);
        }
        st.epg_id = Some(idc);
    }
    assert(st@ =~= stream_of(directive@, payload@));
    let s = Stream {
        url: string_from_chars(&st.url),
        id: opt_string(st.id),
        name: opt_string(st.name),
        description: opt_string(st.description),
        channel_number: opt_string(st.channel_number),
        logo: opt_string(st.logo),
        group: opt_string(st.group),
        epg_id: opt_string(st.epg_id),
        metadata: {
            let mut md: Vec<(String, String)> = Vec::new();
            let mut j: usize = 0;
            while j < st.metadata.len()
                invariant
                    j <= st.metadata@.len(),
                    md@.len() == j as int,
                    forall|k: int|
                        0 <= k < j ==> (md@[k].0@, md@[k].1@) == pair_views(st.metadata@)[k],
                decreases st.metadata.len() - j,
            {
                let p0 = string_from_chars(&st.metadata[j].0);
                let p1 = string_from_chars(&st.metadata[j].1);
                md.push((p0, p1));
                j = j + 1;
            }
            md
        },
    };
    proof {
        assert(s@.metadata =~= pair_views(st.metadata@));
        assert(s@ =~= stream_of(directive@, payload@));
    }
    s
}

impl Playlist {
    /// Parse manifest text into a playlist. Total: malformed entries are
    /// dropped, never reported; empty input yields an empty playlist.
    pub fn from_text(text: &str) -> (p: Playlist)
        ensures
            p@ == parse_spec(text@),
    {
        let chars = chars_vec(text);
        let n = chars.len();
        let mut lines: Vec<Vec<char>> = Vec::new();
        if n > 0 {
            let upto: usize = if chars[n - 1] == '\n' {
                n - 1
            } else {
                n
            };
            let ghost t = chars@.take(upto as int);
            proof {
                assert(chars@.take(chars@.len() as int) =~= chars@);
            }
            assert(lines_of(text@) == split_from(t, 0));
            let mut start: usize = 0;
            loop
                invariant_except_break
                    start <= upto <= n == chars@.len(),
                    t == chars@.take(upto as int),
                    split_from(t, 0) =~= lines@.map_values(|v: Vec<char>| v@) + split_from(
                        t,
                        start as int,
                    ),
                ensures
                    split_from(t, 0) =~= lines@.map_values(|v: Vec<char>| v@),
                decreases upto - start,
            {
                let mut k: usize = start;
                while k < upto && chars[k] != '\n'
                    invariant
                        start <= k <= upto <= chars@.len(),
                        t == chars@.take(upto as int),
                        find_char(t, start as int, '\n') == find_char(t, k as int, '\n'),
                    decreases upto - k,
                {
                    k = k + 1;
                }
                assert(find_char(t, start as int, '\n') == k as int);
                let piece = subvec(&chars, start, k);
                proof {
                    assert(piece@ =~= t.subrange(start as int, k as int));
                }
                let ghost old_lines = lines@.map_values(|v: Vec<char>| v@);
                lines.push(piece);
                proof {
                    assert(lines@.map_values(|v: Vec<char>| v@) =~= old_lines + seq![
                        t.subrange(start as int, k as int),
                    ]);
                }
                if k >= upto {
                    proof {
                        assert(split_from(t, start as int) =~= seq![
                            t.subrange(start as int, t.len() as int),
                        ]);
                        assert(split_from(t, 0) =~= lines@.map_values(|v: Vec<char>| v@));
                    }
                    break ;
                }
                start = k + 1;
            }
            assert(lines@.map_values(|v: Vec<char>| v@) =~= lines_of(text@));
        } else {
            assert(lines@.map_values(|v: Vec<char>| v@) =~= lines_of(text@));
        }
        // trim every line
        let mut tlines: Vec<Vec<char>> = Vec::new();
        let mut i: usize = 0;
        while i < lines.len()
            invariant
                i <= lines@.len(),
                lines@.map_values(|v: Vec<char>| v@) == lines_of(text@),
                tlines@.len() == i as int,
                forall|k: int| 0 <= k < i ==> tlines@[k]@ == manifest_lines(text@)[k],
            decreases lines.len() - i,
        {
            tlines.push(trim_chars(&lines[i]));
            i = i + 1;
        }
        let ghost ls = tlines@.map_values(|v: Vec<char>| v@);
        proof {
            assert(ls =~= manifest_lines(text@));
        }
        // pair directive lines with their payload lines
        let p_ext: Vec<char> = vec!['#', 'E', 'X', 'T'];
        let p_extinf: Vec<char> = vec!['#', 'E', 'X', 'T', 'I', 'N', 'F'];
        proof {
            assert(p_ext@ =~= ext_prefix());
            assert(p_extinf@ =~= extinf_prefix());
        }
        let m = tlines.len();
        let mut streams: Vec<Stream> = Vec::new();
        let ghost mut done: Seq<(Seq<char>, Seq<char>)> = Seq::empty();
        let mut j: usize = 0;
        while j < m && j + 1 < m
            invariant
                j <= m == tlines@.len(),
                ls == tlines@.map_values(|v: Vec<char>| v@),
                ls == manifest_lines(text@),
                p_ext@ == ext_prefix(),
                p_extinf@ == extinf_prefix(),
                entries_from(ls, 0) =~= done + entries_from(ls, j as int),
                streams@.len() == done.len(),
                forall|k: int|
                    0 <= k < done.len() ==> streams@[k]@ == stream_of(done[k].0, done[k].1),
            decreases m - j,
        {
            if has_prefix_exec(&tlines[j], &p_extinf) && !has_prefix_exec(&tlines[j + 1], &p_ext) {
                let s = stream_from_entry(&tlines[j], &tlines[j + 1]);
                streams.push(s);
                proof {
                    assert(entries_from(ls, j as int) =~= seq![(ls[j as int], ls[j as int + 1])]
                        + entries_from(ls, j as int + 1));
                    done = done + seq![(ls[j as int], ls[j as int + 1])];
                }
            } else {
                proof {
                    assert(entries_from(ls, j as int) =~= entries_from(ls, j as int + 1));
                }
            }
            j = j + 1;
        }
        proof {
            assert(entries_from(ls, j as int) =~= Seq::<(Seq<char>, Seq<char>)>::empty());
            assert(done =~= manifest_entries(text@));
        }
        let p = Playlist { streams };
        proof {
            assert(p@ =~= parse_spec(text@));
        }
        p
    }
}

// ---------------------------------------------------------------------------
// Laws
// ---------------------------------------------------------------------------

/// Parsing is deterministic: two parses of the same text yield the same
/// playlist, so parsing is idempotent.
pub proof fn lemma_parse_deterministic(
    text: Seq<char>,
    first: Seq<StreamView>,
    second: Seq<StreamView>,
)
    requires
        first == parse_spec(text),
        second == parse_spec(text),
    ensures
        first == second,
{
}

/// Order preservation: the parse has exactly one stream per logical entry,
/// and the `i`-th stream comes from the `i`-th entry of the source text.
pub proof fn lemma_parse_preserves_order(text: Seq<char>, i: int)
    requires
        0 <= i < manifest_entries(text).len(),
    ensures
        parse_spec(text).len() == manifest_entries(text).len(),
        parse_spec(text)[i] == stream_of(manifest_entries(text)[i].0, manifest_entries(text)[i].1),
{
}

} // verus!
