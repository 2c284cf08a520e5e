//! Bookkeeping of the download manager: which files of which asset wait for
//! which chunks, where each chunk can be fetched from, which chunks are
//! paused, and the list of download entries.

use vstd::prelude::*;
use crate::download_item::{
    EpicDownloadItem, ItemType, PostDownloadAction, same_action, PauseRequest, CancelRequest,
    spec_pause_request, spec_cancel_request,
};
use crate::str_map::StrMap;
use crate::text::clone_opt_string;
pub use crate::text::strs;
use crate::outside::random_below;
use crate::download_item::new_actions;
use vstd::string::*;

verus! {

/// One piece of a file: `size` bytes at `offset` in the chunk `guid`.
pub struct ChunkPart {
    pub guid: String,
    pub link: Option<String>,
    pub offset: u128,
    pub size: u128,
}

pub struct ChunkPartView {
    pub guid: Seq<char>,
    pub link: Option<Seq<char>>,
    pub offset: u128,
    pub size: u128,
}

impl View for ChunkPart {
    type V = ChunkPartView;

    open spec fn view(&self) -> ChunkPartView {
        ChunkPartView {
            guid: self.guid@,
            link: match self.link {
                Some(l) => Some(l@),
                None => None,
            },
            offset: self.offset,
            size: self.size,
        }
    }
}

/// A file of an asset being assembled from chunks.
pub struct DownloadedFile {
    pub asset: String,
    pub release: String,
    pub name: String,
    pub chunks: Vec<ChunkPart>,
    pub finished_chunks: Vec<ChunkPart>,
    pub hash: String,
}

pub struct DownloadedFileView {
    pub asset: Seq<char>,
    pub release: Seq<char>,
    pub name: Seq<char>,
    pub chunks: Seq<ChunkPartView>,
    pub finished_chunks: Seq<ChunkPartView>,
    pub hash: Seq<char>,
}

pub open spec fn parts_view(s: Seq<ChunkPart>) -> Seq<ChunkPartView> {
    s.map_values(|p: ChunkPart| p@)
}

impl View for DownloadedFile {
    type V = DownloadedFileView;

    open spec fn view(&self) -> DownloadedFileView {
        DownloadedFileView {
            asset: self.asset@,
            release: self.release@,
            name: self.name@,
            chunks: parts_view(self.chunks@),
            finished_chunks: parts_view(self.finished_chunks@),
            hash: self.hash@,
        }
    }
}

pub fn clone_part(p: &ChunkPart) -> (r: ChunkPart)
    ensures
        r@ == p@,
{
    ChunkPart {
        guid: p.guid.clone(),
        link: match &p.link {
            Some(l) => Some(l.clone()),
            None => None,
        },
        offset: p.offset,
        size: p.size,
    }
}

pub fn clone_parts(v: &Vec<ChunkPart>) -> (r: Vec<ChunkPart>)
    ensures
        parts_view(r@) == parts_view(v@),
{
    let mut r: Vec<ChunkPart> = Vec::new();
    let mut i: usize = 0;
    while i < v.len()
        invariant
            i <= v@.len(),
            r@.len() == i,
            forall|j: int| 0 <= j < i ==> (#[trigger] r@[j])@ == v@[j]@,
        decreases v@.len() - i,
    {
        r.push(clone_part(&v[i]));
        i = i + 1;
    }
    assert(parts_view(r@) =~= parts_view(v@));
    r
}

pub fn clone_file(f: &DownloadedFile) -> (r: DownloadedFile)
    ensures
        r@ == f@,
{
    DownloadedFile {
        asset: f.asset.clone(),
        release: f.release.clone(),
        name: f.name.clone(),
        chunks: clone_parts(&f.chunks),
        finished_chunks: clone_parts(&f.finished_chunks),
        hash: f.hash.clone(),
    }
}

pub fn clone_strings(v: &Vec<String>) -> (r: Vec<String>)
    ensures
        r@ == v@,
{
    let mut r: Vec<String> = Vec::new();
    let mut i: usize = 0;
    while i < v.len()
        invariant
            i <= v@.len(),
            r@ == v@.take(i as int),
        decreases v@.len() - i,
    {
        r.push(v[i].clone());
        i = i + 1;
        assert(r@ =~= v@.take(i as int));
    }
    assert(v@.take(v@.len() as int) =~= v@);
    r
}

/// The text lists stored under each key of a map of string vectors.
pub open spec fn str_lists(m: Map<Seq<char>, Vec<String>>) -> Map<Seq<char>, Seq<Seq<char>>> {
    m.map_values(|v: Vec<String>| strs(v@))
}

/// The list under `k`, or the empty list.
pub open spec fn list_or_empty(m: Map<Seq<char>, Seq<Seq<char>>>, k: Seq<char>) -> Seq<Seq<char>> {
    if m.contains_key(k) {
        m[k]
    } else {
        Seq::empty()
    }
}

/// How often `g` occurs in `s`.
pub open spec fn count_of(s: Seq<Seq<char>>, g: Seq<char>) -> nat
    decreases s.len(),
{
    if s.len() == 0 {
        0
    } else {
        count_of(s.drop_last(), g) + if s.last() == g {
            1nat
        } else {
            0nat
        }
    }
}

/// `n` copies of `x`.
pub open spec fn repeat(x: Seq<char>, n: nat) -> Seq<Seq<char>> {
    Seq::new(n, |i: int| x)
}

/// The elements of `s` that are not in `known`, each at its first occurrence.
pub open spec fn fresh_in(s: Seq<Seq<char>>, known: Set<Seq<char>>) -> Seq<Seq<char>>
    decreases s.len(),
{
    if s.len() == 0 {
        Seq::empty()
    } else {
        let prev = fresh_in(s.drop_last(), known);
        if known.contains(s.last()) || s.drop_last().contains(s.last()) {
            prev
        } else {
            prev.push(s.last())
        }
    }
}

/// The guids of a list of chunk parts.
pub open spec fn guids_of(s: Seq<ChunkPart>) -> Seq<Seq<char>> {
    s.map_values(|p: ChunkPart| p.guid@)
}

/// The file lists per chunk after `file` was appended once for each
/// occurrence of a chunk in `gs`.
pub open spec fn with_file_per_chunk(
    m: Map<Seq<char>, Seq<Seq<char>>>,
    gs: Seq<Seq<char>>,
    file: Seq<char>,
) -> Map<Seq<char>, Seq<Seq<char>>> {
    Map::new(
        |g: Seq<char>| m.contains_key(g) || gs.contains(g),
        |g: Seq<char>| list_or_empty(m, g) + repeat(file, count_of(gs, g)),
    )
}

/// The key under which a file of an asset is tracked: "asset/release/name".
pub open spec fn file_key(asset: Seq<char>, release: Seq<char>, name: Seq<char>) -> Seq<char> {
    asset + "/"@ + release + "/"@ + name
}

/// The download manager's records.
pub struct EpicDownloadManager {
    pub download_items: StrMap<EpicDownloadItem>,
    pub downloaded_files: StrMap<DownloadedFile>,
    /// For each chunk, the files waiting for it (once per use).
    pub downloaded_chunks: StrMap<Vec<String>>,
    /// For each asset, the chunks it uses (once per use).
    pub asset_guids: StrMap<Vec<String>>,
    /// For each chunk, the (url, path) pairs of its paused downloads.
    pub paused_asset_chunks: StrMap<Vec<(String, String)>>,
    /// For each chunk, the urls it can be fetched from.
    pub chunk_urls: StrMap<Vec<String>>,
}

proof fn lemma_str_lists_insert(m: Map<Seq<char>, Vec<String>>, k: Seq<char>, v: Vec<String>)
    ensures
        str_lists(m.insert(k, v)) == str_lists(m).insert(k, strs(v@)),
{
    assert(str_lists(m.insert(k, v)) =~= str_lists(m).insert(k, strs(v@)));
}

proof fn lemma_str_lists_remove(m: Map<Seq<char>, Vec<String>>, k: Seq<char>)
    ensures
        str_lists(m.remove(k)) == str_lists(m).remove(k),
{
    assert(str_lists(m.remove(k)) =~= str_lists(m).remove(k));
}

proof fn lemma_count_push(s: Seq<Seq<char>>, x: Seq<char>, g: Seq<char>)
    ensures
        count_of(s.push(x), g) == count_of(s, g) + if x == g {
            1nat
        } else {
            0nat
        },
{
    assert(s.push(x).drop_last() =~= s);
}

pub proof fn lemma_count_zero(s: Seq<Seq<char>>, g: Seq<char>)
    requires
        !s.contains(g),
    ensures
        count_of(s, g) == 0,
    decreases s.len(),
{
    if s.len() > 0 {
        assert(s.drop_last().len() < s.len());
        if s.drop_last().contains(g) {
            let i = choose|i: int| 0 <= i < s.drop_last().len() && s.drop_last()[i] == g;
            assert(s[i] == g);
        }
        assert(s.last() != g) by {
            if s.last() == g {
                assert(s[s.len() - 1] == g);
            }
        }
        lemma_count_zero(s.drop_last(), g);
    }
}

proof fn lemma_fresh_push(s: Seq<Seq<char>>, x: Seq<char>, known: Set<Seq<char>>)
    ensures
        fresh_in(s.push(x), known) == if known.contains(x) || s.contains(x) {
            fresh_in(s, known)
        } else {
            fresh_in(s, known).push(x)
        },
{
    assert(s.push(x).drop_last() =~= s);
}

proof fn lemma_with_file_step(
    m: Map<Seq<char>, Seq<Seq<char>>>,
    t: Seq<Seq<char>>,
    g0: Seq<char>,
    key: Seq<char>,
)
    ensures
        with_file_per_chunk(m, t.push(g0), key) == with_file_per_chunk(m, t, key).insert(
            g0,
            list_or_empty(with_file_per_chunk(m, t, key), g0).push(key),
        ),
        with_file_per_chunk(m, t, key).contains_key(g0) <==> (m.contains_key(g0) || t.contains(g0)),
{
    let w = with_file_per_chunk(m, t, key);
    let w2 = with_file_per_chunk(m, t.push(g0), key);
    assert forall|g: Seq<char>| t.push(g0).contains(g) <==> (t.contains(g) || g == g0) by {
        if t.push(g0).contains(g) {
            let i = choose|i: int| 0 <= i < t.push(g0).len() && t.push(g0)[i] == g;
            if i < t.len() {
                assert(t[i] == g);
            }
        }
        if t.contains(g) {
            let i = choose|i: int| 0 <= i < t.len() && t[i] == g;
            assert(t.push(g0)[i] == g);
        }
        if g == g0 {
            assert(t.push(g0)[t.len() as int] == g);
        }
    }
    assert forall|g: Seq<char>| #[trigger] w2.contains_key(g) implies w2[g] == w.insert(
        g0,
        list_or_empty(w, g0).push(key),
    )[g] by {
        lemma_count_push(t, g0, g);
        if !t.contains(g) {
            lemma_count_zero(t, g);
            assert(repeat(key, 0) =~= Seq::<Seq<char>>::empty());
            assert(list_or_empty(m, g) + repeat(key, 0) =~= list_or_empty(m, g));
        }
        if g == g0 {
            assert(repeat(key, count_of(t, g) + 1) =~= repeat(key, count_of(t, g)).push(key));
            assert(list_or_empty(w, g0) == list_or_empty(m, g0) + repeat(key, count_of(t, g)));
            assert(list_or_empty(m, g0) + repeat(key, count_of(t, g)).push(key) =~= (list_or_empty(
                m,
                g0,
            ) + repeat(key, count_of(t, g))).push(key));
        }
    }
    assert(w2 =~= w.insert(g0, list_or_empty(w, g0).push(key)));
}

/// "asset/release/name"
fn file_key_string(asset: &String, release: &String, name: &String) -> (r: String)
    ensures
        r@ == file_key(asset@, release@, name@),
{
    let mut r = String::new();
    r.append(asset.as_str());
    r.append("/");
    r.append(release.as_str());
    r.append("/");
    r.append(name.as_str());
    proof {
        reveal_strlit("/");
    }
    r
}

/// `s` without any occurrence of `x`.
pub open spec fn without(s: Seq<Seq<char>>, x: Seq<char>) -> Seq<Seq<char>>
    decreases s.len(),
{
    if s.len() == 0 {
        s
    } else if s.last() == x {
        without(s.drop_last(), x)
    } else {
        without(s.drop_last(), x).push(s.last())
    }
}

proof fn lemma_without_idempotent(s: Seq<Seq<char>>, x: Seq<char>)
    ensures
        without(without(s, x), x) == without(s, x),
    decreases s.len(),
{
    if s.len() > 0 {
        lemma_without_idempotent(s.drop_last(), x);
        if s.last() != x {
            let w = without(s.drop_last(), x);
            assert(w.push(s.last()).drop_last() =~= w);
        }
    }
}

/// A copy of `list` without the entries equal to `x`.
fn remove_all(list: &Vec<String>, x: &String) -> (r: Vec<String>)
    ensures
        strs(r@) == without(strs(list@), x@),
{
    let mut r: Vec<String> = Vec::new();
    let mut i: usize = 0;
    while i < list.len()
        invariant
            i <= list@.len(),
            strs(r@) == without(strs(list@.take(i as int)), x@),
        decreases list@.len() - i,
    {
        proof {
            assert(strs(list@.take(i + 1)).drop_last() =~= strs(list@.take(i as int)));
            assert(strs(list@.take(i + 1)).last() == list@[i as int]@);
        }
        if list[i] != *x {
            let ghost prev = r@;
            r.push(list[i].clone());
            proof {
                assert(strs(r@) =~= strs(prev).push(list@[i as int]@));
            }
        }
        i = i + 1;
    }
    proof {
        assert(list@.take(list@.len() as int) =~= list@);
    }
    r
}

/// The chunk lists after `file` stopped waiting for the chunks in `gs`.
pub open spec fn without_file(
    m: Map<Seq<char>, Seq<Seq<char>>>,
    gs: Seq<Seq<char>>,
    file: Seq<char>,
) -> Map<Seq<char>, Seq<Seq<char>>> {
    Map::new(
        |g: Seq<char>| m.contains_key(g),
        |g: Seq<char>|
            if gs.contains(g) {
                without(m[g], file)
            } else {
                m[g]
            },
    )
}

/// Whether the chunk `g` has no waiting file left once `file` stops waiting.
pub open spec fn chunk_freed(m: Map<Seq<char>, Seq<Seq<char>>>, file: Seq<char>, g: Seq<char>) -> bool {
    m.contains_key(g) && without(m[g], file).len() == 0
}

/// The elements of `s` that satisfy `chunk_freed`, in order, repeats kept.
pub open spec fn freed_chunks(
    m: Map<Seq<char>, Seq<Seq<char>>>,
    file: Seq<char>,
    s: Seq<Seq<char>>,
) -> Seq<Seq<char>>
    decreases s.len(),
{
    if s.len() == 0 {
        s
    } else if chunk_freed(m, file, s.last()) {
        freed_chunks(m, file, s.drop_last()).push(s.last())
    } else {
        freed_chunks(m, file, s.drop_last())
    }
}

proof fn lemma_contains_push(s: Seq<Seq<char>>, x: Seq<char>, g: Seq<char>)
    ensures
        s.push(x).contains(g) <==> (s.contains(g) || g == x),
{
    if s.push(x).contains(g) {
        let i = choose|i: int| 0 <= i < s.push(x).len() && s.push(x)[i] == g;
        if i < s.len() {
            assert(s[i] == g);
        }
    }
    if s.contains(g) {
        let i = choose|i: int| 0 <= i < s.len() && s[i] == g;
        assert(s.push(x)[i] == g);
    }
    if g == x {
        assert(s.push(x)[s.len() as int] == g);
    }
}

/// The views of the tracked files.
pub open spec fn file_views(m: Map<Seq<char>, DownloadedFile>) -> Map<Seq<char>, DownloadedFileView> {
    m.map_values(|f: DownloadedFile| f@)
}

/// `j` is the first position of a part of chunk `g` in `cs`.
pub open spec fn is_first_with_guid(cs: Seq<ChunkPartView>, g: Seq<char>, j: int) -> bool {
    0 <= j < cs.len() && cs[j].guid == g && forall|i: int| 0 <= i < j ==> cs[i].guid != g
}

/// `f` after its first part of chunk `g` was marked finished `n` times (if it
/// has such a part).
pub open spec fn with_finished(f: DownloadedFileView, g: Seq<char>, n: nat) -> DownloadedFileView {
    if exists|j: int| is_first_with_guid(f.chunks, g, j) {
        let j = choose|j: int| is_first_with_guid(f.chunks, g, j);
        DownloadedFileView {
            finished_chunks: f.finished_chunks + Seq::new(n, |i: int| f.chunks[j]),
            ..f
        }
    } else {
        f
    }
}

/// The files after chunk `g` finished, where `a` lists the files that
/// waited for it (once per use).
pub open spec fn files_after_chunk(
    m: Map<Seq<char>, DownloadedFileView>,
    a: Seq<Seq<char>>,
    g: Seq<char>,
) -> Map<Seq<char>, DownloadedFileView> {
    Map::new(|k: Seq<char>| m.contains_key(k), |k: Seq<char>| with_finished(m[k], g, count_of(a, k)))
}

/// The files that have all their parts once chunk `g` finished, as they
/// stand at each use in `a` that completes them.
pub open spec fn ready_files(
    m: Map<Seq<char>, DownloadedFileView>,
    a: Seq<Seq<char>>,
    g: Seq<char>,
) -> Seq<(Seq<char>, DownloadedFileView)>
    decreases a.len(),
{
    if a.len() == 0 {
        Seq::empty()
    } else {
        let prev = ready_files(m, a.drop_last(), g);
        let k = a.last();
        let f = with_finished(m[k], g, count_of(a, k));
        if m.contains_key(k) && f.finished_chunks.len() == f.chunks.len() {
            prev.push((k, f))
        } else {
            prev
        }
    }
}

pub open spec fn named_files_view(s: Seq<(String, DownloadedFile)>) -> Seq<(Seq<char>, DownloadedFileView)> {
    s.map_values(|p: (String, DownloadedFile)| (p.0@, p.1@))
}

proof fn lemma_file_views_insert(m: Map<Seq<char>, DownloadedFile>, k: Seq<char>, v: DownloadedFile)
    ensures
        file_views(m.insert(k, v)) == file_views(m).insert(k, v@),
{
    assert(file_views(m.insert(k, v)) =~= file_views(m).insert(k, v@));
}

proof fn lemma_file_views_remove(m: Map<Seq<char>, DownloadedFile>, k: Seq<char>)
    ensures
        file_views(m.remove(k)) == file_views(m).remove(k),
{
    assert(file_views(m.remove(k)) =~= file_views(m).remove(k));
}

proof fn lemma_with_finished_step(f: DownloadedFileView, g: Seq<char>, n: nat, j: int)
    requires
        is_first_with_guid(f.chunks, g, j),
    ensures
        with_finished(f, g, n + 1) == (DownloadedFileView {
            finished_chunks: with_finished(f, g, n).finished_chunks.push(f.chunks[j]),
            ..f
        }),
        with_finished(f, g, n) == (DownloadedFileView {
            finished_chunks: f.finished_chunks + Seq::new(n, |i: int| f.chunks[j]),
            ..f
        }),
{
    let j2 = choose|j2: int| is_first_with_guid(f.chunks, g, j2);
    assert(j2 == j) by {
        if j2 < j {
            assert(f.chunks[j2].guid != g);
        }
        if j < j2 {
            assert(f.chunks[j].guid != g);
        }
    }
    assert(f.finished_chunks + Seq::new(n + 1, |i: int| f.chunks[j]) =~= (f.finished_chunks
        + Seq::new(n, |i: int| f.chunks[j])).push(f.chunks[j]));
}

proof fn lemma_with_finished_none(f: DownloadedFileView, g: Seq<char>, n: nat)
    requires
        forall|i: int| 0 <= i < f.chunks.len() ==> f.chunks[i].guid != g,
    ensures
        with_finished(f, g, n) == f,
{
}

/// `i` is the first position in `list` of a file that is tracked in `files`.
pub open spec fn first_tracked(list: Seq<Seq<char>>, files: Map<Seq<char>, DownloadedFileView>, i: int) -> bool {
    0 <= i < list.len() && files.contains_key(list[i]) && forall|j: int|
        0 <= j < i ==> !files.contains_key(list[j])
}

/// `n` is `o` with its speed text emptied.
pub open spec fn speed_cleared(o: EpicDownloadItem, n: EpicDownloadItem) -> bool {
    &&& n == (EpicDownloadItem { speed: n.speed, ..o })
    &&& n.speed is Some
    &&& n.speed->0@.len() == 0
}

/// The texts of a list of (url, path) pairs.
pub open spec fn pairs_view(v: Seq<(String, String)>) -> Seq<(Seq<char>, Seq<char>)> {
    v.map_values(|p: (String, String)| (p.0@, p.1@))
}

/// The paused (url, path) lists per chunk.
pub open spec fn pair_lists(m: Map<Seq<char>, Vec<(String, String)>>) -> Map<
    Seq<char>,
    Seq<(Seq<char>, Seq<char>)>,
> {
    m.map_values(|v: Vec<(String, String)>| pairs_view(v@))
}

pub open spec fn pairs_or_empty(m: Map<Seq<char>, Seq<(Seq<char>, Seq<char>)>>, k: Seq<char>) -> Seq<
    (Seq<char>, Seq<char>),
> {
    if m.contains_key(k) {
        m[k]
    } else {
        Seq::empty()
    }
}

/// `m` without the keys that occur in `s`.
pub open spec fn drop_listed<V>(m: Map<Seq<char>, V>, s: Seq<Seq<char>>) -> Map<Seq<char>, V> {
    m.remove_keys(Set::new(|k: Seq<char>| s.contains(k)))
}

/// The elements of `s` that are keys of `dom`, each at its first occurrence.
pub open spec fn present_once(s: Seq<Seq<char>>, dom: Set<Seq<char>>) -> Seq<Seq<char>>
    decreases s.len(),
{
    if s.len() == 0 {
        Seq::empty()
    } else {
        let prev = present_once(s.drop_last(), dom);
        if dom.contains(s.last()) && !s.drop_last().contains(s.last()) {
            prev.push(s.last())
        } else {
            prev
        }
    }
}

/// Each element of `gs` with the (url, path) list `m` holds for it.
pub open spec fn with_pairs(
    gs: Seq<Seq<char>>,
    m: Map<Seq<char>, Seq<(Seq<char>, Seq<char>)>>,
) -> Seq<(Seq<char>, Seq<(Seq<char>, Seq<char>)>)> {
    gs.map_values(|g: Seq<char>| (g, m[g]))
}

pub open spec fn pending_view(v: Seq<(String, Vec<(String, String)>)>) -> Seq<
    (Seq<char>, Seq<(Seq<char>, Seq<char>)>),
> {
    v.map_values(|p: (String, Vec<(String, String)>)| (p.0@, pairs_view(p.1@)))
}

/// The files that wait for any chunk listed in `gs`.
pub open spec fn files_of_chunks(m: Map<Seq<char>, Seq<Seq<char>>>, gs: Seq<Seq<char>>) -> Set<
    Seq<char>,
> {
    Set::new(
        |f: Seq<char>|
            exists|g: Seq<char>| gs.contains(g) && m.contains_key(g) && #[trigger] m[g].contains(f),
    )
}

pub open spec fn remove_opt<V>(m: Map<Seq<char>, V>, k: Option<String>) -> Map<Seq<char>, V> {
    match k {
        Some(k) => m.remove(k@),
        None => m,
    }
}

proof fn lemma_pair_lists_insert(
    m: Map<Seq<char>, Vec<(String, String)>>,
    k: Seq<char>,
    v: Vec<(String, String)>,
)
    ensures
        pair_lists(m.insert(k, v)) == pair_lists(m).insert(k, pairs_view(v@)),
{
    assert(pair_lists(m.insert(k, v)) =~= pair_lists(m).insert(k, pairs_view(v@)));
}

proof fn lemma_pair_lists_remove(m: Map<Seq<char>, Vec<(String, String)>>, k: Seq<char>)
    ensures
        pair_lists(m.remove(k)) == pair_lists(m).remove(k),
{
    assert(pair_lists(m.remove(k)) =~= pair_lists(m).remove(k));
}

proof fn lemma_present_once_push(s: Seq<Seq<char>>, x: Seq<char>, dom: Set<Seq<char>>)
    ensures
        present_once(s.push(x), dom) == if dom.contains(x) && !s.contains(x) {
            present_once(s, dom).push(x)
        } else {
            present_once(s, dom)
        },
{
    assert(s.push(x).drop_last() =~= s);
}

proof fn lemma_drop_listed_push<V>(m: Map<Seq<char>, V>, s: Seq<Seq<char>>, x: Seq<char>)
    ensures
        drop_listed(m, s.push(x)) == drop_listed(m, s).remove(x),
{
    assert forall|k: Seq<char>| s.push(x).contains(k) <==> (s.contains(k) || k == x) by {
        lemma_contains_push(s, x, k);
    }
    assert(drop_listed(m, s.push(x)) =~= drop_listed(m, s).remove(x));
}

/// The links of the parts of chunk `g` that carry one, in order.
pub open spec fn links_for(parts: Seq<ChunkPartView>, g: Seq<char>) -> Seq<Seq<char>>
    decreases parts.len(),
{
    if parts.len() == 0 {
        Seq::empty()
    } else {
        let prev = links_for(parts.drop_last(), g);
        let p = parts.last();
        if p.guid == g && p.link is Some {
            prev.push(p.link->0)
        } else {
            prev
        }
    }
}

/// The url lists per chunk after adding the links of `parts`.
pub open spec fn with_links(m: Map<Seq<char>, Seq<Seq<char>>>, parts: Seq<ChunkPartView>) -> Map<
    Seq<char>,
    Seq<Seq<char>>,
> {
    Map::new(
        |g: Seq<char>| m.contains_key(g) || links_for(parts, g).len() > 0,
        |g: Seq<char>| list_or_empty(m, g) + links_for(parts, g),
    )
}

/// Where the files of a download go.
#[derive(Debug)]
pub enum DownloadTarget {
    /// Below this vault directory.
    Vault(String),
    /// Into this directory, chosen by a copy action.
    Custom(String),
}

/// The directories of the copy actions, with their overwrite flags.
pub open spec fn copy_targets(actions: Seq<PostDownloadAction>) -> Seq<(Seq<char>, bool)>
    decreases actions.len(),
{
    if actions.len() == 0 {
        Seq::empty()
    } else {
        let prev = copy_targets(actions.drop_last());
        match actions.last() {
            PostDownloadAction::Copy(t, o) => prev.push((t@, o)),
            PostDownloadAction::NoVault => prev,
        }
    }
}

/// Whether the actions keep the file in the vault.
pub open spec fn keeps_vault(actions: Seq<PostDownloadAction>) -> bool {
    forall|i: int| 0 <= i < actions.len() ==> !(actions[i] is NoVault)
}

pub open spec fn targets_view(v: Seq<(String, bool)>) -> Seq<(Seq<char>, bool)> {
    v.map_values(|p: (String, bool)| (p.0@, p.1))
}

/// A fresh entry for an asset download.
pub open spec fn new_asset_item(
    item: EpicDownloadItem,
    asset: Seq<char>,
    release: Seq<char>,
    label: Option<Seq<char>>,
    target: Option<Seq<char>>,
) -> bool {
    &&& item.wf()
    &&& item.item_type == ItemType::Asset
    &&& item.asset is Some && item.asset->0@ == asset
    &&& item.release is Some && item.release->0@ == release
    &&& opt_view(item.label) == label
    &&& opt_view(item.target) == target
    &&& item.version is None && item.speed is None && item.path is None
    &&& !item.paused && !item.canceled
    &&& item.total_size == 0 && item.downloaded_size == 0
    &&& item.total_files == 0 && item.extracted_files == 0
    &&& item.speed_queue@.len() == 0
    &&& !item.cancel_enabled && !item.pause_enabled
}

pub open spec fn opt_view(o: Option<String>) -> Option<Seq<char>> {
    match o {
        Some(s) => Some(s@),
        None => None,
    }
}

impl EpicDownloadManager {
    pub open spec fn wf(&self) -> bool {
        &&& self.download_items.wf()
        &&& self.downloaded_files.wf()
        &&& self.downloaded_chunks.wf()
        &&& self.asset_guids.wf()
        &&& self.paused_asset_chunks.wf()
        &&& self.chunk_urls.wf()
        &&& forall|k: Seq<char>| #[trigger]
            self.download_items@.contains_key(k) ==> self.download_items@[k].wf()
    }

    /// An empty manager.
    pub fn new() -> (m: Self)
        ensures
            m.wf(),
            m.download_items@ == Map::<Seq<char>, EpicDownloadItem>::empty(),
            m.downloaded_files@ == Map::<Seq<char>, DownloadedFile>::empty(),
            m.downloaded_chunks@ == Map::<Seq<char>, Vec<String>>::empty(),
            m.asset_guids@ == Map::<Seq<char>, Vec<String>>::empty(),
            m.paused_asset_chunks@ == Map::<Seq<char>, Vec<(String, String)>>::empty(),
            m.chunk_urls@ == Map::<Seq<char>, Vec<String>>::empty(),
    {
        EpicDownloadManager {
            download_items: StrMap::new(),
            downloaded_files: StrMap::new(),
            downloaded_chunks: StrMap::new(),
            asset_guids: StrMap::new(),
            paused_asset_chunks: StrMap::new(),
            chunk_urls: StrMap::new(),
        }
    }
    /// Registers the file `filename` of asset `id` for download. The file
    /// waits for each of its chunks (once per use); each chunk that no file
    /// waited for before is returned, at its first use, to be fetched. The
    /// asset records the chunks it uses. An asset without a download entry is
    /// left alone.
    pub fn download_asset_file(
        &mut self,
        id: String,
        release: String,
        filename: String,
        chunks: Vec<ChunkPart>,
        hash: String,
    ) -> (fetch: Vec<String>)
        requires
            old(self).wf(),
        ensures
            final(self).wf(),
            !old(self).download_items@.contains_key(id@) ==> fetch@.len() == 0 && *final(self)
                == *old(self),
            old(self).download_items@.contains_key(id@) ==> {
                let key = file_key(id@, release@, filename@);
                let gs = guids_of(chunks@);
                &&& final(self).downloaded_files@ == old(self).downloaded_files@.insert(
                    key,
                    final(self).downloaded_files@[key],
                )
                &&& final(self).downloaded_files@[key]@ == (DownloadedFileView {
                    asset: id@,
                    release: release@,
                    name: filename@,
                    chunks: parts_view(chunks@),
                    finished_chunks: Seq::empty(),
                    hash: hash@,
                })
                &&& str_lists(final(self).downloaded_chunks@) == with_file_per_chunk(
                    str_lists(old(self).downloaded_chunks@),
                    gs,
                    key,
                )
                &&& str_lists(final(self).asset_guids@) == str_lists(old(self).asset_guids@).insert(
                    id@,
                    list_or_empty(str_lists(old(self).asset_guids@), id@) + gs,
                )
                &&& strs(fetch@) == fresh_in(gs, old(self).downloaded_chunks@.dom())
                &&& final(self).download_items == old(self).download_items
                &&& final(self).paused_asset_chunks == old(self).paused_asset_chunks
                &&& final(self).chunk_urls == old(self).chunk_urls
            },
    {
        if !self.download_items.contains_key(&id) {
            return Vec::new();
        }
        let key = file_key_string(&id, &release, &filename);
        let ghost gs = guids_of(chunks@);
        let ghost m0 = str_lists(self.downloaded_chunks@);
        let ghost old_guids = str_lists(self.asset_guids@);
        let mut guids: Vec<String> = match self.asset_guids.remove(&id) {
            Some(v) => v,
            None => Vec::new(),
        };
        proof {
            lemma_str_lists_remove(old(self).asset_guids@, id@);
        }
        let mut fetch: Vec<String> = Vec::new();
        let mut i: usize = 0;
        proof {
            assert(gs.take(0) =~= Seq::<Seq<char>>::empty());
            assert(m0 =~= with_file_per_chunk(m0, gs.take(0), key@));
            assert(strs(guids@) =~= list_or_empty(old_guids, id@) + gs.take(0));
            assert(strs(fetch@) =~= fresh_in(gs.take(0), old(self).downloaded_chunks@.dom()));
        }
        while i < chunks.len()
            invariant
                i <= chunks@.len(),
                gs == guids_of(chunks@),
                self.wf(),
                m0 == str_lists(old(self).downloaded_chunks@),
                old_guids == str_lists(old(self).asset_guids@),
                str_lists(self.downloaded_chunks@) == with_file_per_chunk(m0, gs.take(i as int), key@),
                strs(guids@) == list_or_empty(old_guids, id@) + gs.take(i as int),
                strs(fetch@) == fresh_in(gs.take(i as int), old(self).downloaded_chunks@.dom()),
                str_lists(self.asset_guids@) == old_guids.remove(id@),
                self.download_items == old(self).download_items,
                self.downloaded_files == old(self).downloaded_files,
                self.paused_asset_chunks == old(self).paused_asset_chunks,
                self.chunk_urls == old(self).chunk_urls,
            decreases chunks@.len() - i,
        {
            let g = chunks[i].guid.clone();
            let ghost before = self.downloaded_chunks@;
            proof {
                assert(gs.take(i + 1) =~= gs.take(i as int).push(g@));
                lemma_with_file_step(m0, gs.take(i as int), g@, key@);
                lemma_fresh_push(gs.take(i as int), g@, old(self).downloaded_chunks@.dom());
                lemma_str_lists_remove(before, g@);
            }
            let ghost prev_guids = guids@;
            guids.push(g.clone());
            proof {
                assert(strs(guids@) =~= strs(prev_guids).push(g@));
            }
            match self.downloaded_chunks.remove(&g) {
                Some(files) => {
                    let mut files = files;
                    files.push(key.clone());
                    proof {
                        lemma_str_lists_insert(before.remove(g@), g@, files);
                        assert(strs(files@) =~= strs(before[g@]@).push(key@));
                        assert(str_lists(before)[g@] == strs(before[g@]@));
                    }
                    self.downloaded_chunks.insert(g, files);
                    proof {
                        assert(str_lists(self.downloaded_chunks@) =~= with_file_per_chunk(
                            m0,
                            gs.take(i + 1),
                            key@,
                        ));
                    }
                },
                None => {
                    let mut files: Vec<String> = Vec::new();
                    files.push(key.clone());
                    proof {
                        lemma_str_lists_insert(before.remove(g@), g@, files);
                        assert(strs(files@) =~= Seq::<Seq<char>>::empty().push(key@));
                    }
                    self.downloaded_chunks.insert(g.clone(), files);
                    proof {
                        assert(str_lists(self.downloaded_chunks@) =~= with_file_per_chunk(
                            m0,
                            gs.take(i + 1),
                            key@,
                        ));
                    }
                    fetch.push(g);
                },
            }
            proof {
                assert(strs(guids@) =~= list_or_empty(old_guids, id@) + gs.take(i + 1));
                assert(strs(fetch@) =~= fresh_in(gs.take(i + 1), old(self).downloaded_chunks@.dom()));
            }
            i = i + 1;
        }
        proof {
            assert(gs.take(chunks@.len() as int) =~= gs);
            lemma_str_lists_insert(self.asset_guids@, id@, guids);
            assert(old_guids.remove(id@).insert(id@, strs(guids@)) =~= old_guids.insert(
                id@,
                strs(guids@),
            ));
        }
        self.asset_guids.insert(id.clone(), guids);
        let file = DownloadedFile {
            asset: id,
            release,
            name: filename,
            chunks,
            finished_chunks: Vec::new(),
            hash,
        };
        proof {
            assert(parts_view(file.finished_chunks@) =~= Seq::<ChunkPartView>::empty());
        }
        self.downloaded_files.insert(key, file);
        fetch
    }
    /// Once a file is assembled: the file is no longer tracked, it stops
    /// waiting for the chunks it finished, and every finished chunk that no
    /// file waits for any more is returned (once per finished use), so its
    /// temporary file can go. The emptied chunk lists stay.
    pub fn finalize_file_download(&mut self, file: &String, details: &DownloadedFile) -> (free: Vec<
        String,
    >)
        requires
            old(self).wf(),
        ensures
            final(self).wf(),
            final(self).downloaded_files@ == old(self).downloaded_files@.remove(file@),
            str_lists(final(self).downloaded_chunks@) == without_file(
                str_lists(old(self).downloaded_chunks@),
                guids_of(details.finished_chunks@),
                file@,
            ),
            strs(free@) == freed_chunks(
                str_lists(old(self).downloaded_chunks@),
                file@,
                guids_of(details.finished_chunks@),
            ),
            final(self).download_items == old(self).download_items,
            final(self).asset_guids == old(self).asset_guids,
            final(self).paused_asset_chunks == old(self).paused_asset_chunks,
            final(self).chunk_urls == old(self).chunk_urls,
    {
        let _ = self.downloaded_files.remove(file);
        let ghost m0 = str_lists(self.downloaded_chunks@);
        let ghost gs = guids_of(details.finished_chunks@);
        let mut free: Vec<String> = Vec::new();
        let mut i: usize = 0;
        proof {
            assert(gs.take(0) =~= Seq::<Seq<char>>::empty());
            assert(m0 =~= without_file(m0, gs.take(0), file@));
            assert(strs(free@) =~= freed_chunks(m0, file@, gs.take(0)));
        }
        while i < details.finished_chunks.len()
            invariant
                i <= details.finished_chunks@.len(),
                gs == guids_of(details.finished_chunks@),
                m0 == str_lists(old(self).downloaded_chunks@),
                self.wf(),
                str_lists(self.downloaded_chunks@) == without_file(m0, gs.take(i as int), file@),
                strs(free@) == freed_chunks(m0, file@, gs.take(i as int)),
                self.downloaded_files@ == old(self).downloaded_files@.remove(file@),
                self.download_items == old(self).download_items,
                self.asset_guids == old(self).asset_guids,
                self.paused_asset_chunks == old(self).paused_asset_chunks,
                self.chunk_urls == old(self).chunk_urls,
            decreases details.finished_chunks@.len() - i,
        {
            let g = &details.finished_chunks[i].guid;
            let ghost before = self.downloaded_chunks@;
            proof {
                assert(gs.take(i + 1) =~= gs.take(i as int).push(g@));
                assert(gs.take(i + 1).drop_last() =~= gs.take(i as int));
                lemma_str_lists_remove(before, g@);
                assert forall|h: Seq<char>| gs.take(i + 1).contains(h) <==> (gs.take(
                    i as int,
                ).contains(h) || h == g@) by {
                    lemma_contains_push(gs.take(i as int), g@, h);
                }
            }
            match self.downloaded_chunks.remove(g) {
                Some(list) => {
                    let rest = remove_all(&list, file);
                    let empty = rest.len() == 0;
                    proof {
                        lemma_str_lists_insert(before.remove(g@), g@, rest);
                        assert(str_lists(before)[g@] == strs(list@));
                        lemma_without_idempotent(m0[g@], file@);
                        assert(str_lists(before).contains_key(g@));
                        assert(m0.contains_key(g@));
                        assert(strs(rest@) == without(m0[g@], file@));
                        assert(strs(rest@).len() == rest@.len());
                        assert(chunk_freed(m0, file@, g@) == (rest@.len() == 0));
                    }
                    self.downloaded_chunks.insert(g.clone(), rest);
                    proof {
                        assert(str_lists(self.downloaded_chunks@) =~= without_file(
                            m0,
                            gs.take(i + 1),
                            file@,
                        ));
                    }
                    if empty {
                        let ghost prev = free@;
                        free.push(g.clone());
                        proof {
                            assert(strs(free@) =~= strs(prev).push(g@));
                        }
                    }
                },
                None => {
                    proof {
                        assert(!str_lists(before).contains_key(g@));
                        assert(!m0.contains_key(g@));
                        assert(!chunk_freed(m0, file@, g@));
                        assert(before.remove(g@) =~= before);
                        assert(str_lists(self.downloaded_chunks@) =~= without_file(
                            m0,
                            gs.take(i + 1),
                            file@,
                        ));
                    }
                },
            }
            i = i + 1;
        }
        proof {
            assert(gs.take(details.finished_chunks@.len() as int) =~= gs);
        }
        free
    }
    /// Chunk `guid` finished downloading: its urls are forgotten, each file
    /// that waited for it counts its first part of that chunk as finished
    /// (once per use), and the files that thereby have all their parts are
    /// returned, as they stand at that moment, for extraction.
    pub fn chunk_finished(&mut self, guid: &String) -> (ready: Vec<(String, DownloadedFile)>)
        requires
            old(self).wf(),
        ensures
            final(self).wf(),
            final(self).chunk_urls@ == old(self).chunk_urls@.remove(guid@),
            file_views(final(self).downloaded_files@) == files_after_chunk(
                file_views(old(self).downloaded_files@),
                list_or_empty(str_lists(old(self).downloaded_chunks@), guid@),
                guid@,
            ),
            named_files_view(ready@) == ready_files(
                file_views(old(self).downloaded_files@),
                list_or_empty(str_lists(old(self).downloaded_chunks@), guid@),
                guid@,
            ),
            final(self).download_items == old(self).download_items,
            final(self).downloaded_chunks == old(self).downloaded_chunks,
            final(self).asset_guids == old(self).asset_guids,
            final(self).paused_asset_chunks == old(self).paused_asset_chunks,
    {
        let _ = self.chunk_urls.remove(guid);
        let affected: Vec<String> = match self.downloaded_chunks.get(guid) {
            Some(v) => clone_strings(v),
            None => Vec::new(),
        };
        let ghost a = strs(affected@);
        let ghost f0 = file_views(self.downloaded_files@);
        proof {
            assert(a == list_or_empty(str_lists(old(self).downloaded_chunks@), guid@));
            assert(a.take(0) =~= Seq::<Seq<char>>::empty());
            assert forall|k: Seq<char>| #[trigger] f0.contains_key(k) implies with_finished(
                f0[k],
                guid@,
                0,
            ) == f0[k] by {
                if exists|j: int| is_first_with_guid(f0[k].chunks, guid@, j) {
                    let j = choose|j: int| is_first_with_guid(f0[k].chunks, guid@, j);
                    assert(f0[k].finished_chunks + Seq::new(0, |i: int| f0[k].chunks[j])
                        =~= f0[k].finished_chunks);
                }
            }
            assert(f0 =~= files_after_chunk(f0, a.take(0), guid@));
        }
        let mut ready: Vec<(String, DownloadedFile)> = Vec::new();
        let mut i: usize = 0;
        while i < affected.len()
            invariant
                i <= affected@.len(),
                a == strs(affected@),
                f0 == file_views(old(self).downloaded_files@),
                self.wf(),
                file_views(self.downloaded_files@) == files_after_chunk(f0, a.take(i as int), guid@),
                named_files_view(ready@) == ready_files(f0, a.take(i as int), guid@),
                self.chunk_urls@ == old(self).chunk_urls@.remove(guid@),
                self.download_items == old(self).download_items,
                self.downloaded_chunks == old(self).downloaded_chunks,
                self.asset_guids == old(self).asset_guids,
                self.paused_asset_chunks == old(self).paused_asset_chunks,
            decreases affected@.len() - i,
        {
            let name = &affected[i];
            let ghost before = self.downloaded_files@;
            let ghost t = a.take(i as int);
            proof {
                assert(a.take(i + 1) =~= t.push(name@));
                assert(a.take(i + 1).drop_last() =~= t);
                lemma_file_views_remove(before, name@);
                assert forall|k: Seq<char>| true implies count_of(a.take(i + 1), k) == count_of(t, k)
                    + if k == name@ {
                    1nat
                } else {
                    0nat
                } by {
                    lemma_count_push(t, name@, k);
                }
            }
            match self.downloaded_files.remove(name) {
                Some(f) => {
                    let mut f = f;
                    let n = f.chunks.len();
                    let mut j: usize = 0;
                    let mut found = false;
                    while j < n && !found
                        invariant
                            n == f.chunks@.len(),
                            j <= n,
                            found ==> is_first_with_guid(f@.chunks, guid@, j as int),
                            !found ==> forall|q: int| 0 <= q < j ==> f@.chunks[q].guid != guid@,
                        decreases (n - j) as int + if found { 0int } else { 1int },
                    {
                        if f.chunks[j].guid == *guid {
                            found = true;
                        } else {
                            j = j + 1;
                        }
                    }
                    let ghost fv = f@;
                    proof {
                        assert(before.contains_key(name@));
                        assert(file_views(before).contains_key(name@));
                        assert(files_after_chunk(f0, t, guid@).contains_key(name@));
                        assert(file_views(before)[name@] == before[name@]@);
                        assert(f0.contains_key(name@));
                        assert(fv == with_finished(f0[name@], guid@, count_of(t, name@)));
                        assert(fv.chunks == f0[name@].chunks);
                    }
                    if found {
                        let p = clone_part(&f.chunks[j]);
                        f.finished_chunks.push(p);
                        proof {
                            lemma_with_finished_step(f0[name@], guid@, count_of(t, name@), j as int);
                            assert(parts_view(f.finished_chunks@) =~= fv.finished_chunks.push(
                                fv.chunks[j as int],
                            ));
                        }
                    } else {
                        proof {
                            lemma_with_finished_none(f0[name@], guid@, count_of(t, name@) + 1);
                            lemma_with_finished_none(f0[name@], guid@, count_of(t, name@));
                        }
                    }
                    if f.finished_chunks.len() == f.chunks.len() {
                        let ghost prev = ready@;
                        ready.push((name.clone(), clone_file(&f)));
                        proof {
                            assert(named_files_view(ready@) =~= named_files_view(prev).push(
                                (name@, f@),
                            ));
                        }
                    }
                    proof {
                        lemma_file_views_insert(before.remove(name@), name@, f);
                    }
                    self.downloaded_files.insert(name.clone(), f);
                    proof {
                        assert(file_views(self.downloaded_files@) =~= files_after_chunk(
                            f0,
                            a.take(i + 1),
                            guid@,
                        ));
                    }
                },
                None => {
                    proof {
                        assert(!file_views(before).contains_key(name@));
                        assert(!f0.contains_key(name@));
                        assert(before.remove(name@) =~= before);
                        assert(file_views(self.downloaded_files@) =~= files_after_chunk(
                            f0,
                            a.take(i + 1),
                            guid@,
                        ));
                    }
                },
            }
            i = i + 1;
        }
        proof {
            assert(a.take(affected@.len() as int) =~= a);
        }
        ready
    }
    /// Records `size` downloaded bytes at `now` on the entry under `key`, if
    /// there is one; returns whether there was.
    pub fn add_downloaded_size(&mut self, key: &String, size: u128, now: i64) -> (found: bool)
        requires
            old(self).wf(),
            old(self).download_items@.contains_key(key@) ==> old(self).download_items@[key@].can_take(
                size,
            ),
        ensures
            final(self).wf(),
            found == old(self).download_items@.contains_key(key@),
            found ==> final(self).download_items@ == old(self).download_items@.insert(
                key@,
                final(self).download_items@[key@],
            ) && EpicDownloadItem::download_progress_added(
                old(self).download_items@[key@],
                final(self).download_items@[key@],
                size,
                now,
            ),
            !found ==> final(self).download_items@ == old(self).download_items@,
            final(self).downloaded_files == old(self).downloaded_files,
            final(self).downloaded_chunks == old(self).downloaded_chunks,
            final(self).asset_guids == old(self).asset_guids,
            final(self).paused_asset_chunks == old(self).paused_asset_chunks,
            final(self).chunk_urls == old(self).chunk_urls,
    {
        match self.download_items.remove(key) {
            Some(item) => {
                let mut item = item;
                item.add_downloaded_size_at(size, now);
                self.download_items.insert(key.clone(), item);
                proof {
                    assert(old(self).download_items@.remove(key@).insert(key@, item) =~= old(
                        self,
                    ).download_items@.insert(key@, item));
                }
                true
            },
            None => {
                assert(old(self).download_items@.remove(key@) =~= old(self).download_items@);
                false
            },
        }
    }

    /// Records `size` extracted bytes at `now` on the entry under `key`, if
    /// there is one; returns whether there was.
    pub fn add_extracted_size(&mut self, key: &String, size: u128, now: i64) -> (found: bool)
        requires
            old(self).wf(),
            old(self).download_items@.contains_key(key@) ==> old(self).download_items@[key@].can_take(
                size,
            ),
        ensures
            final(self).wf(),
            found == old(self).download_items@.contains_key(key@),
            found ==> final(self).download_items@ == old(self).download_items@.insert(
                key@,
                final(self).download_items@[key@],
            ) && {
                let o = old(self).download_items@[key@];
                let n = final(self).download_items@[key@];
                &&& o.halted() ==> n == o
                &&& !o.halted() ==> n == (EpicDownloadItem { speed_queue: n.speed_queue, ..o })
                    && n.speed_queue@ == o.speed_queue@.push((now, size))
            },
            !found ==> final(self).download_items@ == old(self).download_items@,
            final(self).downloaded_files == old(self).downloaded_files,
            final(self).downloaded_chunks == old(self).downloaded_chunks,
            final(self).asset_guids == old(self).asset_guids,
            final(self).paused_asset_chunks == old(self).paused_asset_chunks,
            final(self).chunk_urls == old(self).chunk_urls,
    {
        match self.download_items.remove(key) {
            Some(item) => {
                let mut item = item;
                item.add_extracted_size_at(size, now);
                self.download_items.insert(key.clone(), item);
                proof {
                    assert(old(self).download_items@.remove(key@).insert(key@, item) =~= old(
                        self,
                    ).download_items@.insert(key@, item));
                }
                true
            },
            None => {
                assert(old(self).download_items@.remove(key@) =~= old(self).download_items@);
                false
            },
        }
    }

    /// One more file of the entry under `key` is in place. Returns whether the
    /// entry exists and, if so, whether that was its last file.
    pub fn file_extracted(&mut self, key: &String) -> (r: Option<bool>)
        requires
            old(self).wf(),
            old(self).download_items@.contains_key(key@) ==> (
            old(self).download_items@[key@].halted()
                || old(self).download_items@[key@].extracted_files < u64::MAX),
        ensures
            final(self).wf(),
            (r is Some) == old(self).download_items@.contains_key(key@),
            r matches Some(finished) ==> final(self).download_items@ == old(
                self,
            ).download_items@.insert(key@, final(self).download_items@[key@])
                && EpicDownloadItem::file_counted(
                old(self).download_items@[key@],
                final(self).download_items@[key@],
                finished,
            ),
            r is None ==> final(self).download_items@ == old(self).download_items@,
            final(self).downloaded_files == old(self).downloaded_files,
            final(self).downloaded_chunks == old(self).downloaded_chunks,
            final(self).asset_guids == old(self).asset_guids,
            final(self).paused_asset_chunks == old(self).paused_asset_chunks,
            final(self).chunk_urls == old(self).chunk_urls,
    {
        match self.download_items.remove(key) {
            Some(item) => {
                let mut item = item;
                let finished = item.file_processed();
                self.download_items.insert(key.clone(), item);
                proof {
                    assert(old(self).download_items@.remove(key@).insert(key@, item) =~= old(
                        self,
                    ).download_items@.insert(key@, item));
                }
                Some(finished)
            },
            None => {
                assert(old(self).download_items@.remove(key@) =~= old(self).download_items@);
                None
            },
        }
    }

    /// Progress of `progress` bytes on chunk `guid`: the first file waiting
    /// for the chunk that is still tracked names the asset whose entry is
    /// credited with the bytes at `now`. Returns that asset when its entry
    /// exists.
    pub fn chunk_progress(&mut self, guid: &String, progress: u128, now: i64) -> (credited: Option<
        String,
    >)
        requires
            old(self).wf(),
            forall|k: Seq<char>| #[trigger]
                old(self).download_items@.contains_key(k) ==> old(self).download_items@[k].can_take(
                    progress,
                ),
        ensures
            final(self).wf(),
            ({
                let l = list_or_empty(str_lists(old(self).downloaded_chunks@), guid@);
                let fs = file_views(old(self).downloaded_files@);
                &&& (forall|i: int| !first_tracked(l, fs, i)) ==> credited is None
                    && final(self).download_items@ == old(self).download_items@
                &&& forall|i: int|
                    first_tracked(l, fs, i) ==> {
                        let a = fs[l[i]].asset;
                        &&& old(self).download_items@.contains_key(a) ==> credited is Some
                            && credited->0@ == a && final(self).download_items@ == old(
                            self,
                        ).download_items@.insert(a, final(self).download_items@[a])
                            && EpicDownloadItem::download_progress_added(
                            old(self).download_items@[a],
                            final(self).download_items@[a],
                            progress,
                            now,
                        )
                        &&& !old(self).download_items@.contains_key(a) ==> credited is None
                            && final(self).download_items@ == old(self).download_items@
                    }
            }),
            final(self).downloaded_files == old(self).downloaded_files,
            final(self).downloaded_chunks == old(self).downloaded_chunks,
            final(self).asset_guids == old(self).asset_guids,
            final(self).paused_asset_chunks == old(self).paused_asset_chunks,
            final(self).chunk_urls == old(self).chunk_urls,
    {
        let list: Vec<String> = match self.downloaded_chunks.get(guid) {
            Some(v) => clone_strings(v),
            None => Vec::new(),
        };
        let ghost l = strs(list@);
        let ghost fs = file_views(self.downloaded_files@);
        proof {
            assert(l == list_or_empty(str_lists(old(self).downloaded_chunks@), guid@));
        }
        let mut i: usize = 0;
        while i < list.len()
            invariant
                i <= list@.len(),
                l == strs(list@),
                l == list_or_empty(str_lists(old(self).downloaded_chunks@), guid@),
                fs == file_views(self.downloaded_files@),
                *self == *old(self),
                self.wf(),
                forall|k: Seq<char>| #[trigger]
                    self.download_items@.contains_key(k) ==> self.download_items@[k].can_take(
                        progress,
                    ),
                forall|j: int| 0 <= j < i ==> !fs.contains_key(l[j]),
            decreases list@.len() - i,
        {
            match self.downloaded_files.get(&list[i]) {
                Some(f) => {
                    let asset = f.asset.clone();
                    proof {
                        assert(first_tracked(l, fs, i as int));
                        assert(fs[l[i as int]] == f@);
                        assert forall|k: int| first_tracked(l, fs, k) implies k == i by {
                            if k < i {
                            }
                            if k > i {
                                assert(!fs.contains_key(l[i as int]));
                            }
                        }
                    }
                    let found = self.add_downloaded_size(&asset, progress, now);
                    if found {
                        return Some(asset);
                    } else {
                        return None;
                    }
                },
                None => {
                    proof {
                        assert(!fs.contains_key(l[i as int]));
                    }
                },
            }
            i = i + 1;
        }
        None
    }
    /// Remembers that the download of chunk `guid` from `url` into `path` was
    /// paused.
    pub fn pause_asset_chunk(&mut self, url: String, path: String, guid: String)
        requires
            old(self).wf(),
        ensures
            final(self).wf(),
            pair_lists(final(self).paused_asset_chunks@) == pair_lists(
                old(self).paused_asset_chunks@,
            ).insert(
                guid@,
                pairs_or_empty(pair_lists(old(self).paused_asset_chunks@), guid@).push(
                    (url@, path@),
                ),
            ),
            final(self).download_items == old(self).download_items,
            final(self).downloaded_files == old(self).downloaded_files,
            final(self).downloaded_chunks == old(self).downloaded_chunks,
            final(self).asset_guids == old(self).asset_guids,
            final(self).chunk_urls == old(self).chunk_urls,
    {
        let ghost m0 = self.paused_asset_chunks@;
        let mut list = match self.paused_asset_chunks.remove(&guid) {
            Some(v) => v,
            None => Vec::new(),
        };
        let ghost prev = list@;
        proof {
            assert(pairs_view(prev) == pairs_or_empty(pair_lists(m0), guid@));
        }
        list.push((url, path));
        proof {
            assert(pairs_view(list@) =~= pairs_view(prev).push((url@, path@)));
            lemma_pair_lists_insert(m0.remove(guid@), guid@, list);
            lemma_pair_lists_remove(m0, guid@);
            assert(pair_lists(m0).remove(guid@).insert(guid@, pairs_view(list@)) =~= pair_lists(
                m0,
            ).insert(guid@, pairs_view(list@)));
        }
        self.paused_asset_chunks.insert(guid, list);
    }

    /// The chunks of asset `asset` to be told to pause (once per use); its
    /// entry's speed text is cleared.
    pub fn pause_asset_download(&mut self, asset: &String) -> (guids: Vec<String>)
        requires
            old(self).wf(),
        ensures
            final(self).wf(),
            strs(guids@) == list_or_empty(str_lists(old(self).asset_guids@), asset@),
            old(self).download_items@.contains_key(asset@) ==> final(self).download_items@ == old(
                self,
            ).download_items@.insert(asset@, final(self).download_items@[asset@])
                && speed_cleared(old(self).download_items@[asset@], final(self).download_items@[asset@]),
            !old(self).download_items@.contains_key(asset@) ==> final(self).download_items@ == old(
                self,
            ).download_items@,
            final(self).downloaded_files == old(self).downloaded_files,
            final(self).downloaded_chunks == old(self).downloaded_chunks,
            final(self).asset_guids == old(self).asset_guids,
            final(self).paused_asset_chunks == old(self).paused_asset_chunks,
            final(self).chunk_urls == old(self).chunk_urls,
    {
        let guids = match self.asset_guids.get(asset) {
            Some(v) => clone_strings(v),
            None => Vec::new(),
        };
        self.clear_speed(asset);
        guids
    }

    /// Clears the speed text of the entry under `key`, if there is one.
    fn clear_speed(&mut self, key: &String)
        requires
            old(self).wf(),
        ensures
            final(self).wf(),
            old(self).download_items@.contains_key(key@) ==> final(self).download_items@ == old(
                self,
            ).download_items@.insert(key@, final(self).download_items@[key@])
                && speed_cleared(old(self).download_items@[key@], final(self).download_items@[key@]),
            !old(self).download_items@.contains_key(key@) ==> *final(self) == *old(self),
            final(self).downloaded_files == old(self).downloaded_files,
            final(self).downloaded_chunks == old(self).downloaded_chunks,
            final(self).asset_guids == old(self).asset_guids,
            final(self).paused_asset_chunks == old(self).paused_asset_chunks,
            final(self).chunk_urls == old(self).chunk_urls,
    {
        match self.download_items.remove(key) {
            Some(item) => {
                let mut item = item;
                item.speed = Some(String::new());
                assert(item.wf());
                self.download_items.insert(key.clone(), item);
                proof {
                    assert(old(self).download_items@.remove(key@).insert(key@, item) =~= old(
                        self,
                    ).download_items@.insert(key@, item));
                }
            },
            None => {
                assert(old(self).download_items@.remove(key@) =~= old(self).download_items@);
            },
        }
    }

    /// `n` is `o` after the paused chunk downloads of `asset` were taken
    /// out, and `pending` are the chunks handed back, each once with its
    /// (url, path) list (see `resume_asset_download`).
    pub open spec fn asset_resumed(
        o: EpicDownloadManager,
        n: EpicDownloadManager,
        asset: Seq<char>,
        pending: Seq<(Seq<char>, Seq<(Seq<char>, Seq<char>)>)>,
    ) -> bool {
        let gs = list_or_empty(str_lists(o.asset_guids@), asset);
        let p0 = pair_lists(o.paused_asset_chunks@);
        &&& pair_lists(n.paused_asset_chunks@) == drop_listed(p0, gs)
        &&& pending == with_pairs(present_once(gs, p0.dom()), p0)
        &&& n.download_items == o.download_items
        &&& n.downloaded_files == o.downloaded_files
        &&& n.downloaded_chunks == o.downloaded_chunks
        &&& n.asset_guids == o.asset_guids
        &&& n.chunk_urls == o.chunk_urls
    }

    /// Takes the paused chunk downloads of asset `asset` out of the paused
    /// records and returns them, each chunk once with its (url, path) list,
    /// to be started again.
    pub fn resume_asset_download(&mut self, asset: &String) -> (pending: Vec<
        (String, Vec<(String, String)>),
    >)
        requires
            old(self).wf(),
        ensures
            final(self).wf(),
            Self::asset_resumed(*old(self), *final(self), asset@, pending_view(pending@)),
    {
        let guids = match self.asset_guids.get(asset) {
            Some(v) => clone_strings(v),
            None => Vec::new(),
        };
        let ghost gs = strs(guids@);
        let ghost p0 = pair_lists(self.paused_asset_chunks@);
        let mut pending: Vec<(String, Vec<(String, String)>)> = Vec::new();
        let mut i: usize = 0;
        proof {
            assert(gs.take(0) =~= Seq::<Seq<char>>::empty());
            assert(drop_listed(p0, gs.take(0)) =~= p0);
            assert(pending_view(pending@) =~= with_pairs(present_once(gs.take(0), p0.dom()), p0));
        }
        while i < guids.len()
            invariant
                i <= guids@.len(),
                gs == strs(guids@),
                gs == list_or_empty(str_lists(old(self).asset_guids@), asset@),
                p0 == pair_lists(old(self).paused_asset_chunks@),
                self.wf(),
                pair_lists(self.paused_asset_chunks@) == drop_listed(p0, gs.take(i as int)),
                pending_view(pending@) == with_pairs(present_once(gs.take(i as int), p0.dom()), p0),
                self.download_items == old(self).download_items,
                self.downloaded_files == old(self).downloaded_files,
                self.downloaded_chunks == old(self).downloaded_chunks,
                self.asset_guids == old(self).asset_guids,
                self.chunk_urls == old(self).chunk_urls,
            decreases guids@.len() - i,
        {
            let g = &guids[i];
            let ghost before = self.paused_asset_chunks@;
            let ghost t = gs.take(i as int);
            proof {
                assert(gs.take(i + 1) =~= t.push(g@));
                lemma_drop_listed_push(p0, t, g@);
                lemma_present_once_push(t, g@, p0.dom());
                lemma_pair_lists_remove(before, g@);
            }
            match self.paused_asset_chunks.remove(g) {
                Some(v) => {
                    let ghost prev = pending@;
                    proof {
                        assert(pair_lists(before).contains_key(g@));
                        assert(p0.contains_key(g@) && !t.contains(g@));
                        assert(pair_lists(before)[g@] == pairs_view(before[g@]@));
                        assert(drop_listed(p0, t)[g@] == p0[g@]);
                        assert(pairs_view(v@) == p0[g@]);
                    }
                    pending.push((g.clone(), v));
                    proof {
                        assert(pending_view(pending@) =~= pending_view(prev).push((g@, p0[g@])));
                        assert(with_pairs(present_once(t, p0.dom()).push(g@), p0) =~= with_pairs(
                            present_once(t, p0.dom()),
                            p0,
                        ).push((g@, p0[g@])));
                        assert(pending_view(pending@) =~= with_pairs(
                            present_once(gs.take(i + 1), p0.dom()),
                            p0,
                        ));
                    }
                },
                None => {
                    proof {
                        assert(!pair_lists(before).contains_key(g@));
                        assert(!(p0.contains_key(g@) && !t.contains(g@)));
                        assert(before.remove(g@) =~= before);
                    }
                },
            }
            proof {
                assert(pair_lists(self.paused_asset_chunks@) =~= drop_listed(p0, gs.take(i + 1)));
            }
            i = i + 1;
        }
        proof {
            assert(gs.take(guids@.len() as int) =~= gs);
        }
        pending
    }
    /// Forgets the chunks listed in `guids` and every file that waits for one
    /// of them; when `paused` is set, also takes their paused downloads out
    /// and returns them (each chunk once).
    fn drop_chunks(&mut self, guids: &Vec<String>, paused: bool) -> (pending: Vec<
        (String, Vec<(String, String)>),
    >)
        requires
            old(self).wf(),
        ensures
            final(self).wf(),
            ({
                let gs = strs(guids@);
                let c0 = str_lists(old(self).downloaded_chunks@);
                let p0 = pair_lists(old(self).paused_asset_chunks@);
                &&& str_lists(final(self).downloaded_chunks@) == drop_listed(c0, gs)
                &&& final(self).downloaded_files@ == old(self).downloaded_files@.remove_keys(
                    files_of_chunks(c0, gs),
                )
                &&& paused ==> pair_lists(final(self).paused_asset_chunks@) == drop_listed(p0, gs)
                    && pending_view(pending@) == with_pairs(present_once(gs, p0.dom()), p0)
                &&& !paused ==> final(self).paused_asset_chunks == old(self).paused_asset_chunks
                    && pending@.len() == 0
            }),
            final(self).download_items == old(self).download_items,
            final(self).asset_guids == old(self).asset_guids,
            final(self).chunk_urls == old(self).chunk_urls,
    {
        let ghost gs = strs(guids@);
        let ghost c0 = str_lists(self.downloaded_chunks@);
        let ghost p0 = pair_lists(self.paused_asset_chunks@);
        let ghost f0 = self.downloaded_files@;
        let mut pending: Vec<(String, Vec<(String, String)>)> = Vec::new();
        let mut i: usize = 0;
        proof {
            assert(gs.take(0) =~= Seq::<Seq<char>>::empty());
            assert(drop_listed(p0, gs.take(0)) =~= p0);
            assert(drop_listed(c0, gs.take(0)) =~= c0);
            assert(files_of_chunks(c0, gs.take(0)) =~= Set::<Seq<char>>::empty());
            assert(f0.remove_keys(Set::<Seq<char>>::empty()) =~= f0);
            assert(pending_view(pending@) =~= with_pairs(present_once(gs.take(0), p0.dom()), p0));
        }
        while i < guids.len()
            invariant
                i <= guids@.len(),
                gs == strs(guids@),
                c0 == str_lists(old(self).downloaded_chunks@),
                p0 == pair_lists(old(self).paused_asset_chunks@),
                f0 == old(self).downloaded_files@,
                self.wf(),
                str_lists(self.downloaded_chunks@) == drop_listed(c0, gs.take(i as int)),
                self.downloaded_files@ == f0.remove_keys(files_of_chunks(c0, gs.take(i as int))),
                paused ==> pair_lists(self.paused_asset_chunks@) == drop_listed(
                    p0,
                    gs.take(i as int),
                ) && pending_view(pending@) == with_pairs(
                    present_once(gs.take(i as int), p0.dom()),
                    p0,
                ),
                !paused ==> self.paused_asset_chunks == old(self).paused_asset_chunks
                    && pending@.len() == 0,
                self.download_items == old(self).download_items,
                self.asset_guids == old(self).asset_guids,
                self.chunk_urls == old(self).chunk_urls,
            decreases guids@.len() - i,
        {
            let g = &guids[i];
            let ghost t = gs.take(i as int);
            let ghost cbefore = self.downloaded_chunks@;
            proof {
                assert(gs.take(i + 1) =~= t.push(g@));
                lemma_drop_listed_push(c0, t, g@);
                lemma_drop_listed_push(p0, t, g@);
                lemma_present_once_push(t, g@, p0.dom());
                lemma_str_lists_remove(cbefore, g@);
                assert forall|h: Seq<char>| t.push(g@).contains(h) <==> (t.contains(h) || h == g@) by {
                    lemma_contains_push(t, g@, h);
                }
            }
            match self.downloaded_chunks.remove(g) {
                Some(list) => {
                    proof {
                        assert(str_lists(cbefore).contains_key(g@));
                        assert(c0.contains_key(g@) && !t.contains(g@));
                        assert(drop_listed(c0, t)[g@] == c0[g@]);
                        assert(strs(list@) == c0[g@]);
                    }
                    let ghost fl = strs(list@);
                    let ghost s1 = *self;
                    let mut j: usize = 0;
                    proof {
                        assert(fl.take(0) =~= Seq::<Seq<char>>::empty());
                        assert(files_of_chunks(c0, t).union(Set::new(|f: Seq<char>| fl.take(0).contains(f)))
                            =~= files_of_chunks(c0, t));
                    }
                    while j < list.len()
                        invariant
                            j <= list@.len(),
                            fl == strs(list@),
                            self.wf(),
                            self.downloaded_chunks == s1.downloaded_chunks,
                            self.paused_asset_chunks == s1.paused_asset_chunks,
                            self.download_items == s1.download_items,
                            self.asset_guids == s1.asset_guids,
                            self.chunk_urls == s1.chunk_urls,
                            self.downloaded_files@ == f0.remove_keys(
                                files_of_chunks(c0, t).union(
                                    Set::new(|f: Seq<char>| fl.take(j as int).contains(f)),
                                ),
                            ),
                        decreases list@.len() - j,
                    {
                        let _ = self.downloaded_files.remove(&list[j]);
                        proof {
                            assert(fl.take(j + 1) =~= fl.take(j as int).push(fl[j as int]));
                            assert forall|h: Seq<char>| fl.take(j + 1).contains(h) <==> (fl.take(
                                j as int,
                            ).contains(h) || h == fl[j as int]) by {
                                lemma_contains_push(fl.take(j as int), fl[j as int], h);
                            }
                            assert(self.downloaded_files@ =~= f0.remove_keys(
                                files_of_chunks(c0, t).union(
                                    Set::new(|f: Seq<char>| fl.take(j + 1).contains(f)),
                                ),
                            ));
                        }
                        j = j + 1;
                    }
                    proof {
                        assert(fl.take(list@.len() as int) =~= fl);
                        assert forall|f: Seq<char>|
                            files_of_chunks(c0, t.push(g@)).contains(f) <==> files_of_chunks(
                                c0,
                                t,
                            ).union(Set::new(|f: Seq<char>| fl.contains(f))).contains(f) by {
                            if files_of_chunks(c0, t.push(g@)).contains(f) {
                                let h = choose|h: Seq<char>|
                                    t.push(g@).contains(h) && c0.contains_key(h) && #[trigger] c0[h].contains(f);
                                if h != g@ {
                                    assert(files_of_chunks(c0, t).contains(f));
                                }
                            }
                            if files_of_chunks(c0, t).contains(f) {
                                let h = choose|h: Seq<char>|
                                    t.contains(h) && c0.contains_key(h) && #[trigger] c0[h].contains(f);
                                assert(t.push(g@).contains(h));
                            }
                        }
                        assert(files_of_chunks(c0, t.push(g@)) =~= files_of_chunks(c0, t).union(
                            Set::new(|f: Seq<char>| fl.contains(f)),
                        ));
                    }
                },
                None => {
                    proof {
                        assert(!str_lists(cbefore).contains_key(g@));
                        assert(!(c0.contains_key(g@) && !t.contains(g@)));
                        assert(cbefore.remove(g@) =~= cbefore);
                        assert forall|f: Seq<char>|
                            files_of_chunks(c0, t.push(g@)).contains(f) <==> files_of_chunks(
                                c0,
                                t,
                            ).contains(f) by {
                            if files_of_chunks(c0, t.push(g@)).contains(f) {
                                let h = choose|h: Seq<char>|
                                    t.push(g@).contains(h) && c0.contains_key(h) && #[trigger] c0[h].contains(f);
                                assert(t.contains(h));
                            }
                            if files_of_chunks(c0, t).contains(f) {
                                let h = choose|h: Seq<char>|
                                    t.contains(h) && c0.contains_key(h) && #[trigger] c0[h].contains(f);
                                assert(t.push(g@).contains(h));
                            }
                        }
                        assert(files_of_chunks(c0, t.push(g@)) =~= files_of_chunks(c0, t));
                    }
                },
            }
            proof {
                assert(str_lists(self.downloaded_chunks@) =~= drop_listed(c0, gs.take(i + 1)));
            }
            if paused {
                let ghost before = self.paused_asset_chunks@;
                proof {
                    lemma_pair_lists_remove(before, g@);
                }
                match self.paused_asset_chunks.remove(g) {
                    Some(v) => {
                        let ghost prev = pending@;
                        proof {
                            assert(pair_lists(before).contains_key(g@));
                            assert(p0.contains_key(g@) && !t.contains(g@));
                            assert(pair_lists(before)[g@] == pairs_view(before[g@]@));
                            assert(drop_listed(p0, t)[g@] == p0[g@]);
                        }
                        pending.push((g.clone(), v));
                        proof {
                            assert(pending_view(pending@) =~= pending_view(prev).push((g@, p0[g@])));
                            assert(with_pairs(present_once(t, p0.dom()).push(g@), p0) =~= with_pairs(
                                present_once(t, p0.dom()),
                                p0,
                            ).push((g@, p0[g@])));
                        }
                    },
                    None => {
                        proof {
                            assert(!pair_lists(before).contains_key(g@));
                            assert(!(p0.contains_key(g@) && !t.contains(g@)));
                            assert(before.remove(g@) =~= before);
                        }
                    },
                }
                proof {
                    assert(pair_lists(self.paused_asset_chunks@) =~= drop_listed(p0, gs.take(i + 1)));
                }
            }
            i = i + 1;
        }
        proof {
            assert(gs.take(guids@.len() as int) =~= gs);
        }
        pending
    }

    /// Cancels the download of asset `asset`: its entry (if any) loses its
    /// speed text and its version and release keys are dropped from the list;
    /// the asset's chunks and every file waiting for one of them are
    /// forgotten; if the entry was paused, its paused chunk downloads are
    /// taken out and returned. Also returns the chunks that were recorded for
    /// the asset, to be told to stop.
    pub fn cancel_asset_download(&mut self, asset: &String) -> (r: (
        Option<Vec<String>>,
        Vec<(String, Vec<(String, String)>)>,
    ))
        requires
            old(self).wf(),
        ensures
            final(self).wf(),
            ({
                let items0 = old(self).download_items@;
                let has_item = items0.contains_key(asset@);
                let paused = has_item && items0[asset@].paused;
                let g0 = str_lists(old(self).asset_guids@);
                let gs = list_or_empty(g0, asset@);
                let c0 = str_lists(old(self).downloaded_chunks@);
                let p0 = pair_lists(old(self).paused_asset_chunks@);
                &&& (r.0 is Some) == g0.contains_key(asset@)
                &&& r.0 matches Some(v) ==> strs(v@) == gs
                &&& final(self).asset_guids@ == old(self).asset_guids@.remove(asset@)
                &&& str_lists(final(self).downloaded_chunks@) == drop_listed(c0, gs)
                &&& final(self).downloaded_files@ == old(self).downloaded_files@.remove_keys(
                    files_of_chunks(c0, gs),
                )
                &&& paused ==> pair_lists(final(self).paused_asset_chunks@) == drop_listed(p0, gs)
                    && pending_view(r.1@) == with_pairs(present_once(gs, p0.dom()), p0)
                &&& !paused ==> final(self).paused_asset_chunks == old(self).paused_asset_chunks
                    && r.1@.len() == 0
                &&& !has_item ==> final(self).download_items@ == items0
                &&& has_item ==> exists|cleared: EpicDownloadItem|
                    speed_cleared(items0[asset@], cleared) && final(self).download_items@
                        == remove_opt(
                        remove_opt(items0.insert(asset@, cleared), items0[asset@].version),
                        items0[asset@].release,
                    )
            }),
            final(self).chunk_urls == old(self).chunk_urls,
    {
        let (has_item, paused, version, release) = match self.download_items.get(asset) {
            Some(it) => (true, it.paused, clone_opt_string(&it.version), clone_opt_string(&it.release)),
            None => (false, false, None, None),
        };
        self.clear_speed(asset);
        let ghost cleared_items = self.download_items@;
        let guids = self.asset_guids.remove(asset);
        if has_item {
            match &version {
                Some(v) => {
                    let _ = self.download_items.remove(v);
                },
                None => {},
            }
            match &release {
                Some(r) => {
                    let _ = self.download_items.remove(r);
                },
                None => {},
            }
            proof {
                let cleared = cleared_items[asset@];
                assert(speed_cleared(old(self).download_items@[asset@], cleared));
                assert(cleared_items == old(self).download_items@.insert(asset@, cleared));
            }
        }
        let pending = match &guids {
            Some(gs) => self.drop_chunks(gs, paused),
            None => {
                proof {
                    let c0 = str_lists(old(self).downloaded_chunks@);
                    let p0 = pair_lists(old(self).paused_asset_chunks@);
                    let e = Seq::<Seq<char>>::empty();
                    assert(drop_listed(c0, e) =~= c0);
                    assert(drop_listed(p0, e) =~= p0);
                    assert(files_of_chunks(c0, e) =~= Set::<Seq<char>>::empty());
                    assert(old(self).downloaded_files@.remove_keys(Set::<Seq<char>>::empty())
                        =~= old(self).downloaded_files@);
                    assert(present_once(e, p0.dom()) =~= e);
                    assert(with_pairs(e, p0) =~= Seq::<(Seq<char>, Seq<(Seq<char>, Seq<char>)>)>::empty());
                }
                Vec::new()
            },
        };
        proof {
            lemma_str_lists_remove(old(self).asset_guids@, asset@);
        }
        (guids, pending)
    }

    /// Forgets asset `asset` once its download is over: when both its chunk
    /// record and its entry exist, the entry's version and release keys are
    /// dropped from the list, and its chunks and every file waiting for one
    /// of them are forgotten. The chunk record goes in any case.
    pub fn asset_cleanup(&mut self, asset: &String)
        requires
            old(self).wf(),
        ensures
            final(self).wf(),
            ({
                let items0 = old(self).download_items@;
                let g0 = str_lists(old(self).asset_guids@);
                let gs = list_or_empty(g0, asset@);
                let c0 = str_lists(old(self).downloaded_chunks@);
                let go = g0.contains_key(asset@) && items0.contains_key(asset@);
                &&& final(self).asset_guids@ == old(self).asset_guids@.remove(asset@)
                &&& go ==> final(self).download_items@ == remove_opt(
                    remove_opt(items0, items0[asset@].version),
                    items0[asset@].release,
                ) && str_lists(final(self).downloaded_chunks@) == drop_listed(c0, gs)
                    && final(self).downloaded_files@ == old(self).downloaded_files@.remove_keys(
                    files_of_chunks(c0, gs),
                )
                &&& !go ==> final(self).download_items == old(self).download_items
                    && final(self).downloaded_chunks == old(self).downloaded_chunks
                    && final(self).downloaded_files == old(self).downloaded_files
            }),
            final(self).paused_asset_chunks == old(self).paused_asset_chunks,
            final(self).chunk_urls == old(self).chunk_urls,
    {
        let (has_item, version, release) = match self.download_items.get(asset) {
            Some(it) => (true, clone_opt_string(&it.version), clone_opt_string(&it.release)),
            None => (false, None, None),
        };
        proof {
            lemma_str_lists_remove(old(self).asset_guids@, asset@);
        }
        match self.asset_guids.remove(asset) {
            Some(guids) => {
                if has_item {
                    match &version {
                        Some(v) => {
                            let _ = self.download_items.remove(v);
                        },
                        None => {},
                    }
                    match &release {
                        Some(r) => {
                            let _ = self.download_items.remove(r);
                        },
                        None => {},
                    }
                    let _ = self.drop_chunks(&guids, false);
                }
            },
            None => {},
        }
    }
}

impl EpicDownloadManager {
    /// Adds the link of each part that has one to the urls of its chunk.
    pub fn add_chunk_urls(&mut self, parts: &Vec<ChunkPart>)
        requires
            old(self).wf(),
        ensures
            final(self).wf(),
            str_lists(final(self).chunk_urls@) == with_links(
                str_lists(old(self).chunk_urls@),
                parts_view(parts@),
            ),
            final(self).download_items == old(self).download_items,
            final(self).downloaded_files == old(self).downloaded_files,
            final(self).downloaded_chunks == old(self).downloaded_chunks,
            final(self).asset_guids == old(self).asset_guids,
            final(self).paused_asset_chunks == old(self).paused_asset_chunks,
    {
        let ghost m0 = str_lists(self.chunk_urls@);
        let ghost pv = parts_view(parts@);
        let mut i: usize = 0;
        proof {
            assert(pv.take(0) =~= Seq::<ChunkPartView>::empty());
            assert forall|g: Seq<char>| #[trigger] m0.contains_key(g) implies list_or_empty(m0, g)
                + links_for(pv.take(0), g) == m0[g] by {
                assert(list_or_empty(m0, g) + links_for(pv.take(0), g) =~= m0[g]);
            }
            assert(m0 =~= with_links(m0, pv.take(0)));
        }
        while i < parts.len()
            invariant
                i <= parts@.len(),
                pv == parts_view(parts@),
                m0 == str_lists(old(self).chunk_urls@),
                self.wf(),
                str_lists(self.chunk_urls@) == with_links(m0, pv.take(i as int)),
                self.download_items == old(self).download_items,
                self.downloaded_files == old(self).downloaded_files,
                self.downloaded_chunks == old(self).downloaded_chunks,
                self.asset_guids == old(self).asset_guids,
                self.paused_asset_chunks == old(self).paused_asset_chunks,
            decreases parts@.len() - i,
        {
            let p = &parts[i];
            let ghost t = pv.take(i as int);
            proof {
                assert(pv.take(i + 1) =~= t.push(p@));
                assert(pv.take(i + 1).drop_last() =~= t);
            }
            match &p.link {
                Some(l) => {
                    let ghost before = self.chunk_urls@;
                    let mut list = match self.chunk_urls.remove(&p.guid) {
                        Some(v) => v,
                        None => Vec::new(),
                    };
                    let ghost prev = list@;
                    proof {
                        lemma_str_lists_remove(before, p.guid@);
                        assert(strs(prev) == list_or_empty(with_links(m0, t), p.guid@));
                    }
                    list.push(l.clone());
                    proof {
                        assert(strs(list@) =~= strs(prev).push(l@));
                        lemma_str_lists_insert(before.remove(p.guid@), p.guid@, list);
                    }
                    self.chunk_urls.insert(p.guid.clone(), list);
                    proof {
                        assert forall|g: Seq<char>| #[trigger]
                            with_links(m0, pv.take(i + 1)).contains_key(g) implies with_links(
                            m0,
                            pv.take(i + 1),
                        )[g] == str_lists(self.chunk_urls@)[g] by {
                            if g == p.guid@ {
                                assert(links_for(pv.take(i + 1), g) == links_for(t, g).push(l@));
                                assert(list_or_empty(m0, g) + links_for(t, g).push(l@) =~= (
                                list_or_empty(m0, g) + links_for(t, g)).push(l@));
                            }
                        }
                        assert(str_lists(self.chunk_urls@) =~= with_links(m0, pv.take(i + 1)));
                    }
                },
                None => {
                    proof {
                        assert forall|g: Seq<char>| true implies links_for(pv.take(i + 1), g)
                            == links_for(t, g) by {}
                        assert(str_lists(self.chunk_urls@) =~= with_links(m0, pv.take(i + 1)));
                    }
                },
            }
            i = i + 1;
        }
        proof {
            assert(pv.take(parts@.len() as int) =~= pv);
        }
    }

    /// Whether retrying chunk `g` after `link` failed finds no url left: the
    /// chunk has a url list and every url in it is `link`.
    pub open spec fn spec_chunk_urls_exhausted(&self, link: Seq<char>, g: Seq<char>) -> bool {
        let m = str_lists(self.chunk_urls@);
        m.contains_key(g) && without(m[g], link).len() == 0
    }

    /// Tells whether retrying chunk `g` after `link` failed would find no url
    /// left (the retry then has nothing to choose from).
    pub fn chunk_urls_exhausted(&self, link: &String, g: &String) -> (r: bool)
        requires
            self.wf(),
        ensures
            r == self.spec_chunk_urls_exhausted(link@, g@),
    {
        match self.chunk_urls.get(g) {
            Some(v) => {
                let rest = remove_all(v, link);
                rest.len() == 0
            },
            None => false,
        }
    }

    /// Retrying chunk `g` after a download from `link` failed: `link` is
    /// dropped from the chunk's urls and the url at `index` among the rest is
    /// the one to use; a chunk without a url list is retried from `link`.
    pub fn redownload_chunk_with(&mut self, link: &String, g: &String, index: usize) -> (url: String)
        requires
            old(self).wf(),
            str_lists(old(self).chunk_urls@).contains_key(g@) ==> index < without(
                str_lists(old(self).chunk_urls@)[g@],
                link@,
            ).len(),
        ensures
            final(self).wf(),
            ({
                let m = str_lists(old(self).chunk_urls@);
                &&& !m.contains_key(g@) ==> url@ == link@ && final(self).chunk_urls@ == old(
                    self,
                ).chunk_urls@
                &&& m.contains_key(g@) ==> url@ == without(m[g@], link@)[index as int]
                    && str_lists(final(self).chunk_urls@) == m.insert(g@, without(m[g@], link@))
            }),
            final(self).download_items == old(self).download_items,
            final(self).downloaded_files == old(self).downloaded_files,
            final(self).downloaded_chunks == old(self).downloaded_chunks,
            final(self).asset_guids == old(self).asset_guids,
            final(self).paused_asset_chunks == old(self).paused_asset_chunks,
    {
        let ghost before = self.chunk_urls@;
        match self.chunk_urls.remove(g) {
            None => {
                assert(before.remove(g@) =~= before);
                link.clone()
            },
            Some(v) => {
                let rest = remove_all(&v, link);
                proof {
                    assert(str_lists(before)[g@] == strs(v@));
                    assert(strs(rest@).len() == rest@.len());
                }
                let url = rest[index].clone();
                proof {
                    assert(strs(rest@)[index as int] == rest@[index as int]@);
                    lemma_str_lists_insert(before.remove(g@), g@, rest);
                    lemma_str_lists_remove(before, g@);
                    assert(str_lists(before).remove(g@).insert(g@, strs(rest@)) =~= str_lists(
                        before,
                    ).insert(g@, strs(rest@)));
                }
                self.chunk_urls.insert(g.clone(), rest);
                url
            },
        }
    }

    /// Retrying chunk `g` after a download from `link` failed, with the url
    /// picked at random among the remaining ones (see
    /// `redownload_chunk_with`). Must not be called when no url would remain.
    pub fn redownload_chunk(&mut self, link: &String, g: &String) -> (url: String)
        requires
            old(self).wf(),
            !old(self).spec_chunk_urls_exhausted(link@, g@),
        ensures
            final(self).wf(),
            ({
                let m = str_lists(old(self).chunk_urls@);
                &&& !m.contains_key(g@) ==> url@ == link@ && final(self).chunk_urls@ == old(
                    self,
                ).chunk_urls@
                &&& m.contains_key(g@) ==> without(m[g@], link@).contains(url@)
                    && str_lists(final(self).chunk_urls@) == m.insert(g@, without(m[g@], link@))
            }),
            final(self).download_items == old(self).download_items,
            final(self).downloaded_files == old(self).downloaded_files,
            final(self).downloaded_chunks == old(self).downloaded_chunks,
            final(self).asset_guids == old(self).asset_guids,
            final(self).paused_asset_chunks == old(self).paused_asset_chunks,
    {
        let index = match self.chunk_urls.get(g) {
            Some(v) => {
                let rest = remove_all(v, link);
                proof {
                    assert(str_lists(self.chunk_urls@)[g@] == strs(v@));
                    assert(strs(rest@).len() == rest@.len());
                }
                random_below(rest.len())
            },
            None => 0,
        };
        let url = self.redownload_chunk_with(link, g, index);
        proof {
            let m = str_lists(old(self).chunk_urls@);
            if m.contains_key(g@) {
                assert(without(m[g@], link@)[index as int] == url@);
            }
        }
        url
    }

    /// Adds a download entry for release `release_id` of asset `asset_id`
    /// with the given label, target and follow-up actions, unless an entry
    /// for that release exists already. Returns whether it added one.
    pub fn add_asset_download(
        &mut self,
        release_id: String,
        asset_id: String,
        label: Option<String>,
        target: Option<String>,
        actions: Option<Vec<PostDownloadAction>>,
    ) -> (added: bool)
        requires
            old(self).wf(),
        ensures
            final(self).wf(),
            added == !old(self).download_items@.contains_key(release_id@),
            !added ==> *final(self) == *old(self),
            added ==> final(self).download_items@ == old(self).download_items@.insert(
                release_id@,
                final(self).download_items@[release_id@],
            ) && new_asset_item(
                final(self).download_items@[release_id@],
                asset_id@,
                release_id@,
                opt_view(label),
                opt_view(target),
            ) && match actions {
                Some(a) => {
                    let it = final(self).download_items@[release_id@];
                    &&& it.post_actions@.len() == new_actions(Seq::empty(), a@).len()
                    &&& forall|i: int|
                        0 <= i < it.post_actions@.len() ==> same_action(
                            #[trigger] it.post_actions@[i],
                            new_actions(Seq::empty(), a@)[i],
                        )
                },
                None => final(self).download_items@[release_id@].post_actions@.len() == 0,
            },
            final(self).downloaded_files == old(self).downloaded_files,
            final(self).downloaded_chunks == old(self).downloaded_chunks,
            final(self).asset_guids == old(self).asset_guids,
            final(self).paused_asset_chunks == old(self).paused_asset_chunks,
            final(self).chunk_urls == old(self).chunk_urls,
    {
        if self.download_items.contains_key(&release_id) {
            return false;
        }
        let mut item = EpicDownloadItem::new();
        assert(item.post_actions@ =~= Seq::<PostDownloadAction>::empty());
        match &actions {
            Some(a) => {
                item.add_actions(a);
                assert forall|i: int| 0 <= i < item.post_actions@.len() implies same_action(
                    #[trigger] item.post_actions@[i],
                    new_actions(Seq::empty(), a@)[i],
                ) by {
                    assert(item.post_actions@[0 + i] == item.post_actions@[i]);
                }
            },
            None => {},
        }
        item.item_type = ItemType::Asset;
        item.asset = Some(asset_id);
        item.release = Some(release_id.clone());
        item.label = label;
        item.target = target;
        self.download_items.insert(release_id, item);
        true
    }

    /// Adds a download entry for a marketplace asset `asset_id`, version
    /// `artifact_id`, unless one exists already. Returns whether it added one.
    pub fn add_fab_asset_download(
        &mut self,
        asset_id: String,
        artifact_id: String,
        title: String,
        target: Option<String>,
    ) -> (added: bool)
        requires
            old(self).wf(),
        ensures
            final(self).wf(),
            added == !old(self).download_items@.contains_key(asset_id@),
            !added ==> *final(self) == *old(self),
            added ==> final(self).download_items@ == old(self).download_items@.insert(
                asset_id@,
                final(self).download_items@[asset_id@],
            ) && new_asset_item(
                final(self).download_items@[asset_id@],
                asset_id@,
                artifact_id@,
                Some(title@),
                opt_view(target),
            ) && final(self).download_items@[asset_id@].post_actions@.len() == 0,
            final(self).downloaded_files == old(self).downloaded_files,
            final(self).downloaded_chunks == old(self).downloaded_chunks,
            final(self).asset_guids == old(self).asset_guids,
            final(self).paused_asset_chunks == old(self).paused_asset_chunks,
            final(self).chunk_urls == old(self).chunk_urls,
    {
        if self.download_items.contains_key(&asset_id) {
            return false;
        }
        let mut item = EpicDownloadItem::new();
        item.item_type = ItemType::Asset;
        item.asset = Some(asset_id.clone());
        item.release = Some(artifact_id);
        item.label = Some(title);
        item.target = target;
        self.download_items.insert(asset_id, item);
        true
    }

    /// Adds a download entry for the engine archive `version` with the given
    /// label, unless one exists already. Returns whether it added one.
    pub fn download_engine_from_epic(&mut self, version: String, label: Option<String>) -> (added:
        bool)
        requires
            old(self).wf(),
        ensures
            final(self).wf(),
            added == !old(self).download_items@.contains_key(version@),
            !added ==> *final(self) == *old(self),
            added ==> final(self).download_items@ == old(self).download_items@.insert(
                version@,
                final(self).download_items@[version@],
            ) && {
                let it = final(self).download_items@[version@];
                &&& it.wf()
                &&& it.item_type == ItemType::Epic
                &&& opt_view(it.version) == Some(version@)
                &&& opt_view(it.label) == opt_view(label)
                &&& it.asset is None && it.release is None && it.target is None
                &&& it.speed is None && it.path is None
                &&& !it.paused && !it.canceled
                &&& it.total_size == 0 && it.downloaded_size == 0
                &&& it.total_files == 0 && it.extracted_files == 0
                &&& it.post_actions@.len() == 0 && it.speed_queue@.len() == 0
                &&& !it.cancel_enabled && !it.pause_enabled
            },
            final(self).downloaded_files == old(self).downloaded_files,
            final(self).downloaded_chunks == old(self).downloaded_chunks,
            final(self).asset_guids == old(self).asset_guids,
            final(self).paused_asset_chunks == old(self).paused_asset_chunks,
            final(self).chunk_urls == old(self).chunk_urls,
    {
        if self.download_items.contains_key(&version) {
            return false;
        }
        let mut item = EpicDownloadItem::new();
        item.item_type = ItemType::Epic;
        item.version = Some(version.clone());
        item.label = label;
        self.download_items.insert(version, item);
        true
    }
}

impl EpicDownloadManager {
    /// The vault directory for the entry under `key`: its own target when it
    /// has one, else the first configured vault directory.
    pub fn unreal_vault_dir(&self, key: &String, vaults: &Vec<String>) -> (r: Option<String>)
        requires
            self.wf(),
        ensures
            ({
                let items = self.download_items@;
                if items.contains_key(key@) && items[key@].target is Some {
                    r == items[key@].target
                } else if vaults@.len() > 0 {
                    r == Some(vaults@[0])
                } else {
                    r is None
                }
            }),
    {
        match self.download_items.get(key) {
            Some(it) => match &it.target {
                Some(t) => {
                    return Some(t.clone());
                },
                None => {},
            },
            None => {},
        }
        if vaults.len() > 0 {
            Some(vaults[0].clone())
        } else {
            None
        }
    }

    /// The copy actions of the entry under `key` as (directory, overwrite)
    /// pairs, and whether the entry keeps its files in the vault. A missing
    /// entry has no actions.
    pub fn copy_targets(&self, key: &String) -> (r: (Vec<(String, bool)>, bool))
        requires
            self.wf(),
        ensures
            ({
                let items = self.download_items@;
                if items.contains_key(key@) {
                    targets_view(r.0@) == copy_targets(items[key@].post_actions@) && r.1
                        == keeps_vault(items[key@].post_actions@)
                } else {
                    r.0@.len() == 0 && r.1
                }
            }),
    {
        let mut targets: Vec<(String, bool)> = Vec::new();
        let mut to_vault = true;
        match self.download_items.get(key) {
            Some(it) => {
                let acts = &it.post_actions;
                let mut i: usize = 0;
                while i < acts.len()
                    invariant
                        i <= acts@.len(),
                        targets_view(targets@) == copy_targets(acts@.take(i as int)),
                        to_vault == keeps_vault(acts@.take(i as int)),
                    decreases acts@.len() - i,
                {
                    proof {
                        assert(acts@.take(i + 1).drop_last() =~= acts@.take(i as int));
                        assert(acts@.take(i + 1).last() == acts@[i as int]);
                    }
                    match &acts[i] {
                        PostDownloadAction::Copy(t, o) => {
                            let ghost prev = targets@;
                            targets.push((t.clone(), *o));
                            proof {
                                assert(targets_view(targets@) =~= targets_view(prev).push((t@, *o)));
                            }
                        },
                        PostDownloadAction::NoVault => {
                            to_vault = false;
                        },
                    }
                    proof {
                        assert(keeps_vault(acts@.take(i + 1)) == (keeps_vault(acts@.take(i as int))
                            && !(acts@[i as int] is NoVault)));
                    }
                    i = i + 1;
                }
                proof {
                    assert(acts@.take(acts@.len() as int) =~= acts@);
                }
            },
            None => {},
        }
        (targets, to_vault)
    }

    /// Where the files of the entry under `key` go: when the entry keeps its
    /// files in the vault or has no copy action, below its vault directory
    /// (none when there is no vault directory); otherwise into the directory
    /// of its last copy action.
    pub fn target_dir(&self, key: &String, vaults: &Vec<String>) -> (r: Option<DownloadTarget>)
        requires
            self.wf(),
        ensures
            self.target_dir_holds(key@, vaults@, r),
    {
        let (targets, to_vault) = self.copy_targets(key);
        proof {
            if !self.download_items@.contains_key(key@) {
                assert(keeps_vault(Seq::<PostDownloadAction>::empty()));
            }
        }
        if to_vault || targets.len() == 0 {
            match self.unreal_vault_dir(key, vaults) {
                Some(v) => Some(DownloadTarget::Vault(v)),
                None => None,
            }
        } else {
            let n = targets.len();
            proof {
                assert(targets_view(targets@)[n - 1] == (targets@[n - 1].0@, targets@[n - 1].1));
            }
            Some(DownloadTarget::Custom(targets[n - 1].0.clone()))
        }
    }

    /// Where the files of asset download `id` go, once `manifest_count`
    /// download manifests arrived: nothing without an entry or without a
    /// manifest, else as `target_dir` says.
    pub fn download_target(&self, id: &String, vaults: &Vec<String>, manifest_count: usize) -> (r:
        Option<DownloadTarget>)
        requires
            self.wf(),
        ensures
            !self.download_items@.contains_key(id@) || manifest_count == 0 ==> r is None,
            self.download_items@.contains_key(id@) && manifest_count > 0 ==> self.target_dir_holds(
                id@,
                vaults@,
                r,
            ),
    {
        if !self.download_items.contains_key(id) || manifest_count == 0 {
            return None;
        }
        self.target_dir(id, vaults)
    }

    /// Where a finished file `name` of release `release` of the entry under
    /// `key` is written, and into which directories it is copied once its
    /// hash matched: the directory of `target_dir` (none without one), the
    /// file below its files directory, and the entry's copy targets, without
    /// the last when that one is the directory written to.
    pub fn extraction_plan(&self, key: &String, vaults: &Vec<String>, release: &String, name: &String) -> (r:
        Option<(DownloadTarget, String, Vec<(String, bool)>)>)
        requires
            self.wf(),
        ensures
            self.target_dir_holds(
                key@,
                vaults@,
                match r {
                    Some(p) => Some(p.0),
                    None => None,
                },
            ),
            r matches Some(p) ==> {
                let items = self.download_items@;
                let acts = if items.contains_key(key@) {
                    items[key@].post_actions@
                } else {
                    Seq::empty()
                };
                let ts = copy_targets(acts);
                &&& p.1@ == path_pushed(spec_files_dir(p.0, release@), name@)
                &&& targets_view(p.2@) == match p.0 {
                    DownloadTarget::Custom(_) => ts.drop_last(),
                    DownloadTarget::Vault(_) => ts,
                }
            },
    {
        match self.target_dir(key, vaults) {
            None => None,
            Some(t) => {
                let (targets, _keeps) = self.copy_targets(key);
                let mut targets = targets;
                let dest = file_target_path(&t, release, name);
                proof {
                    if !self.download_items@.contains_key(key@) {
                        assert(copy_targets(Seq::<PostDownloadAction>::empty()) =~= Seq::empty());
                    }
                }
                match &t {
                    DownloadTarget::Custom(_) => {
                        let ghost before = targets@;
                        let _ = targets.pop();
                        proof {
                            assert(targets@ =~= before.drop_last());
                            assert(targets_view(targets@) =~= targets_view(before).drop_last());
                        }
                    },
                    DownloadTarget::Vault(_) => {},
                }
                Some((t, dest, targets))
            },
        }
    }

    /// What `target_dir` returns for `key` (see there).
    pub open spec fn target_dir_holds(
        &self,
        key: Seq<char>,
        vaults: Seq<String>,
        r: Option<DownloadTarget>,
    ) -> bool {
        let items = self.download_items@;
        let acts = if items.contains_key(key) {
            items[key].post_actions@
        } else {
            Seq::empty()
        };
        let ts = copy_targets(acts);
        if keeps_vault(acts) || ts.len() == 0 {
            if items.contains_key(key) && items[key].target is Some {
                r matches Some(DownloadTarget::Vault(d)) && d == items[key].target->0
            } else if vaults.len() > 0 {
                r matches Some(DownloadTarget::Vault(d)) && d == vaults[0]
            } else {
                r is None
            }
        } else {
            r matches Some(DownloadTarget::Custom(d)) && d@ == ts.last().0
        }
    }
}

impl EpicDownloadManager {
    /// Starts the asset download `id` once its target is known: the entry
    /// takes the total size, the file count and the target path, and the
    /// links of all chunk parts join the chunks' url lists. Nothing happens
    /// without an entry.
    pub fn begin_asset_download(
        &mut self,
        id: &String,
        total_size: u128,
        total_files: u64,
        path: String,
        parts: &Vec<ChunkPart>,
    ) -> (started: bool)
        requires
            old(self).wf(),
        ensures
            final(self).wf(),
            started == old(self).download_items@.contains_key(id@),
            !started ==> *final(self) == *old(self),
            started ==> {
                let o = old(self).download_items@[id@];
                let n = final(self).download_items@[id@];
                &&& final(self).download_items@ == old(self).download_items@.insert(id@, n)
                &&& n == (EpicDownloadItem {
                    total_size: total_size,
                    total_files: total_files,
                    path: n.path,
                    ..o
                })
                &&& opt_view(n.path) == Some(path@)
                &&& str_lists(final(self).chunk_urls@) == with_links(
                    str_lists(old(self).chunk_urls@),
                    parts_view(parts@),
                )
            },
            final(self).downloaded_files == old(self).downloaded_files,
            final(self).downloaded_chunks == old(self).downloaded_chunks,
            final(self).asset_guids == old(self).asset_guids,
            final(self).paused_asset_chunks == old(self).paused_asset_chunks,
    {
        match self.download_items.remove(id) {
            Some(item) => {
                let mut item = item;
                item.set_total_size(total_size);
                item.set_total_files(total_files);
                item.path = Some(path);
                self.download_items.insert(id.clone(), item);
                proof {
                    assert(old(self).download_items@.remove(id@).insert(id@, item) =~= old(
                        self,
                    ).download_items@.insert(id@, item));
                }
                self.add_chunk_urls(parts);
                true
            },
            None => {
                assert(old(self).download_items@.remove(id@) =~= old(self).download_items@);
                false
            },
        }
    }

    /// A file of asset download `asset_id` was already on disk with the
    /// right hash: the entry is credited with its `size` bytes at `now`, and
    /// the copy targets of the entry are returned. Nothing happens without an
    /// entry.
    pub fn file_already_extracted(&mut self, asset_id: &String, size: u128, now: i64) -> (r: Option<
        Vec<(String, bool)>,
    >)
        requires
            old(self).wf(),
            old(self).download_items@.contains_key(asset_id@) ==> old(
                self,
            ).download_items@[asset_id@].can_take(size),
        ensures
            final(self).wf(),
            (r is Some) == old(self).download_items@.contains_key(asset_id@),
            r is None ==> *final(self) == *old(self),
            r matches Some(t) ==> targets_view(t@) == copy_targets(
                old(self).download_items@[asset_id@].post_actions@,
            ) && final(self).download_items@ == old(self).download_items@.insert(
                asset_id@,
                final(self).download_items@[asset_id@],
            ) && EpicDownloadItem::download_progress_added(
                old(self).download_items@[asset_id@],
                final(self).download_items@[asset_id@],
                size,
                now,
            ),
            final(self).downloaded_files == old(self).downloaded_files,
            final(self).downloaded_chunks == old(self).downloaded_chunks,
            final(self).asset_guids == old(self).asset_guids,
            final(self).paused_asset_chunks == old(self).paused_asset_chunks,
            final(self).chunk_urls == old(self).chunk_urls,
    {
        if !self.download_items.contains_key(asset_id) {
            return None;
        }
        let (targets, _) = self.copy_targets(asset_id);
        let _ = self.add_downloaded_size(asset_id, size, now);
        Some(targets)
    }

    /// The engine archive `version` is about to download `size` bytes: its
    /// entry takes that total and a single file. Returns whether the entry
    /// exists.
    pub fn perform_file_download(&mut self, version: &String, size: u64) -> (found: bool)
        requires
            old(self).wf(),
        ensures
            final(self).wf(),
            found == old(self).download_items@.contains_key(version@),
            !found ==> *final(self) == *old(self),
            found ==> final(self).download_items@ == old(self).download_items@.insert(
                version@,
                EpicDownloadItem {
                    total_size: size as u128,
                    total_files: 1,
                    ..old(self).download_items@[version@]
                },
            ),
            final(self).downloaded_files == old(self).downloaded_files,
            final(self).downloaded_chunks == old(self).downloaded_chunks,
            final(self).asset_guids == old(self).asset_guids,
            final(self).paused_asset_chunks == old(self).paused_asset_chunks,
            final(self).chunk_urls == old(self).chunk_urls,
    {
        match self.download_items.remove(version) {
            Some(item) => {
                let mut item = item;
                item.set_total_size(size as u128);
                item.set_total_files(1);
                self.download_items.insert(version.clone(), item);
                proof {
                    assert(old(self).download_items@.remove(version@).insert(version@, item) =~= old(
                        self,
                    ).download_items@.insert(version@, item));
                }
                true
            },
            None => {
                assert(old(self).download_items@.remove(version@) =~= old(self).download_items@);
                false
            },
        }
    }

    /// Cancels the engine archive download `version`: the entry, if any,
    /// loses its speed text and the key of its version is dropped from the
    /// list. Returns whether there was an entry.
    pub fn cancel_epic_download(&mut self, version: &String) -> (found: bool)
        requires
            old(self).wf(),
        ensures
            final(self).wf(),
            found == old(self).download_items@.contains_key(version@),
            !found ==> *final(self) == *old(self),
            found ==> exists|cleared: EpicDownloadItem|
                speed_cleared(old(self).download_items@[version@], cleared)
                    && final(self).download_items@ == remove_opt(
                    old(self).download_items@.insert(version@, cleared),
                    old(self).download_items@[version@].version,
                ),
            final(self).downloaded_files == old(self).downloaded_files,
            final(self).downloaded_chunks == old(self).downloaded_chunks,
            final(self).asset_guids == old(self).asset_guids,
            final(self).paused_asset_chunks == old(self).paused_asset_chunks,
            final(self).chunk_urls == old(self).chunk_urls,
    {
        let v = match self.download_items.get(version) {
            Some(it) => clone_opt_string(&it.version),
            None => {
                return false;
            },
        };
        self.clear_speed(version);
        let ghost cleared_items = self.download_items@;
        match &v {
            Some(k) => {
                let _ = self.download_items.remove(k);
            },
            None => {},
        }
        proof {
            let cleared = cleared_items[version@];
            assert(speed_cleared(old(self).download_items@[version@], cleared));
            assert(cleared_items == old(self).download_items@.insert(version@, cleared));
        }
        true
    }

    /// Pauses the engine archive download `version`: the entry, if any, loses
    /// its speed text. Returns whether there was an entry (whose download is
    /// then to be told to pause).
    pub fn pause_epic_download(&mut self, version: &String) -> (found: bool)
        requires
            old(self).wf(),
        ensures
            final(self).wf(),
            found == old(self).download_items@.contains_key(version@),
            !found ==> *final(self) == *old(self),
            found ==> final(self).download_items@ == old(self).download_items@.insert(
                version@,
                final(self).download_items@[version@],
            ) && speed_cleared(
                old(self).download_items@[version@],
                final(self).download_items@[version@],
            ),
            final(self).downloaded_files == old(self).downloaded_files,
            final(self).downloaded_chunks == old(self).downloaded_chunks,
            final(self).asset_guids == old(self).asset_guids,
            final(self).paused_asset_chunks == old(self).paused_asset_chunks,
            final(self).chunk_urls == old(self).chunk_urls,
    {
        let found = self.download_items.contains_key(version);
        self.clear_speed(version);
        found
    }

    /// The engine archive `version` is fully on disk: its entry is credited
    /// at `now` with the bytes it still missed, and its expected total size
    /// is returned (to be compared with the file's size). Nothing happens
    /// without an entry.
    pub fn epic_file_finished(&mut self, version: &String, now: i64) -> (total: Option<u128>)
        requires
            old(self).wf(),
            old(self).download_items@.contains_key(version@) ==> {
                let it = old(self).download_items@[version@];
                &&& it.downloaded_size <= it.total_size
                &&& it.can_take((it.total_size - it.downloaded_size) as u128)
            },
        ensures
            final(self).wf(),
            (total is Some) == old(self).download_items@.contains_key(version@),
            total is None ==> *final(self) == *old(self),
            total matches Some(t) ==> {
                let o = old(self).download_items@[version@];
                &&& t == o.total_size
                &&& final(self).download_items@ == old(self).download_items@.insert(
                    version@,
                    final(self).download_items@[version@],
                )
                &&& EpicDownloadItem::download_progress_added(
                    o,
                    final(self).download_items@[version@],
                    (o.total_size - o.downloaded_size) as u128,
                    now,
                )
            },
            final(self).downloaded_files == old(self).downloaded_files,
            final(self).downloaded_chunks == old(self).downloaded_chunks,
            final(self).asset_guids == old(self).asset_guids,
            final(self).paused_asset_chunks == old(self).paused_asset_chunks,
            final(self).chunk_urls == old(self).chunk_urls,
    {
        let missing = match self.download_items.get(version) {
            Some(it) => (it.total_size - it.downloaded_size, it.total_size),
            None => {
                return None;
            },
        };
        let _ = self.add_downloaded_size(version, missing.0, now);
        Some(missing.1)
    }

    /// Toggles the pause of the entry under `key` (see
    /// `EpicDownloadItem::pause`); returns its request, or nothing without an
    /// entry.
    pub fn pause_item(&mut self, key: &String) -> (r: Option<PauseRequest>)
        requires
            old(self).wf(),
        ensures
            final(self).wf(),
            (r is Some) == old(self).download_items@.contains_key(key@),
            r is None ==> *final(self) == *old(self),
            r matches Some(req) ==> {
                let o = old(self).download_items@[key@];
                &&& req == spec_pause_request(o)
                &&& final(self).download_items@ == old(self).download_items@.insert(
                    key@,
                    EpicDownloadItem { paused: !o.paused, pause_enabled: false, ..o },
                )
            },
            final(self).downloaded_files == old(self).downloaded_files,
            final(self).downloaded_chunks == old(self).downloaded_chunks,
            final(self).asset_guids == old(self).asset_guids,
            final(self).paused_asset_chunks == old(self).paused_asset_chunks,
            final(self).chunk_urls == old(self).chunk_urls,
    {
        match self.download_items.remove(key) {
            Some(item) => {
                let mut item = item;
                let req = item.pause();
                self.download_items.insert(key.clone(), item);
                proof {
                    assert(old(self).download_items@.remove(key@).insert(key@, item) =~= old(
                        self,
                    ).download_items@.insert(key@, item));
                }
                Some(req)
            },
            None => {
                assert(old(self).download_items@.remove(key@) =~= old(self).download_items@);
                None
            },
        }
    }

    /// The short delay after a pause toggle of the entry under `key` is over:
    /// its pause action is available again.
    pub fn pause_cooldown_elapsed(&mut self, key: &String)
        requires
            old(self).wf(),
        ensures
            final(self).wf(),
            !old(self).download_items@.contains_key(key@) ==> *final(self) == *old(self),
            old(self).download_items@.contains_key(key@) ==> final(self).download_items@ == old(
                self,
            ).download_items@.insert(
                key@,
                EpicDownloadItem { pause_enabled: true, ..old(self).download_items@[key@] },
            ),
            final(self).downloaded_files == old(self).downloaded_files,
            final(self).downloaded_chunks == old(self).downloaded_chunks,
            final(self).asset_guids == old(self).asset_guids,
            final(self).paused_asset_chunks == old(self).paused_asset_chunks,
            final(self).chunk_urls == old(self).chunk_urls,
    {
        match self.download_items.remove(key) {
            Some(item) => {
                let mut item = item;
                item.pause_cooldown_elapsed();
                self.download_items.insert(key.clone(), item);
                proof {
                    assert(old(self).download_items@.remove(key@).insert(key@, item) =~= old(
                        self,
                    ).download_items@.insert(key@, item));
                }
            },
            None => {
                assert(old(self).download_items@.remove(key@) =~= old(self).download_items@);
            },
        }
    }

    /// Cancels the entry under `key` (see `EpicDownloadItem::cancel`);
    /// returns its request, or nothing without an entry.
    pub fn cancel_item(&mut self, key: &String) -> (r: Option<CancelRequest>)
        requires
            old(self).wf(),
        ensures
            final(self).wf(),
            (r is Some) == old(self).download_items@.contains_key(key@),
            r is None ==> *final(self) == *old(self),
            r matches Some(req) ==> {
                let o = old(self).download_items@[key@];
                &&& req == spec_cancel_request(o)
                &&& final(self).download_items@ == old(self).download_items@.insert(
                    key@,
                    EpicDownloadItem {
                        canceled: true,
                        cancel_enabled: false,
                        pause_enabled: false,
                        ..o
                    },
                )
            },
            final(self).downloaded_files == old(self).downloaded_files,
            final(self).downloaded_chunks == old(self).downloaded_chunks,
            final(self).asset_guids == old(self).asset_guids,
            final(self).paused_asset_chunks == old(self).paused_asset_chunks,
            final(self).chunk_urls == old(self).chunk_urls,
    {
        match self.download_items.remove(key) {
            Some(item) => {
                let mut item = item;
                let req = item.cancel();
                self.download_items.insert(key.clone(), item);
                proof {
                    assert(old(self).download_items@.remove(key@).insert(key@, item) =~= old(
                        self,
                    ).download_items@.insert(key@, item));
                }
                Some(req)
            },
            None => {
                assert(old(self).download_items@.remove(key@) =~= old(self).download_items@);
                None
            },
        }
    }

    /// Refreshes the speed of the entry under `key` (see
    /// `EpicDownloadItem::speed_update`).
    pub fn speed_update(&mut self, key: &String) -> (r: Option<u128>)
        requires
            old(self).wf(),
        ensures
            final(self).wf(),
            !old(self).download_items@.contains_key(key@) ==> r is None && *final(self) == *old(
                self,
            ),
            old(self).download_items@.contains_key(key@) ==> final(self).download_items@ == old(
                self,
            ).download_items@.insert(key@, final(self).download_items@[key@])
                && EpicDownloadItem::speed_refreshed(
                old(self).download_items@[key@],
                final(self).download_items@[key@],
                r,
            ),
            final(self).downloaded_files == old(self).downloaded_files,
            final(self).downloaded_chunks == old(self).downloaded_chunks,
            final(self).asset_guids == old(self).asset_guids,
            final(self).paused_asset_chunks == old(self).paused_asset_chunks,
            final(self).chunk_urls == old(self).chunk_urls,
    {
        match self.download_items.remove(key) {
            Some(item) => {
                let mut item = item;
                let r = item.speed_update();
                self.download_items.insert(key.clone(), item);
                proof {
                    assert(old(self).download_items@.remove(key@).insert(key@, item) =~= old(
                        self,
                    ).download_items@.insert(key@, item));
                }
                r
            },
            None => {
                assert(old(self).download_items@.remove(key@) =~= old(self).download_items@);
                None
            },
        }
    }
}

/// Whether an asset offers the release `release_id`: one of its releases
/// has that app id.
pub fn release_listed(app_ids: &Vec<Option<String>>, release_id: &String) -> (r: bool)
    ensures
        r == exists|i: int| 0 <= i < app_ids@.len() && opt_view(#[trigger] app_ids@[i]) == Some(release_id@),
{
    let mut i: usize = 0;
    while i < app_ids.len()
        invariant
            i <= app_ids@.len(),
            forall|k: int| 0 <= k < i ==> opt_view(#[trigger] app_ids@[k]) != Some(release_id@),
        decreases app_ids@.len() - i,
    {
        match &app_ids[i] {
            Some(a) => {
                if *a == *release_id {
                    return true;
                }
            },
            None => {},
        }
        i = i + 1;
    }
    false
}

/// `base` with `part` added as one more path component, as a path buffer
/// does it: a `part` that starts with "/" takes the place of `base`;
/// otherwise a "/" joins the two, unless `base` is empty or already ends in
/// one.
pub open spec fn path_pushed(base: Seq<char>, part: Seq<char>) -> Seq<char> {
    if part.len() > 0 && part[0] == '/' {
        part
    } else if base.len() == 0 || base.last() == '/' {
        base + part
    } else {
        base + seq!['/'] + part
    }
}

/// `base` with `part` added as one more path component (see
/// `path_pushed`).
pub fn push_path(base: &str, part: &str) -> (r: String)
    ensures
        r@ == path_pushed(base@, part@),
{
    let pn = part.unicode_len();
    if pn > 0 && part.get_char(0) == '/' {
        return String::from_str(part);
    }
    let bn = base.unicode_len();
    let mut r = String::from_str(base);
    if bn > 0 && base.get_char(bn - 1) != '/' {
        r.append("/");
        proof {
            reveal_strlit("/");
        }
    }
    r.append(part);
    proof {
        if bn > 0 {
            assert(base@.last() == base@[bn - 1]);
        }
    }
    r
}

/// The directory that receives the files of release `release` of a
/// download: below a vault directory, "<vault>/<release>/data"; the
/// directory of a copy action as it is.
pub open spec fn spec_files_dir(target: DownloadTarget, release: Seq<char>) -> Seq<char> {
    match target {
        DownloadTarget::Vault(v) => path_pushed(path_pushed(v@, release), seq!['d', 'a', 't', 'a']),
        DownloadTarget::Custom(d) => d@,
    }
}

/// The directory that receives the files of release `release` of a
/// download (see `spec_files_dir`).
pub fn files_dir(target: &DownloadTarget, release: &String) -> (r: String)
    ensures
        r@ == spec_files_dir(*target, release@),
{
    match target {
        DownloadTarget::Vault(v) => {
            let d = push_path(v.as_str(), release.as_str());
            proof {
                reveal_strlit("data");
            }
            push_path(d.as_str(), "data")
        },
        DownloadTarget::Custom(d) => d.clone(),
    }
}

/// Where the file `name` of release `release` of a download is written:
/// the file below the download's files directory.
pub fn file_target_path(target: &DownloadTarget, release: &String, name: &String) -> (r: String)
    ensures
        r@ == path_pushed(spec_files_dir(*target, release@), name@),
{
    let d = files_dir(target, release);
    push_path(d.as_str(), name.as_str())
}

/// The directory of the temporary chunk files of release `release`:
/// "<base>/<release>/temp", below the first vault directory or else the
/// configured temporary directory.
pub fn chunk_temp_dir(vaults: &Vec<String>, temporary: &String, release: &String) -> (r: String)
    ensures
        r@ == path_pushed(
            path_pushed(
                if vaults@.len() > 0 {
                    vaults@[0]@
                } else {
                    temporary@
                },
                release@,
            ),
            seq!['t', 'e', 'm', 'p'],
        ),
{
    let base = crate::download_files::download_base_dir(vaults, temporary);
    let d = push_path(base.as_str(), release.as_str());
    proof {
        reveal_strlit("temp");
    }
    push_path(d.as_str(), "temp")
}

/// The temporary file of chunk `guid` in the directory `temp`:
/// "<temp>/<guid>.chunk".
pub fn chunk_temp_path(temp: &str, guid: &str) -> (r: String)
    ensures
        r@ == path_pushed(temp@, guid@ + seq!['.', 'c', 'h', 'u', 'n', 'k']),
{
    let name = crate::download_files::chunk_file_name(guid);
    proof {
        reveal_strlit(".chunk");
    }
    push_path(temp, name.as_str())
}

} // verus!
