//! Properties that span several operations of the library, each proved
//! from the same specifications the operations' own contracts use.

use vstd::prelude::*;
use crate::download_item::{contains_action, new_actions, same_action, PostDownloadAction};
use crate::download_manager::{
    chunk_freed, drop_listed, files_of_chunks, freed_chunks, fresh_in, list_or_empty, pairs_or_empty,
    present_once, repeat, with_file_per_chunk, with_pairs, without, without_file,
};
use crate::download_item::{spec_pause_request, EpicDownloadItem, ItemType, PauseRequest};
use crate::fab::{spec_thumbnail_extension, utf8_len, utf8_width};
use crate::library::{is_product_prefix, product_slug, EpicLibraryBox};
use crate::download_manager::{pair_lists, str_lists, EpicDownloadManager};
use crate::fab::{fab_search_matches, FabFilter, FabLibraryBox};
use crate::asset_details::{spec_detail_actions, AssetKind, DetailAction};
use crate::engines::{desc_insert_pos, sorted_desc, spec_version_desc_order, Order};
use crate::library::{
    category_order_of_lower, lemma_lex_equal, lemma_lex_flip, lex_order, spec_category_order,
};
use crate::outside::spec_to_lowercase;
use crate::projects::{insert_pos, key_lt, newest_first, spec_version_key};

verus! {

proof fn lemma_push_contains<A>(s: Seq<A>, x: A, g: A)
    ensures
        s.push(x).contains(g) <==> (s.contains(g) || g == x),
{
    if s.push(x).contains(g) {
        let i = choose|i: int| 0 <= i < s.push(x).len() && s.push(x)[i] == g;
        if i < s.len() {
            assert(s[i] == g);
        }
    }
    if s.contains(g) {
        let i = choose|i: int| 0 <= i < s.len() && s[i] == g;
        assert(s.push(x)[i] == g);
    }
    if g == x {
        assert(s.push(x)[s.len() as int] == g);
    }
}

/// Registering a file fetches each chunk at most once, and fetches exactly
/// the chunks the file uses that no file waited for before.
pub proof fn law_chunks_fetched_once(gs: Seq<Seq<char>>, known: Set<Seq<char>>)
    ensures
        forall|i: int, j: int|
            0 <= i < j < fresh_in(gs, known).len() ==> fresh_in(gs, known)[i] != fresh_in(gs, known)[j],
        forall|g: Seq<char>| #[trigger]
            fresh_in(gs, known).contains(g) <==> (gs.contains(g) && !known.contains(g)),
    decreases gs.len(),
{
    if gs.len() > 0 {
        let s = gs.drop_last();
        let x = gs.last();
        law_chunks_fetched_once(s, known);
        assert(gs =~= s.push(x));
        let prev = fresh_in(s, known);
        assert forall|g: Seq<char>| #[trigger] gs.contains(g) <==> (s.contains(g) || g == x) by {
            lemma_push_contains(s, x, g);
        }
        if !(known.contains(x) || s.contains(x)) {
            assert(fresh_in(gs, known) == prev.push(x));
            assert forall|g: Seq<char>| #[trigger] prev.push(x).contains(g) <==> (prev.contains(g) || g == x) by {
                lemma_push_contains(prev, x, g);
            }
            assert forall|i: int, j: int| 0 <= i < j < prev.push(x).len() implies prev.push(x)[i]
                != prev.push(x)[j] by {
                if j == prev.len() {
                    assert(prev.contains(prev[i]));
                }
            }
        }
    } else {
        assert forall|g: Seq<char>| #[trigger] fresh_in(gs, known).contains(g) implies false by {
            assert(fresh_in(gs, known).len() == 0);
        }
    }
}

/// Adding the same follow-up actions a second time adds nothing: after
/// `add_actions`, every given action is held.
pub proof fn law_add_actions_idempotent(
    cur: Seq<PostDownloadAction>,
    act: Seq<PostDownloadAction>,
    after: Seq<PostDownloadAction>,
)
    requires
        after.len() == cur.len() + new_actions(cur, act).len(),
        forall|i: int| 0 <= i < cur.len() ==> #[trigger] after[i] == cur[i],
        forall|i: int|
            0 <= i < new_actions(cur, act).len() ==> same_action(
                #[trigger] after[cur.len() + i],
                new_actions(cur, act)[i],
            ),
    ensures
        new_actions(after, act).len() == 0,
{
    let pred = |a: PostDownloadAction| !contains_action(cur, a);
    let added = new_actions(cur, act);
    assert forall|k: int| 0 <= k < act.len() implies contains_action(after, #[trigger] act[k]) by {
        let a = act[k];
        if contains_action(cur, a) {
            let i = choose|i: int| 0 <= i < cur.len() && same_action(cur[i], a);
            assert(after[i] == cur[i]);
        } else {
            act.lemma_filter_contains(pred, k);
            let j = choose|j: int| 0 <= j < added.len() && added[j] == a;
            assert(same_action(after[cur.len() + j], added[j]));
        }
    }
    let pred2 = |a: PostDownloadAction| !contains_action(after, a);
    if act.filter(pred2).len() > 0 {
        act.lemma_filter_pred(pred2, 0);
        let x = act.filter(pred2)[0];
        assert(act.filter(pred2).contains(x));
        act.lemma_filter_contains_rev(pred2, x);
        let k = choose|k: int| 0 <= k < act.len() && act[k] == x;
        assert(contains_action(after, act[k]));
    }
}

proof fn lemma_present_once(s: Seq<Seq<char>>, dom: Set<Seq<char>>)
    ensures
        forall|i: int, j: int|
            0 <= i < j < present_once(s, dom).len() ==> present_once(s, dom)[i] != present_once(s, dom)[j],
        forall|g: Seq<char>| #[trigger]
            present_once(s, dom).contains(g) <==> (s.contains(g) && dom.contains(g)),
    decreases s.len(),
{
    if s.len() > 0 {
        let t = s.drop_last();
        let x = s.last();
        lemma_present_once(t, dom);
        assert(s =~= t.push(x));
        let prev = present_once(t, dom);
        assert forall|g: Seq<char>| #[trigger] s.contains(g) <==> (t.contains(g) || g == x) by {
            lemma_push_contains(t, x, g);
        }
        if dom.contains(x) && !t.contains(x) {
            assert(present_once(s, dom) == prev.push(x));
            assert forall|g: Seq<char>| #[trigger] prev.push(x).contains(g) <==> (prev.contains(g) || g == x) by {
                lemma_push_contains(prev, x, g);
            }
            assert forall|i: int, j: int| 0 <= i < j < prev.push(x).len() implies prev.push(x)[i]
                != prev.push(x)[j] by {
                if j == prev.len() {
                    assert(prev.contains(prev[i]));
                }
            }
        }
    } else {
        assert forall|g: Seq<char>| #[trigger] present_once(s, dom).contains(g) implies false by {
            assert(present_once(s, dom).len() == 0);
        }
    }
}

/// A chunk of an asset whose download was paused is handed back, once and
/// with the paused (url, path) just recorded as its last, when the asset
/// resumes; the resumed asset's chunks leave the paused records, those of
/// other assets stay.
pub proof fn law_paused_chunk_resumes(
    p0: Map<Seq<char>, Seq<(Seq<char>, Seq<char>)>>,
    gs: Seq<Seq<char>>,
    g: Seq<char>,
    url: Seq<char>,
    path: Seq<char>,
)
    requires
        gs.contains(g),
    ensures
        ({
            let p1 = p0.insert(g, pairs_or_empty(p0, g).push((url, path)));
            let pending = with_pairs(present_once(gs, p1.dom()), p1);
            &&& !drop_listed(p1, gs).contains_key(g)
            &&& forall|k: Seq<char>|
                p1.contains_key(k) && !gs.contains(k) ==> #[trigger] drop_listed(p1, gs).contains_key(k)
                    && drop_listed(p1, gs)[k] == p1[k]
            &&& exists|i: int|
                0 <= i < pending.len() && pending[i] == (g, pairs_or_empty(p0, g).push((url, path)))
            &&& forall|i: int, j: int| 0 <= i < j < pending.len() ==> pending[i].0 != pending[j].0
        }),
{
    let p1 = p0.insert(g, pairs_or_empty(p0, g).push((url, path)));
    let order = present_once(gs, p1.dom());
    let pending = with_pairs(order, p1);
    lemma_present_once(gs, p1.dom());
    assert(order.contains(g));
    let i = choose|i: int| 0 <= i < order.len() && order[i] == g;
    assert(pending[i] == (g, p1[g]));
}

proof fn lemma_without_repeat(a: Seq<Seq<char>>, x: Seq<char>, n: nat)
    ensures
        without(a + repeat(x, n), x) == without(a, x),
    decreases n,
{
    if n > 0 {
        let s = a + repeat(x, n);
        assert(s.drop_last() =~= a + repeat(x, (n - 1) as nat));
        assert(s.last() == x);
        lemma_without_repeat(a, x, (n - 1) as nat);
    } else {
        assert(a + repeat(x, n) =~= a);
    }
}

proof fn lemma_without_absent(a: Seq<Seq<char>>, x: Seq<char>)
    requires
        !a.contains(x),
    ensures
        without(a, x) == a,
    decreases a.len(),
{
    if a.len() > 0 {
        let t = a.drop_last();
        assert(!t.contains(x)) by {
            if t.contains(x) {
                let i = choose|i: int| 0 <= i < t.len() && t[i] == x;
                assert(a[i] == x);
            }
        }
        assert(a.last() != x) by {
            if a.last() == x {
                assert(a[a.len() - 1] == x);
            }
        }
        lemma_without_absent(t, x);
        assert(t.push(a.last()) =~= a);
    }
}

proof fn lemma_freed_chunks_contains(
    m: Map<Seq<char>, Seq<Seq<char>>>,
    file: Seq<char>,
    s: Seq<Seq<char>>,
    g: Seq<char>,
)
    ensures
        freed_chunks(m, file, s).contains(g) <==> (s.contains(g) && chunk_freed(m, file, g)),
    decreases s.len(),
{
    if s.len() > 0 {
        let t = s.drop_last();
        let x = s.last();
        lemma_freed_chunks_contains(m, file, t, g);
        assert(s =~= t.push(x));
        lemma_push_contains(t, x, g);
        if chunk_freed(m, file, x) {
            lemma_push_contains(freed_chunks(m, file, t), x, g);
        }
    } else {
        assert(freed_chunks(m, file, s).len() == 0);
    }
}

/// Registering a file for its chunks and assembling it once all of them
/// are finished leaves each chunk's list of waiting files as it was (a chunk
/// new with the file keeps an empty list), and frees exactly the file's
/// chunks that no other file waits for.
pub proof fn law_register_then_finalize(
    m: Map<Seq<char>, Seq<Seq<char>>>,
    gs: Seq<Seq<char>>,
    key: Seq<char>,
)
    requires
        forall|g: Seq<char>| #[trigger] m.contains_key(g) ==> !m[g].contains(key),
    ensures
        ({
            let w = with_file_per_chunk(m, gs, key);
            let after = without_file(w, gs, key);
            &&& forall|g: Seq<char>| #[trigger]
                after.contains_key(g) <==> (m.contains_key(g) || gs.contains(g))
            &&& forall|g: Seq<char>| #[trigger] after.contains_key(g) ==> after[g] == list_or_empty(m, g)
            &&& forall|g: Seq<char>|
                gs.contains(g) ==> (#[trigger] freed_chunks(w, key, gs).contains(g) <==> list_or_empty(
                    m,
                    g,
                ).len() == 0)
        }),
{
    let w = with_file_per_chunk(m, gs, key);
    let after = without_file(w, gs, key);
    assert forall|g: Seq<char>| w.contains_key(g) implies #[trigger] without(w[g], key) == list_or_empty(m, g) by {
        lemma_without_repeat(list_or_empty(m, g), key, crate::download_manager::count_of(gs, g));
        if m.contains_key(g) {
            lemma_without_absent(m[g], key);
        } else {
            lemma_without_absent(Seq::<Seq<char>>::empty(), key);
        }
    }
    assert forall|g: Seq<char>| #[trigger] after.contains_key(g) implies after[g] == list_or_empty(m, g) by {
        if !gs.contains(g) {
            crate::download_manager::lemma_count_zero(gs, g);
            assert(list_or_empty(m, g) + repeat(key, 0) =~= list_or_empty(m, g));
        }
        assert(without(w[g], key) == list_or_empty(m, g));
    }
    assert forall|g: Seq<char>| gs.contains(g) implies (#[trigger] freed_chunks(w, key, gs).contains(g)
        <==> list_or_empty(m, g).len() == 0) by {
        lemma_freed_chunks_contains(w, key, gs, g);
        assert(without(w[g], key) == list_or_empty(m, g));
    }
}

/// Canceling an asset drops every file registered for it, and every chunk
/// such a file waited for, since the asset lists those chunks.
pub proof fn law_cancel_forgets_registered_file(
    c: Map<Seq<char>, Seq<Seq<char>>>,
    earlier: Seq<Seq<char>>,
    gs: Seq<Seq<char>>,
    key: Seq<char>,
)
    requires
        gs.len() > 0,
    ensures
        ({
            let w = with_file_per_chunk(c, gs, key);
            let listed = earlier + gs;
            &&& forall|g: Seq<char>| #[trigger] gs.contains(g) ==> !drop_listed(w, listed).contains_key(g)
            &&& files_of_chunks(w, listed).contains(key)
        }),
{
    let w = with_file_per_chunk(c, gs, key);
    let listed = earlier + gs;
    assert forall|g: Seq<char>| #[trigger] gs.contains(g) implies listed.contains(g) by {
        let i = choose|i: int| 0 <= i < gs.len() && gs[i] == g;
        assert(listed[earlier.len() + i] == g);
    }
    let g0 = gs[0];
    assert(gs.contains(g0));
    assert(listed.contains(g0));
    assert(w.contains_key(g0));
    assert(crate::download_manager::count_of(gs, g0) >= 1) by {
        if crate::download_manager::count_of(gs, g0) == 0 {
            lemma_count_positive(gs, g0, 0);
        }
    }
    let n = crate::download_manager::count_of(gs, g0);
    assert(w[g0] == list_or_empty(c, g0) + repeat(key, n));
    assert(w[g0][list_or_empty(c, g0).len() as int] == key);
    assert(w[g0].contains(key));
}

proof fn lemma_count_positive(s: Seq<Seq<char>>, g: Seq<char>, i: int)
    requires
        0 <= i < s.len(),
        s[i] == g,
    ensures
        crate::download_manager::count_of(s, g) >= 1,
    decreases s.len(),
{
    if i < s.len() - 1 {
        lemma_count_positive(s.drop_last(), g, i);
    }
}

/// Extracting the files of a download one by one, while it is neither
/// paused nor canceled, reports it finished at the last file and not before,
/// and then counts all of its bytes as downloaded.
pub proof fn law_files_finish(steps: Seq<EpicDownloadItem>, finished: Seq<bool>)
    requires
        steps.len() == finished.len() + 1,
        finished.len() >= 1,
        steps[0].extracted_files == 0,
        steps[0].total_files == finished.len(),
        !steps[0].halted(),
        forall|i: int|
            0 <= i < finished.len() ==> EpicDownloadItem::file_counted(
                #[trigger] steps[i],
                steps[i + 1],
                finished[i],
            ),
    ensures
        finished.last(),
        forall|i: int| 0 <= i < finished.len() - 1 ==> !#[trigger] finished[i],
        steps.last().downloaded_size == steps[0].total_size,
        steps.last().extracted_files == steps[0].total_files,
{
    assert forall|i: int| 0 <= i <= finished.len() implies ({
        &&& #[trigger] steps[i].extracted_files == i
        &&& !steps[i].halted()
        &&& steps[i].total_files == steps[0].total_files
        &&& steps[i].total_size == steps[0].total_size
    }) by {
        lemma_files_counted_upto(steps, finished, i);
    }
    assert forall|i: int| 0 <= i < finished.len() - 1 implies !#[trigger] finished[i] by {
        assert(EpicDownloadItem::file_counted(steps[i], steps[i + 1], finished[i]));
        assert(steps[i + 1].extracted_files == i + 1);
    }
    let k = finished.len() - 1;
    assert(EpicDownloadItem::file_counted(steps[k], steps[k + 1], finished[k]));
    assert(steps[k + 1].extracted_files == k + 1);
}

proof fn lemma_files_counted_upto(steps: Seq<EpicDownloadItem>, finished: Seq<bool>, i: int)
    requires
        steps.len() == finished.len() + 1,
        steps[0].extracted_files == 0,
        !steps[0].halted(),
        forall|j: int|
            0 <= j < finished.len() ==> EpicDownloadItem::file_counted(
                #[trigger] steps[j],
                steps[j + 1],
                finished[j],
            ),
        0 <= i <= finished.len(),
    ensures
        steps[i].extracted_files == i,
        !steps[i].halted(),
        steps[i].total_files == steps[0].total_files,
        steps[i].total_size == steps[0].total_size,
    decreases i,
{
    if i > 0 {
        lemma_files_counted_upto(steps, finished, i - 1);
        assert(EpicDownloadItem::file_counted(steps[i - 1], steps[i], finished[i - 1]));
    }
}

/// Toggling the pause of an asset download twice asks to pause it and then
/// to resume it (or the other way round), and leaves it as it was.
pub proof fn law_pause_toggles(item: EpicDownloadItem)
    requires
        item.item_type == ItemType::Asset,
        item.release is Some,
    ensures
        ({
            let once = EpicDownloadItem { paused: !item.paused, pause_enabled: false, ..item };
            let r = item.release->0;
            &&& !item.paused ==> spec_pause_request(item) == PauseRequest::PauseAsset(r)
                && spec_pause_request(once) == PauseRequest::ResumeAsset(r)
            &&& item.paused ==> spec_pause_request(item) == PauseRequest::ResumeAsset(r)
                && spec_pause_request(once) == PauseRequest::PauseAsset(r)
            &&& (EpicDownloadItem { paused: !once.paused, pause_enabled: false, ..once }) == (EpicDownloadItem {
                pause_enabled: false,
                ..item
            })
        }),
{
}

/// A cached thumbnail's extension is never longer than four bytes.
pub proof fn law_thumbnail_extension_short(url: Seq<char>)
    ensures
        utf8_len(spec_thumbnail_extension(url)) <= 4,
{
    reveal_strlit("png");
    let p = "png"@;
    assert(p.len() == 3);
    let q2 = p.drop_last();
    let q1 = q2.drop_last();
    assert(q1.drop_last() =~= Seq::<char>::empty());
    assert(utf8_len(Seq::<char>::empty()) == 0);
    assert(q1.last() == p[0] && q2.last() == p[1] && p.last() == p[2]);
    assert(utf8_len(q1) == utf8_width(p[0]));
    assert(utf8_len(q2) == utf8_width(p[0]) + utf8_width(p[1]));
    assert(utf8_len(p) == utf8_width(p[0]) + utf8_width(p[1]) + utf8_width(p[2]));
    assert(utf8_width(p[0]) == 1 && utf8_width(p[1]) == 1 && utf8_width(p[2]) == 1);
}

/// Once an asset with a title is recorded, a link naming the product of
/// that title opens that asset, whatever was recorded before.
pub proof fn law_product_link_opens_asset(products: Map<Seq<char>, String>, title: Seq<char>, id: String)
    ensures
        ({
            let after = products.insert(product_slug(title), id);
            &&& after.contains_key(product_slug(title))
            &&& after[product_slug(title)] == id
            &&& is_product_prefix(after, product_slug(title), product_slug(title))
        }),
{
    let p = product_slug(title);
    assert(p.subrange(0, p.len() as int) =~= p);
}

proof fn lemma_insert_pos_props(sorted: Seq<Seq<char>>, x: Seq<char>)
    ensures
        0 <= insert_pos(sorted, x) <= sorted.len(),
        forall|k: int|
            insert_pos(sorted, x) <= k < sorted.len() ==> key_lt(
                spec_version_key(#[trigger] sorted[k]),
                spec_version_key(x),
            ),
        insert_pos(sorted, x) > 0 ==> !key_lt(
            spec_version_key(sorted[insert_pos(sorted, x) - 1]),
            spec_version_key(x),
        ),
    decreases sorted.len(),
{
    if sorted.len() > 0 && key_lt(spec_version_key(sorted.last()), spec_version_key(x)) {
        lemma_insert_pos_props(sorted.drop_last(), x);
        assert forall|k: int|
            insert_pos(sorted, x) <= k < sorted.len() implies key_lt(
            spec_version_key(#[trigger] sorted[k]),
            spec_version_key(x),
        ) by {
            if k < sorted.len() - 1 {
                assert(sorted.drop_last()[k] == sorted[k]);
            }
        }
        if insert_pos(sorted, x) > 0 {
            assert(sorted.drop_last()[insert_pos(sorted, x) - 1] == sorted[insert_pos(sorted, x) - 1]);
        }
    }
}

/// The engine versions offered are listed newest first, and they are the
/// versions found, each as often as it was found.
pub proof fn law_versions_newest_first(s: Seq<Seq<char>>)
    ensures
        forall|i: int, j: int|
            0 <= i < j < newest_first(s).len() ==> !key_lt(
                spec_version_key(#[trigger] newest_first(s)[i]),
                spec_version_key(#[trigger] newest_first(s)[j]),
            ),
        newest_first(s).to_multiset() =~= s.to_multiset(),
    decreases s.len(),
{
    broadcast use vstd::seq_lib::group_to_multiset_ensures;
    broadcast use vstd::multiset::group_multiset_axioms;

    if s.len() == 0 {
        assert(newest_first(s) =~= Seq::<Seq<char>>::empty());
    } else {
        let t = s.drop_last();
        let x = s.last();
        law_versions_newest_first(t);
        let sorted = newest_first(t);
        let p = insert_pos(sorted, x);
        lemma_insert_pos_props(sorted, x);
        let r = sorted.take(p) + seq![x] + sorted.skip(p);
        assert(newest_first(s) == r);
        assert(r.len() == sorted.len() + 1);
        assert forall|i: int, j: int| 0 <= i < j < r.len() implies !key_lt(
            spec_version_key(#[trigger] r[i]),
            spec_version_key(#[trigger] r[j]),
        ) by {
            if j < p {
                assert(r[i] == sorted[i] && r[j] == sorted[j]);
            } else if j == p {
                assert(r[i] == sorted[i] && r[j] == x);
                assert(!key_lt(spec_version_key(sorted[i]), spec_version_key(sorted[p - 1])));
            } else if i < p {
                assert(r[i] == sorted[i] && r[j] == sorted[j - 1]);
            } else if i == p {
                assert(r[i] == x && r[j] == sorted[j - 1]);
                assert(key_lt(spec_version_key(sorted[j - 1]), spec_version_key(x)));
            } else {
                assert(r[i] == sorted[i - 1] && r[j] == sorted[j - 1]);
            }
        }
        assert(r.remove(p) =~= sorted);
        assert(r[p] == x);
        assert(r.remove(p).to_multiset() == r.to_multiset().remove(x));
        assert(r.contains(x));
        assert(t.push(x) =~= s);
        assert(s.to_multiset() =~= t.to_multiset().insert(x));
        assert(r.to_multiset() =~= sorted.to_multiset().insert(x));
    }
}

/// An empty list has no element; one with none of its elements in it is
/// empty.
proof fn lemma_no_member_empty<A>(s: Seq<A>)
    requires
        forall|x: A| !s.contains(x),
    ensures
        s.len() == 0,
{
    if s.len() > 0 {
        assert(s.contains(s[0]));
    }
}

/// Recording the same asset a second time changes nothing: its id is
/// known by then, no category path is handed to the side bar again, and the
/// loaded assets, product names and category paths stay as the first
/// recording left them.
pub proof fn law_add_asset_twice(
    b0: EpicLibraryBox,
    b1: EpicLibraryBox,
    b2: EpicLibraryBox,
    id: String,
    title1: Option<String>,
    title2: Option<String>,
    paths: Seq<Seq<char>>,
    fresh1: Seq<Seq<char>>,
    new1: bool,
    fresh2: Seq<Seq<char>>,
    new2: bool,
)
    requires
        EpicLibraryBox::asset_recorded(b0, b1, id, title1, paths, fresh1, new1),
        EpicLibraryBox::asset_recorded(b1, b2, id, title2, paths, fresh2, new2),
    ensures
        !new2,
        fresh2.len() == 0,
        b2.loaded_assets@ == b1.loaded_assets@,
        b2.asset_product_names@ == b1.asset_product_names@,
        b2.categories@.dom() == b1.categories@.dom(),
        b2.to_load == b1.to_load,
        b2.loaded == b1.loaded,
{
    let d1 = b1.categories@.dom();
    law_chunks_fetched_once(paths, d1);
    assert forall|p: Seq<char>| !fresh2.contains(p) by {
        if paths.contains(p) {
            assert(d1.contains(p));
        }
    }
    lemma_no_member_empty(fresh2);
    assert(b2.categories@.dom() =~= d1);
}

/// Over successive recordings, each category path is handed to the side
/// bar at most once: none that the first recording handed over comes again
/// from the next, and neither hands one over twice.
pub proof fn law_category_path_once(
    b0: EpicLibraryBox,
    b1: EpicLibraryBox,
    b2: EpicLibraryBox,
    id1: String,
    id2: String,
    title1: Option<String>,
    title2: Option<String>,
    paths1: Seq<Seq<char>>,
    paths2: Seq<Seq<char>>,
    fresh1: Seq<Seq<char>>,
    new1: bool,
    fresh2: Seq<Seq<char>>,
    new2: bool,
)
    requires
        EpicLibraryBox::asset_recorded(b0, b1, id1, title1, paths1, fresh1, new1),
        EpicLibraryBox::asset_recorded(b1, b2, id2, title2, paths2, fresh2, new2),
    ensures
        forall|p: Seq<char>| fresh1.contains(p) ==> !fresh2.contains(p),
        forall|i: int, j: int| 0 <= i < j < fresh1.len() ==> fresh1[i] != fresh1[j],
        forall|i: int, j: int| 0 <= i < j < fresh2.len() ==> fresh2[i] != fresh2[j],
{
    let d0 = b0.categories@.dom();
    let d1 = b1.categories@.dom();
    law_chunks_fetched_once(paths1, d0);
    law_chunks_fetched_once(paths2, d1);
    assert forall|p: Seq<char>| fresh1.contains(p) implies !fresh2.contains(p) by {
        assert(paths1.contains(p));
        assert(d1.contains(p));
    }
}

/// Resuming the same asset a second time hands nothing back and leaves
/// the paused records as the first resumption left them.
pub proof fn law_resume_twice(
    m0: EpicDownloadManager,
    m1: EpicDownloadManager,
    m2: EpicDownloadManager,
    asset: Seq<char>,
    pending1: Seq<(Seq<char>, Seq<(Seq<char>, Seq<char>)>)>,
    pending2: Seq<(Seq<char>, Seq<(Seq<char>, Seq<char>)>)>,
)
    requires
        EpicDownloadManager::asset_resumed(m0, m1, asset, pending1),
        EpicDownloadManager::asset_resumed(m1, m2, asset, pending2),
    ensures
        pending2.len() == 0,
        pair_lists(m2.paused_asset_chunks@) == pair_lists(m1.paused_asset_chunks@),
        m2.download_items == m1.download_items,
        m2.asset_guids == m1.asset_guids,
{
    let gs = list_or_empty(str_lists(m0.asset_guids@), asset);
    let p1 = pair_lists(m1.paused_asset_chunks@);
    assert(list_or_empty(str_lists(m1.asset_guids@), asset) == gs);
    lemma_present_once(gs, p1.dom());
    let order = present_once(gs, p1.dom());
    assert forall|g: Seq<char>| !order.contains(g) by {
        if gs.contains(g) {
            assert(!p1.dom().contains(g));
        }
    }
    lemma_no_member_empty(order);
    assert(drop_listed(p1, gs) =~= p1);
}

/// A library asset that arrives a second time changes nothing, so the
/// grid never holds an id twice; after any arrival the known ids are those
/// before with the asset's id added.
pub proof fn law_fab_asset_once(
    b0: FabLibraryBox,
    b1: FabLibraryBox,
    b2: FabLibraryBox,
    id: Seq<char>,
    categories1: Seq<Option<String>>,
    categories2: Seq<Option<String>>,
    r1: bool,
    r2: bool,
)
    requires
        FabLibraryBox::fab_asset_added(b0, b1, id, categories1, r1),
        FabLibraryBox::fab_asset_added(b1, b2, id, categories2, r2),
    ensures
        b1.known_asset_ids@ == b0.known_asset_ids@.insert(id, ()),
        r1 == !b0.known_asset_ids@.contains_key(id),
        !r2,
        b2 == b1,
{
    if !r1 {
        assert(b0.known_asset_ids@.insert(id, ()) =~= b0.known_asset_ids@);
    }
}

/// Project versions are ordered by their (major, minor, patch) numbers: no
/// version is older than itself; of two different versions exactly one is
/// the older; the order is transitive; and a lower major number, else a
/// lower minor number, else a lower patch number makes a version the older.
pub proof fn law_version_key_order(a: (i32, i32, i32), b: (i32, i32, i32), c: (i32, i32, i32))
    ensures
        !key_lt(a, a),
        a != b ==> key_lt(a, b) != key_lt(b, a),
        key_lt(a, b) && key_lt(b, c) ==> key_lt(a, c),
        a.0 < b.0 ==> key_lt(a, b),
        a.0 == b.0 && a.1 < b.1 ==> key_lt(a, b),
        a.0 == b.0 && a.1 == b.1 && a.2 < b.2 ==> key_lt(a, b),
{
}

/// Where a version goes in a list sorted newest first: every version after
/// it compares as older, and the one just before it does not.
proof fn lemma_desc_insert_pos(sorted: Seq<Seq<char>>, x: Seq<char>)
    ensures
        0 <= desc_insert_pos(sorted, x) <= sorted.len(),
        forall|k: int|
            desc_insert_pos(sorted, x) <= k < sorted.len() ==> spec_version_desc_order(
                #[trigger] sorted[k],
                x,
            ) == Order::Greater,
        desc_insert_pos(sorted, x) > 0 ==> spec_version_desc_order(
            sorted[desc_insert_pos(sorted, x) - 1],
            x,
        ) != Order::Greater,
    decreases sorted.len(),
{
    if sorted.len() > 0 && spec_version_desc_order(sorted.last(), x) == Order::Greater {
        lemma_desc_insert_pos(sorted.drop_last(), x);
        assert forall|k: int|
            desc_insert_pos(sorted, x) <= k < sorted.len() implies spec_version_desc_order(
            #[trigger] sorted[k],
            x,
        ) == Order::Greater by {
            if k < sorted.len() - 1 {
                assert(sorted.drop_last()[k] == sorted[k]);
            }
        }
        if desc_insert_pos(sorted, x) > 0 {
            assert(sorted.drop_last()[desc_insert_pos(sorted, x) - 1] == sorted[desc_insert_pos(
                sorted,
                x,
            ) - 1]);
        }
    }
}

/// Whether the newest-first comparison behaves as an order on the texts of
/// `s`: when one comes after another, the other may come before it; and
/// "may come before" is transitive.
#[verifier::opaque]
pub open spec fn desc_order_consistent(s: Seq<Seq<char>>) -> bool {
    &&& forall|a: Seq<char>, b: Seq<char>|
        s.contains(a) && s.contains(b) && #[trigger] spec_version_desc_order(a, b) == Order::Greater
            ==> #[trigger] spec_version_desc_order(b, a) != Order::Greater
    &&& forall|a: Seq<char>, b: Seq<char>, c: Seq<char>|
        s.contains(a) && s.contains(b) && s.contains(c) && #[trigger] spec_version_desc_order(a, b)
            != Order::Greater && #[trigger] spec_version_desc_order(b, c) != Order::Greater
            ==> #[trigger] spec_version_desc_order(a, c) != Order::Greater
}

proof fn lemma_desc_flip(s: Seq<Seq<char>>, a: Seq<char>, b: Seq<char>)
    requires
        desc_order_consistent(s),
        s.contains(a),
        s.contains(b),
        spec_version_desc_order(a, b) == Order::Greater,
    ensures
        spec_version_desc_order(b, a) != Order::Greater,
{
    reveal(desc_order_consistent);
}

proof fn lemma_desc_trans(s: Seq<Seq<char>>, a: Seq<char>, b: Seq<char>, c: Seq<char>)
    requires
        desc_order_consistent(s),
        s.contains(a),
        s.contains(b),
        s.contains(c),
        spec_version_desc_order(a, b) != Order::Greater,
        spec_version_desc_order(b, c) != Order::Greater,
    ensures
        spec_version_desc_order(a, c) != Order::Greater,
{
    reveal(desc_order_consistent);
}

proof fn lemma_desc_consistent_prefix(s: Seq<Seq<char>>)
    requires
        s.len() > 0,
        desc_order_consistent(s),
    ensures
        desc_order_consistent(s.drop_last()),
{
    reveal(desc_order_consistent);
    let t = s.drop_last();
    assert forall|g: Seq<char>| t.contains(g) implies s.contains(g) by {
        let k = choose|k: int| 0 <= k < t.len() && t[k] == g;
        assert(s[k] == g);
    }
}

/// Sorting newest first keeps the versions given, each as often as given.
proof fn lemma_sorted_desc_permutes(s: Seq<Seq<char>>)
    ensures
        sorted_desc(s).to_multiset() =~= s.to_multiset(),
        forall|k: int| 0 <= k < sorted_desc(s).len() ==> s.contains(#[trigger] sorted_desc(s)[k]),
    decreases s.len(),
{
    broadcast use vstd::seq_lib::group_to_multiset_ensures;
    broadcast use vstd::multiset::group_multiset_axioms;

    if s.len() == 0 {
        assert(sorted_desc(s) =~= Seq::<Seq<char>>::empty());
    } else {
        let t = s.drop_last();
        let x = s.last();
        lemma_sorted_desc_permutes(t);
        let sorted = sorted_desc(t);
        let p = desc_insert_pos(sorted, x);
        lemma_desc_insert_pos(sorted, x);
        let r = sorted.take(p) + seq![x] + sorted.skip(p);
        assert(sorted_desc(s) == r);
        assert(r.remove(p) =~= sorted);
        assert(r[p] == x);
        assert(r.remove(p).to_multiset() == r.to_multiset().remove(x));
        assert(r.contains(x));
        assert(t.push(x) =~= s);
        assert(s.to_multiset() =~= t.to_multiset().insert(x));
        assert(r.to_multiset() =~= sorted.to_multiset().insert(x));
        assert forall|k: int| 0 <= k < r.len() implies s.contains(#[trigger] r[k]) by {
            assert(r.to_multiset().count(r[k]) > 0);
        }
    }
}

/// The engine versions offered for download are the versions given, each
/// as often as given, and, where the version comparison orders them, they
/// come newest first: no version is followed by a newer one.
pub proof fn law_versions_desc_sorted(s: Seq<Seq<char>>)
    requires
        desc_order_consistent(s),
    ensures
        sorted_desc(s).to_multiset() =~= s.to_multiset(),
        forall|i: int, j: int|
            0 <= i < j < sorted_desc(s).len() ==> spec_version_desc_order(
                #[trigger] sorted_desc(s)[i],
                #[trigger] sorted_desc(s)[j],
            ) != Order::Greater,
    decreases s.len(),
{
    lemma_sorted_desc_permutes(s);
    if s.len() > 0 {
        let t = s.drop_last();
        let x = s.last();
        lemma_desc_consistent_prefix(s);
        law_versions_desc_sorted(t);
        lemma_sorted_desc_permutes(t);
        assert(s[s.len() - 1] == x);
        let sorted = sorted_desc(t);
        let p = desc_insert_pos(sorted, x);
        lemma_desc_insert_pos(sorted, x);
        let r = sorted.take(p) + seq![x] + sorted.skip(p);
        assert(sorted_desc(s) == r);
        assert forall|k: int| 0 <= k < sorted.len() implies s.contains(#[trigger] sorted[k]) by {
            let g = sorted[k];
            assert(t.contains(g));
            let m = choose|m: int| 0 <= m < t.len() && t[m] == g;
            assert(s[m] == g);
        }
        assert forall|i: int, j: int| 0 <= i < j < r.len() implies spec_version_desc_order(
            #[trigger] r[i],
            #[trigger] r[j],
        ) != Order::Greater by {
            if j < p {
                assert(r[i] == sorted[i] && r[j] == sorted[j]);
            } else if j == p {
                assert(r[i] == sorted[i] && r[j] == x);
                if i < p - 1 {
                    assert(spec_version_desc_order(sorted[i], sorted[p - 1]) != Order::Greater);
                    lemma_desc_trans(s, sorted[i], sorted[p - 1], x);
                }
            } else if i < p {
                assert(r[i] == sorted[i] && r[j] == sorted[j - 1]);
            } else if i == p {
                assert(r[i] == x && r[j] == sorted[j - 1]);
                lemma_desc_flip(s, sorted[j - 1], x);
            } else {
                assert(r[i] == sorted[i - 1] && r[j] == sorted[j - 1]);
            }
        }
    } else {
        assert(sorted_desc(s) =~= Seq::<Seq<char>>::empty());
    }
}

/// A copy of a vault asset in a vault only adds the local assets action
/// (right after the download) and leaves the warning alone; a project can
/// always be added to a project and turned into a new one, and an asset
/// always added to a project.
pub proof fn law_local_copy_adds_only_local_assets(kind: Option<AssetKind>)
    ensures
        spec_detail_actions(kind, true).0.filter(|a: DetailAction| a != DetailAction::LocalAssets)
            == spec_detail_actions(kind, false).0,
        !spec_detail_actions(kind, false).0.contains(DetailAction::LocalAssets),
        spec_detail_actions(kind, true).0.contains(DetailAction::LocalAssets),
        spec_detail_actions(kind, true).1 == spec_detail_actions(kind, false).1,
        spec_detail_actions(kind, false).0[0] == DetailAction::Download,
        forall|local: bool|
            kind == Some(AssetKind::Project) ==> #[trigger] spec_detail_actions(kind, local).0.contains(
                DetailAction::CreateProject,
            ) && spec_detail_actions(kind, local).0.contains(DetailAction::AddToProject),
        forall|local: bool|
            kind == Some(AssetKind::Asset) ==> #[trigger] spec_detail_actions(kind, local).0.contains(
                DetailAction::AddToProject,
            ),
{
    let f = |a: DetailAction| a != DetailAction::LocalAssets;
    let with = spec_detail_actions(kind, true).0;
    let without = spec_detail_actions(kind, false).0;
    reveal_with_fuel(Seq::filter, 6);
    assert(with.filter(f) =~= without);
    assert(with[1] == DetailAction::LocalAssets);
    assert(!without.contains(DetailAction::LocalAssets)) by {
        if without.contains(DetailAction::LocalAssets) {
            let k = choose|k: int| 0 <= k < without.len() && without[k] == DetailAction::LocalAssets;
        }
    }
    assert forall|local: bool| kind == Some(AssetKind::Project) implies #[trigger] spec_detail_actions(
        kind,
        local,
    ).0.contains(DetailAction::CreateProject) && spec_detail_actions(kind, local).0.contains(
        DetailAction::AddToProject,
    ) by {
        let v = spec_detail_actions(kind, local).0;
        assert(v[v.len() - 1] == DetailAction::CreateProject);
        assert(v[v.len() - 2] == DetailAction::AddToProject);
    }
    assert forall|local: bool| kind == Some(AssetKind::Asset) implies #[trigger] spec_detail_actions(
        kind,
        local,
    ).0.contains(DetailAction::AddToProject) by {
        let v = spec_detail_actions(kind, local).0;
        assert(v[v.len() - 1] == DetailAction::AddToProject);
    }
}

/// The side bar order on lower-case names of two different categories:
/// exactly one comes first, the other after; "all" leads every other,
/// "downloaded" every other but "all", and "favorites" every other but
/// those two.
pub proof fn law_side_bar_order(a: Seq<char>, b: Seq<char>)
    requires
        a != b,
    ensures
        category_order_of_lower(a, b) != Order::Equal,
        (category_order_of_lower(a, b) == Order::Less) == (category_order_of_lower(b, a)
            == Order::Greater),
        a == "all"@ ==> category_order_of_lower(a, b) == Order::Less,
        a == "downloaded"@ && b != "all"@ ==> category_order_of_lower(a, b) == Order::Less,
        a == "favorites"@ && b != "all"@ && b != "downloaded"@ ==> category_order_of_lower(a, b)
            == Order::Less,
{
    lemma_lex_equal(a, b);
    lemma_lex_flip(a, b);
    lemma_lex_equal(b, a);
}

/// Two side bar categories whose names differ beyond case are ordered one
/// way round and the other way round reversed; "favorites" comes before
/// any category but "all" and "downloaded", whatever the case.
pub proof fn law_category_order_reverses(a: Seq<char>, b: Seq<char>)
    requires
        spec_to_lowercase(a) != spec_to_lowercase(b),
    ensures
        (spec_category_order(a, b) == Order::Less) == (spec_category_order(b, a) == Order::Greater),
        spec_category_order(a, b) != Order::Equal,
        spec_to_lowercase(a) == "favorites"@ && spec_to_lowercase(b) != "all"@ && spec_to_lowercase(b)
            != "downloaded"@ ==> spec_category_order(b, a) == Order::Greater,
{
    law_side_bar_order(spec_to_lowercase(a), spec_to_lowercase(b));
    law_side_bar_order(spec_to_lowercase(b), spec_to_lowercase(a));
}

/// Each part of the marketplace filter only hides: with "downloaded only"
/// an asset not downloaded never passes, with "favorites only" one not a
/// favorite never does, with a category one outside it never does, and
/// with a search one whose name does not match never does; an asset that
/// meets every part passes.
pub proof fn law_fab_filter_parts(
    f: FabFilter,
    name: Seq<char>,
    downloaded: bool,
    favorite: bool,
    in_category: bool,
)
    ensures
        f.downloaded_only && !downloaded ==> !f.passes(name, downloaded, favorite, in_category),
        f.favorites_only && !favorite ==> !f.passes(name, downloaded, favorite, in_category),
        f.category is Some && !in_category ==> !f.passes(name, downloaded, favorite, in_category),
        (f.search matches Some(q) && !fab_search_matches(name, q@)) ==> !f.passes(
            name,
            downloaded,
            favorite,
            in_category,
        ),
        (match f.search {
            Some(q) => fab_search_matches(name, q@),
            None => true,
        }) && downloaded && favorite && in_category ==> f.passes(name, true, true, true),
        f.passes(name, downloaded, favorite, in_category) ==> f.passes(name, true, true, true),
{
}

} // verus!
