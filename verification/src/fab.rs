//! Decisions of the marketplace view: the local filter, the category drop
//! down (kept sorted and without repeats), which assets are new, what a
//! marketplace search asks for, and the names of cached thumbnails.

use vstd::prelude::*;
use vstd::string::*;
use crate::download_manager::{clone_strings, opt_view, strs};
use crate::engines::Order;
use crate::library::{compare_text, lemma_lex_equal, lemma_lex_flip, lemma_lex_trans, lex_order};
use crate::outside::{spec_to_lowercase, to_lowercase};
use crate::str_map::StrMap;
use crate::text::{
    chars_of, clone_opt_string, contains_text, has_text, join_texts, join_with, nat_text, string_of,
    strip_ue, u64_text, without_ue,
};

verus! {

/// A search text as the view keeps it: none when the text is empty.
pub fn search_query(text: &str) -> (r: Option<String>)
    ensures
        text@.len() == 0 ==> r is None,
        text@.len() > 0 ==> (r matches Some(s) && s@ == text@),
{
    let s = String::from_str(text);
    if s.as_str().unicode_len() == 0 {
        None
    } else {
        Some(s)
    }
}

/// "n assets".
pub fn fab_count_label(count: u32) -> (r: String)
    ensures
        r@ == nat_text(count as nat) + " assets"@,
{
    let mut r = u64_text(count as u64);
    r.append(" assets");
    r
}

/// The marketplace page of a listing.
pub fn listing_url(uid: &str) -> (r: String)
    ensures
        r@ == "https://www.fab.com/listings/"@ + uid@,
{
    let mut r = String::from_str("https://www.fab.com/listings/");
    r.append(uid);
    r
}

/// The price shown on a search result: "Free" for a free listing, else the
/// formatted starting price when there is one, else "View on Fab".
pub fn price_label(is_free: Option<bool>, starting_price: &Option<String>) -> (r: String)
    ensures
        is_free == Some(true) ==> r@ == "Free"@,
        is_free != Some(true) ==> match starting_price {
            Some(p) => r@ == p@,
            None => r@ == "View on Fab"@,
        },
{
    if is_free == Some(true) {
        return String::from_str("Free");
    }
    match starting_price {
        Some(p) => p.clone(),
        None => String::from_str("View on Fab"),
    }
}

/// The number of bytes of `c` in UTF-8.
pub open spec fn utf8_width(c: char) -> nat {
    if (c as u32) < 0x80 {
        1
    } else if (c as u32) < 0x800 {
        2
    } else if (c as u32) < 0x10000 {
        3
    } else {
        4
    }
}

/// The number of bytes of a text in UTF-8.
pub open spec fn utf8_len(s: Seq<char>) -> nat
    decreases s.len(),
{
    if s.len() == 0 {
        0
    } else {
        utf8_len(s.drop_last()) + utf8_width(s.last())
    }
}

/// What follows the last '.' of a text (all of it when there is none).
pub open spec fn after_last_dot(s: Seq<char>) -> Seq<char>
    decreases s.len(),
{
    if s.len() == 0 {
        s
    } else if s.last() == '.' {
        Seq::empty()
    } else {
        after_last_dot(s.drop_last()).push(s.last())
    }
}

/// The file extension of a thumbnail: what follows the last '.' of its
/// address when that is at most four bytes long, else "png".
pub open spec fn spec_thumbnail_extension(url: Seq<char>) -> Seq<char> {
    if utf8_len(after_last_dot(url)) <= 4 {
        after_last_dot(url)
    } else {
        "png"@
    }
}

/// The file extension of a thumbnail (see `spec_thumbnail_extension`).
pub fn thumbnail_extension(url: &str) -> (r: String)
    ensures
        r@ == spec_thumbnail_extension(url@),
{
    let u = chars_of(url);
    let mut start: usize = u.len();
    proof {
        assert(u@.take(start as int) =~= u@);
        assert(u@.skip(start as int) =~= Seq::<char>::empty());
        assert(after_last_dot(u@) =~= after_last_dot(u@) + Seq::<char>::empty());
    }
    while start > 0 && u[start - 1] != '.'
        invariant
            start <= u@.len(),
            after_last_dot(u@) == after_last_dot(u@.take(start as int)) + u@.skip(start as int),
        decreases start,
    {
        proof {
            let t = u@.take(start as int);
            assert(t.drop_last() =~= u@.take(start - 1));
            assert(t.last() == u@[start - 1]);
            assert(u@.skip(start - 1) =~= seq![u@[start - 1]] + u@.skip(start as int));
            assert(after_last_dot(t) == after_last_dot(t.drop_last()).push(t.last()));
            assert(after_last_dot(u@.take(start - 1)).push(u@[start - 1]) + u@.skip(start as int)
                =~= after_last_dot(u@.take(start - 1)) + u@.skip(start - 1));
        }
        start = start - 1;
    }
    proof {
        let t = u@.take(start as int);
        if start > 0 {
            assert(t.last() == '.');
        } else {
            assert(t =~= Seq::<char>::empty());
        }
        assert(after_last_dot(t) =~= Seq::<char>::empty());
        assert(after_last_dot(u@) =~= u@.skip(start as int));
    }
    let mut ext: Vec<char> = Vec::new();
    let mut bytes: usize = 0;
    let mut i: usize = start;
    while i < u.len()
        invariant
            start <= i <= u@.len(),
            ext@ == u@.subrange(start as int, i as int),
            utf8_len(ext@) <= 4 ==> bytes == utf8_len(ext@),
            utf8_len(ext@) > 4 ==> bytes == 5,
        decreases u@.len() - i,
    {
        let c = u[i];
        let w: usize = if (c as u32) < 0x80 {
            1
        } else if (c as u32) < 0x800 {
            2
        } else if (c as u32) < 0x10000 {
            3
        } else {
            4
        };
        proof {
            assert(w == utf8_width(c));
            assert(ext@.push(c).drop_last() =~= ext@);
        }
        ext.push(c);
        if bytes + w <= 4 {
            bytes = bytes + w;
        } else {
            bytes = 5;
        }
        i = i + 1;
        proof {
            assert(ext@ =~= u@.subrange(start as int, i as int));
        }
    }
    proof {
        assert(ext@ =~= u@.skip(start as int));
    }
    if bytes <= 4 {
        string_of(&ext)
    } else {
        String::from_str("png")
    }
}

/// The cached file name of a thumbnail: its checksum (or else the asset's
/// id), a '.', and its extension.
pub fn thumbnail_file_name(url: &str, md5: &Option<String>, asset_id: &str) -> (r: String)
    ensures
        r@ == match md5 {
            Some(m) => m@,
            None => asset_id@,
        } + "."@ + spec_thumbnail_extension(url@),
{
    let mut r = match md5 {
        Some(m) => m.clone(),
        None => String::from_str(asset_id),
    };
    r.append(".");
    let ext = thumbnail_extension(url);
    r.append(ext.as_str());
    r
}

/// The category filter of the drop down: none for the first entry ("All")
/// or no selection (`u32::MAX`), else the filter name at that position when
/// there is one and it is not empty.
pub open spec fn spec_category_filter(selected: u32, names: Seq<Seq<char>>) -> Option<Seq<char>> {
    if selected == 0 || selected == u32::MAX {
        None
    } else if (selected as int) < names.len() && names[selected as int].len() > 0 {
        Some(names[selected as int])
    } else {
        None
    }
}

/// The category filter of the drop down (see `spec_category_filter`).
pub fn category_filter(selected: u32, names: &Vec<String>) -> (r: Option<String>)
    ensures
        match r {
            Some(s) => spec_category_filter(selected, strs(names@)) == Some(s@),
            None => spec_category_filter(selected, strs(names@)) is None,
        },
{
    if selected == 0 || selected == u32::MAX {
        return None;
    }
    let i = selected as usize;
    if i < names.len() && names[i].as_str().unicode_len() > 0 {
        Some(names[i].clone())
    } else {
        None
    }
}

/// The marketplace category picked at a position of the drop down while
/// browsing: the filter name there, none when it is empty or missing.
pub fn browse_category_at(selected: u32, names: &Vec<String>) -> (r: Option<String>)
    ensures
        ((selected as int) < names@.len() && names@[selected as int]@.len() > 0) ==> (r matches Some(
            s,
        ) && s@ == names@[selected as int]@),
        !((selected as int) < names@.len() && names@[selected as int]@.len() > 0) ==> r is None,
{
    let i = selected as usize;
    if i < names.len() && names[i].as_str().unicode_len() > 0 {
        Some(names[i].clone())
    } else {
        None
    }
}

/// The filter over the assets of the user's own marketplace library.
pub struct FabFilter {
    pub search: Option<String>,
    pub downloaded_only: bool,
    pub favorites_only: bool,
    pub category: Option<String>,
}

/// Whether an asset name matches a search: the search text occurs in the
/// name, both in lower case.
pub open spec fn fab_search_matches(name: Seq<char>, search: Seq<char>) -> bool {
    contains_text(spec_to_lowercase(name), spec_to_lowercase(search))
}

impl FabFilter {
    /// Whether an asset passes the filter; `in_category` is the outcome of
    /// the asset's own check against `category`, asked only when that is set.
    pub open spec fn passes(&self, name: Seq<char>, downloaded: bool, favorite: bool, in_category: bool) -> bool {
        &&& match self.search {
            Some(s) => fab_search_matches(name, s@),
            None => true,
        }
        &&& (!self.downloaded_only || downloaded)
        &&& (!self.favorites_only || favorite)
        &&& (self.category is None || in_category)
    }

    /// Whether an asset passes the filter (see `passes`).
    pub fn matches(&self, name: &str, downloaded: bool, favorite: bool, in_category: bool) -> (r: bool)
        ensures
            r == self.passes(name@, downloaded, favorite, in_category),
    {
        let found = match &self.search {
            Some(s) => {
                let n = chars_of(to_lowercase(name).as_str());
                let q = chars_of(to_lowercase(s.as_str()).as_str());
                has_text(&n, &q)
            },
            None => true,
        };
        found && (!self.downloaded_only || downloaded) && (!self.favorites_only || favorite) && (
        self.category.is_none() || in_category)
    }
}

/// Texts in strictly increasing code point order: sorted, and none twice.
pub open spec fn strictly_sorted(s: Seq<Seq<char>>) -> bool {
    forall|i: int, j: int| 0 <= i < j < s.len() ==> lex_order(#[trigger] s[i], #[trigger] s[j]) == Order::Less
}

/// Adds `name` to a strictly sorted list, where it belongs; the result tells
/// whether it was not there yet (otherwise the list is unchanged).
pub fn insert_sorted(names: &mut Vec<String>, name: &String) -> (r: bool)
    requires
        strictly_sorted(strs(old(names)@)),
    ensures
        strictly_sorted(strs(final(names)@)),
        r == !strs(old(names)@).contains(name@),
        !r ==> *final(names) == *old(names),
        r ==> final(names)@.len() == old(names)@.len() + 1,
        forall|p: Seq<char>| #[trigger] strs(final(names)@).contains(p) <==> (strs(old(names)@).contains(p) || p == name@),
{
    let ghost s = strs(names@);
    let key = chars_of(name.as_str());
    let mut k: usize = 0;
    while k < names.len()
        invariant
            k <= names@.len(),
            *names == *old(names),
            s == strs(names@),
            strictly_sorted(s),
            key@ == name@,
            forall|j: int| 0 <= j < k ==> lex_order(#[trigger] s[j], name@) == Order::Less,
        ensures
            k <= names@.len(),
            *names == *old(names),
            s == strs(names@),
            strictly_sorted(s),
            forall|j: int| 0 <= j < k ==> lex_order(#[trigger] s[j], name@) == Order::Less,
            k < names@.len() ==> lex_order(s[k as int], name@) == Order::Greater,
        decreases names@.len() - k,
    {
        let here = chars_of(names[k].as_str());
        let o = compare_text(&here, &key);
        assert(s[k as int] == names@[k as int]@);
        match o {
            Order::Less => {},
            Order::Equal => {
                proof {
                    lemma_lex_equal(s[k as int], name@);
                    assert(s[k as int] == name@);
                }
                return false;
            },
            Order::Greater => {
                break;
            },
        }
        k = k + 1;
    }
    proof {
        assert forall|j: int| 0 <= j < s.len() implies s[j] != name@ by {
            if j < k {
                lemma_lex_equal(s[j], name@);
            } else {
                lemma_lex_flip(name@, s[k as int]);
                if j > k {
                    lemma_lex_trans(name@, s[k as int], s[j]);
                }
                lemma_lex_equal(name@, s[j]);
            }
        }
    }
    names.insert(k, name.clone());
    proof {
        let t = strs(names@);
        assert(t =~= s.insert(k as int, name@));
        if k < s.len() {
            lemma_lex_flip(name@, s[k as int]);
        }
        assert forall|i: int, j: int| 0 <= i < j < t.len() implies lex_order(#[trigger] t[i], #[trigger] t[j])
            == Order::Less by {
            if j < k {
                assert(t[i] == s[i] && t[j] == s[j]);
            } else if j == k {
                assert(t[i] == s[i]);
            } else if i == k {
                assert(t[j] == s[j - 1]);
                if j - 1 > k {
                    lemma_lex_trans(name@, s[k as int], s[j - 1]);
                }
            } else if i < k {
                assert(t[i] == s[i] && t[j] == s[j - 1]);
            } else {
                assert(t[i] == s[i - 1] && t[j] == s[j - 1]);
            }
        }
        assert forall|p: Seq<char>| #[trigger] t.contains(p) <==> (s.contains(p) || p == name@) by {
            if t.contains(p) {
                let q = choose|q: int| 0 <= q < t.len() && t[q] == p;
                if q < k {
                    assert(s[q] == p);
                } else if q > k {
                    assert(s[q - 1] == p);
                }
            }
            if s.contains(p) {
                let q = choose|q: int| 0 <= q < s.len() && s[q] == p;
                if q < k {
                    assert(t[q] == p);
                } else {
                    assert(t[q + 1] == p);
                }
            }
            if p == name@ {
                assert(t[k as int] == p);
            }
        }
    }
    true
}

/// A tag of the marketplace taxonomy.
pub struct FabTag {
    pub name: Option<String>,
    pub slug: Option<String>,
}

/// A group of tags of the marketplace taxonomy.
pub struct FabTagGroup {
    pub tags: Option<Vec<FabTag>>,
}

/// The drop down entries of some tags: for each tag with a name, that name
/// as label and its slug (or nothing) as filter name.
pub open spec fn tag_entries(tags: Seq<FabTag>) -> Seq<(Seq<char>, Seq<char>)>
    decreases tags.len(),
{
    if tags.len() == 0 {
        Seq::empty()
    } else {
        let prev = tag_entries(tags.drop_last());
        match tags.last().name {
            Some(n) => prev.push(
                (
                    n@,
                    match tags.last().slug {
                        Some(g) => g@,
                        None => Seq::empty(),
                    },
                ),
            ),
            None => prev,
        }
    }
}

/// The drop down entries of a taxonomy, group after group.
pub open spec fn taxonomy_entries(groups: Seq<FabTagGroup>) -> Seq<(Seq<char>, Seq<char>)>
    decreases groups.len(),
{
    if groups.len() == 0 {
        Seq::empty()
    } else {
        taxonomy_entries(groups.drop_last()) + match groups.last().tags {
            Some(t) => tag_entries(t@),
            None => Seq::empty(),
        }
    }
}

/// What a marketplace search asks the store for.
pub struct FabBrowseQuery {
    pub channels: String,
    pub count: u32,
    pub sort_by: String,
    pub cursor: Option<String>,
    pub q: Option<String>,
    pub categories: Option<String>,
    pub is_free: Option<bool>,
    pub min_discount_percentage: Option<u32>,
}

/// Whether `p` is one of the (non-empty) category names of an asset.
pub open spec fn category_named(names: Seq<Option<String>>, p: Seq<char>) -> bool {
    p.len() > 0 && exists|i: int| 0 <= i < names.len() && opt_view(#[trigger] names[i]) == Some(p)
}

/// The labels of some drop down entries.
pub open spec fn entry_labels(e: Seq<(Seq<char>, Seq<char>)>) -> Seq<Seq<char>> {
    e.map_values(|x: (Seq<char>, Seq<char>)| x.0)
}

/// The filter names of some drop down entries.
pub open spec fn entry_filters(e: Seq<(Seq<char>, Seq<char>)>) -> Seq<Seq<char>> {
    e.map_values(|x: (Seq<char>, Seq<char>)| x.1)
}

/// Appends the drop down entries of some tags.
fn push_tag_entries(tags: &Vec<FabTag>, labels: &mut Vec<String>, filters: &mut Vec<String>)
    ensures
        strs(final(labels)@) == strs(old(labels)@) + entry_labels(tag_entries(tags@)),
        strs(final(filters)@) == strs(old(filters)@) + entry_filters(tag_entries(tags@)),
{
    let mut i: usize = 0;
    proof {
        assert(tags@.take(0) =~= Seq::<FabTag>::empty());
        assert(strs(labels@) =~= strs(old(labels)@) + entry_labels(tag_entries(tags@.take(0))));
        assert(strs(filters@) =~= strs(old(filters)@) + entry_filters(tag_entries(tags@.take(0))));
    }
    while i < tags.len()
        invariant
            i <= tags@.len(),
            strs(labels@) == strs(old(labels)@) + entry_labels(tag_entries(tags@.take(i as int))),
            strs(filters@) == strs(old(filters)@) + entry_filters(tag_entries(tags@.take(i as int))),
        decreases tags@.len() - i,
    {
        let t = &tags[i];
        let ghost before = tags@.take(i as int);
        let ghost l0 = labels@;
        let ghost f0 = filters@;
        proof {
            assert(tags@.take(i + 1).drop_last() =~= before);
            assert(tags@.take(i + 1).last() == *t);
        }
        match &t.name {
            Some(n) => {
                labels.push(n.clone());
                let g = match &t.slug {
                    Some(g) => g.clone(),
                    None => String::new(),
                };
                filters.push(g);
                proof {
                    let e = tag_entries(before);
                    let x = (n@, g@);
                    assert(tag_entries(tags@.take(i + 1)) == e.push(x));
                    assert(entry_labels(e.push(x)) =~= entry_labels(e).push(n@));
                    assert(entry_filters(e.push(x)) =~= entry_filters(e).push(g@));
                    assert(strs(labels@) =~= strs(l0).push(n@));
                    assert(strs(filters@) =~= strs(f0).push(g@));
                }
            },
            None => {
                proof {
                    assert(tag_entries(tags@.take(i + 1)) == tag_entries(before));
                }
            },
        }
        i = i + 1;
    }
    proof {
        assert(tags@.take(tags@.len() as int) =~= tags@);
    }
}

/// The drop down entries of a taxonomy: "All" first, then the entries of
/// each group.
fn taxonomy_dropdown(groups: &Vec<FabTagGroup>) -> (r: (Vec<String>, Vec<String>))
    ensures
        strs(r.0@) == seq!["All"@] + entry_labels(taxonomy_entries(groups@)),
        strs(r.1@) == seq![Seq::<char>::empty()] + entry_filters(taxonomy_entries(groups@)),
{
    let mut labels: Vec<String> = vec![String::from_str("All")];
    let mut filters: Vec<String> = vec![String::new()];
    let mut i: usize = 0;
    proof {
        reveal_strlit("All");
        assert(groups@.take(0) =~= Seq::<FabTagGroup>::empty());
        assert(strs(labels@) =~= seq!["All"@] + entry_labels(taxonomy_entries(groups@.take(0))));
        assert(strs(filters@) =~= seq![Seq::<char>::empty()] + entry_filters(taxonomy_entries(groups@.take(0))));
    }
    while i < groups.len()
        invariant
            i <= groups@.len(),
            strs(labels@) == seq!["All"@] + entry_labels(taxonomy_entries(groups@.take(i as int))),
            strs(filters@) == seq![Seq::<char>::empty()] + entry_filters(taxonomy_entries(groups@.take(i as int))),
        decreases groups@.len() - i,
    {
        let g = &groups[i];
        let ghost before = groups@.take(i as int);
        let ghost l0 = labels@;
        let ghost f0 = filters@;
        proof {
            assert(groups@.take(i + 1).drop_last() =~= before);
            assert(groups@.take(i + 1).last() == *g);
        }
        match &g.tags {
            Some(tags) => {
                push_tag_entries(tags, &mut labels, &mut filters);
                proof {
                    let e = taxonomy_entries(before);
                    let te = tag_entries(tags@);
                    assert(taxonomy_entries(groups@.take(i + 1)) == e + te);
                    assert(entry_labels(e + te) =~= entry_labels(e) + entry_labels(te));
                    assert(entry_filters(e + te) =~= entry_filters(e) + entry_filters(te));
                }
            },
            None => {
                proof {
                    assert(taxonomy_entries(groups@.take(i + 1)) =~= taxonomy_entries(before));
                }
            },
        }
        i = i + 1;
    }
    proof {
        assert(groups@.take(groups@.len() as int) =~= groups@);
    }
    (labels, filters)
}

/// The first position of `x` in `s`, if any.
pub open spec fn first_position(s: Seq<Seq<char>>, x: Seq<char>, p: int) -> bool {
    0 <= p < s.len() && s[p] == x && forall|q: int| 0 <= q < p ==> s[q] != x
}

/// The marketplace view: the user's library with its local filter, and the
/// store's search results while browsing.
pub struct FabLibraryBox {
    pub browse_mode: bool,
    /// The store category searched while browsing.
    pub browse_category: Option<String>,
    /// Where the next page of search results starts.
    pub browse_cursor: Option<String>,
    /// The search results shown so far.
    pub browse_known_ids: StrMap<()>,
    pub search: Option<String>,
    /// The assets of the user's library shown so far.
    pub known_asset_ids: StrMap<()>,
    /// The category names of those assets, sorted, none twice.
    pub category_names: Vec<String>,
    /// The labels of the category drop down.
    pub category_labels: Vec<String>,
    /// The filter name behind each label: none for "All".
    pub category_filter_names: Vec<String>,
    /// The position picked in the drop down.
    pub selected_category: u32,
    pub taxonomy_loaded: bool,
    pub fab_taxonomy: Option<Vec<FabTagGroup>>,
}

impl FabLibraryBox {
    pub open spec fn wf(&self) -> bool {
        &&& self.browse_known_ids.wf()
        &&& self.known_asset_ids.wf()
        &&& strictly_sorted(strs(self.category_names@))
        &&& self.category_labels@.len() == self.category_filter_names@.len()
    }

    /// The drop down as the local categories make it: "All", then each name.
    pub open spec fn local_dropdown(&self) -> bool {
        &&& strs(self.category_labels@) == seq!["All"@] + strs(self.category_names@)
        &&& strs(self.category_filter_names@) == seq![Seq::<char>::empty()] + strs(
            self.category_names@,
        )
    }

    pub fn new() -> (r: Self)
        ensures
            r.wf(),
            r.local_dropdown(),
            !r.browse_mode,
            r.browse_category is None && r.browse_cursor is None && r.search is None,
            r.browse_known_ids@ == Map::<Seq<char>, ()>::empty(),
            r.known_asset_ids@ == Map::<Seq<char>, ()>::empty(),
            r.category_names@.len() == 0,
            r.selected_category == 0,
            !r.taxonomy_loaded && r.fab_taxonomy is None,
    {
        let r = FabLibraryBox {
            browse_mode: false,
            browse_category: None,
            browse_cursor: None,
            browse_known_ids: StrMap::new(),
            search: None,
            known_asset_ids: StrMap::new(),
            category_names: Vec::new(),
            category_labels: vec![String::from_str("All")],
            category_filter_names: vec![String::new()],
            selected_category: 0,
            taxonomy_loaded: false,
            fab_taxonomy: None,
        };
        proof {
            reveal_strlit("All");
            assert(strs(r.category_labels@) =~= seq!["All"@] + strs(r.category_names@));
            assert(strs(r.category_filter_names@) =~= seq![Seq::<char>::empty()] + strs(
                r.category_names@,
            ));
        }
        r
    }

    /// The filter name at the picked position of the drop down, or nothing.
    pub open spec fn picked_name(&self) -> Seq<char> {
        if (self.selected_category as int) < self.category_filter_names@.len() {
            self.category_filter_names@[self.selected_category as int]@
        } else {
            Seq::empty()
        }
    }

    /// Builds the drop down from the local category names and picks again
    /// the name picked before: its first position, else "All".
    pub fn rebuild_category_dropdown(&mut self)
        requires
            old(self).wf(),
            old(self).category_names@.len() < u32::MAX,
        ensures
            final(self).wf(),
            final(self).local_dropdown(),
            first_position(strs(final(self).category_filter_names@), old(self).picked_name(), final(self).selected_category as int)
                || (!strs(final(self).category_filter_names@).contains(old(self).picked_name())
                && final(self).selected_category == 0),
            *final(self) == (FabLibraryBox {
                category_labels: final(self).category_labels,
                category_filter_names: final(self).category_filter_names,
                selected_category: final(self).selected_category,
                ..*old(self)
            }),
    {
        let i = self.selected_category as usize;
        let prev = if i < self.category_filter_names.len() {
            self.category_filter_names[i].clone()
        } else {
            String::new()
        };
        let ghost prev_name = old(self).picked_name();
        assert(prev@ == prev_name);
        let mut labels: Vec<String> = vec![String::from_str("All")];
        let mut filters: Vec<String> = vec![String::new()];
        let mut k: usize = 0;
        proof {
            reveal_strlit("All");
            assert(strs(labels@) =~= seq!["All"@] + strs(self.category_names@).take(0));
            assert(strs(filters@) =~= seq![Seq::<char>::empty()] + strs(self.category_names@).take(0));
        }
        while k < self.category_names.len()
            invariant
                k <= self.category_names@.len(),
                *self == *old(self),
                strs(labels@) == seq!["All"@] + strs(self.category_names@).take(k as int),
                strs(filters@) == seq![Seq::<char>::empty()] + strs(self.category_names@).take(k as int),
            decreases self.category_names@.len() - k,
        {
            let ghost l0 = labels@;
            let ghost f0 = filters@;
            labels.push(self.category_names[k].clone());
            filters.push(self.category_names[k].clone());
            proof {
                assert(strs(self.category_names@).take(k + 1) =~= strs(self.category_names@).take(k as int).push(self.category_names@[k as int]@));
                assert(strs(labels@) =~= strs(l0).push(self.category_names@[k as int]@));
                assert(strs(filters@) =~= strs(f0).push(self.category_names@[k as int]@));
            }
            k = k + 1;
        }
        proof {
            assert(strs(self.category_names@).take(k as int) =~= strs(self.category_names@));
        }
        let mut p: usize = 0;
        while p < filters.len() && filters[p] != prev
            invariant
                p <= filters@.len(),
                prev@ == prev_name,
                filters@.len() == self.category_names@.len() + 1,
                forall|q: int| 0 <= q < p ==> filters@[q]@ != prev_name,
            decreases filters@.len() - p,
        {
            p = p + 1;
        }
        let found = p < filters.len();
        let ghost fs = strs(filters@);
        proof {
            if found {
                assert(fs[p as int] == prev_name);
                assert forall|q: int| 0 <= q < p implies fs[q] != prev_name by {
                    assert(fs[q] == filters@[q]@);
                }
            } else {
                assert forall|q: int| 0 <= q < fs.len() implies fs[q] != prev_name by {
                    assert(fs[q] == filters@[q]@);
                }
            }
        }
        self.category_labels = labels;
        self.category_filter_names = filters;
        self.selected_category = if found {
            p as u32
        } else {
            0
        };
    }

    /// Takes the category names of an asset into the drop down: each
    /// non-empty name not known yet joins the sorted names; when one did,
    /// the drop down is built again (see `rebuild_category_dropdown`) and
    /// the result is true.
    pub fn add_asset_categories(&mut self, names: &Vec<Option<String>>) -> (r: bool)
        requires
            old(self).wf(),
            old(self).category_names@.len() + names@.len() < u32::MAX,
        ensures
            final(self).wf(),
            final(self).category_names@.len() <= old(self).category_names@.len() + names@.len(),
            forall|p: Seq<char>| #[trigger] strs(final(self).category_names@).contains(p) <==> (strs(
                old(self).category_names@,
            ).contains(p) || category_named(names@, p)),
            r == exists|p: Seq<char>| category_named(names@, p) && !strs(old(self).category_names@).contains(p),
            !r ==> *final(self) == *old(self),
            r ==> final(self).local_dropdown() && (first_position(
                strs(final(self).category_filter_names@),
                old(self).picked_name(),
                final(self).selected_category as int,
            ) || (!strs(final(self).category_filter_names@).contains(old(self).picked_name())
                && final(self).selected_category == 0)),
            r ==> *final(self) == (FabLibraryBox {
                category_names: final(self).category_names,
                category_labels: final(self).category_labels,
                category_filter_names: final(self).category_filter_names,
                selected_category: final(self).selected_category,
                ..*old(self)
            }),
    {
        let mut changed = false;
        let mut i: usize = 0;
        while i < names.len()
            invariant
                i <= names@.len(),
                self.wf(),
                self.category_names@.len() <= old(self).category_names@.len() + i,
                old(self).category_names@.len() + names@.len() < u32::MAX,
                *self == (FabLibraryBox { category_names: self.category_names, ..*old(self) }),
                forall|p: Seq<char>| #[trigger] strs(self.category_names@).contains(p) <==> (strs(
                    old(self).category_names@,
                ).contains(p) || category_named(names@.take(i as int), p)),
                changed == exists|p: Seq<char>| category_named(names@.take(i as int), p) && !strs(
                    old(self).category_names@,
                ).contains(p),
                !changed ==> self.category_names == old(self).category_names,
            decreases names@.len() - i,
        {
            let ghost before = names@.take(i as int);
            let ghost after = names@.take(i + 1);
            let ghost c0 = changed;
            proof {
                assert(after =~= before.push(names@[i as int]));
                assert forall|p: Seq<char>| #[trigger] category_named(after, p) <==> (category_named(before, p) || (p.len() > 0 && opt_view(names@[i as int]) == Some(p))) by {
                    if category_named(after, p) {
                        let q = choose|q: int| 0 <= q < after.len() && opt_view(#[trigger] after[q]) == Some(p);
                        if q < i {
                            assert(before[q] == after[q]);
                        }
                    }
                    if category_named(before, p) {
                        let q = choose|q: int| 0 <= q < before.len() && opt_view(#[trigger] before[q]) == Some(p);
                        assert(after[q] == before[q]);
                    }
                    if p.len() > 0 && opt_view(names@[i as int]) == Some(p) {
                        assert(after[i as int] == names@[i as int]);
                    }
                }
            }
            match &names[i] {
                Some(n) => {
                    if n.as_str().unicode_len() > 0 {
                        let added = insert_sorted(&mut self.category_names, n);
                        if added {
                            changed = true;
                        }
                        proof {
                            assert(opt_view(names@[i as int]) == Some(n@));
                            if added {
                                assert(category_named(after, n@));
                            }
                        }
                    }
                },
                None => {},
            }
            i = i + 1;
        }
        proof {
            assert(names@.take(names@.len() as int) =~= names@);
        }
        if changed {
            self.rebuild_category_dropdown();
        }
        changed
    }

    /// `n` is `o` after the library asset `id`, with the category names
    /// `categories`, arrived, and `r` tells whether its id was new (see
    /// `add_fab_asset`).
    pub open spec fn fab_asset_added(
        o: FabLibraryBox,
        n: FabLibraryBox,
        id: Seq<char>,
        categories: Seq<Option<String>>,
        r: bool,
    ) -> bool {
        let fresh = exists|p: Seq<char>| category_named(categories, p) && !strs(o.category_names@).contains(p);
        &&& r == !o.known_asset_ids@.contains_key(id)
        &&& !r ==> n == o
        &&& r ==> n.known_asset_ids@ == o.known_asset_ids@.insert(id, ())
        &&& n.category_names@.len() <= o.category_names@.len() + categories.len()
        &&& r ==> forall|p: Seq<char>| #[trigger] strs(n.category_names@).contains(p) <==> (strs(
            o.category_names@,
        ).contains(p) || category_named(categories, p))
        &&& r ==> n == (FabLibraryBox {
            known_asset_ids: n.known_asset_ids,
            category_names: n.category_names,
            category_labels: n.category_labels,
            category_filter_names: n.category_filter_names,
            selected_category: n.selected_category,
            ..o
        })
        &&& r && fresh ==> n.local_dropdown() && (first_position(
            strs(n.category_filter_names@),
            o.picked_name(),
            n.selected_category as int,
        ) || (!strs(n.category_filter_names@).contains(o.picked_name()) && n.selected_category == 0))
        &&& r && !fresh ==> n.category_names == o.category_names && n.category_labels == o.category_labels
            && n.category_filter_names == o.category_filter_names && n.selected_category
            == o.selected_category
    }

    /// An asset of the user's library arrived: when its id is new it is
    /// recorded, its category names join the drop down, and the result is
    /// true; a known id changes nothing.
    pub fn add_fab_asset(&mut self, id: &String, categories: &Vec<Option<String>>) -> (r: bool)
        requires
            old(self).wf(),
            old(self).category_names@.len() + categories@.len() < u32::MAX,
        ensures
            final(self).wf(),
            Self::fab_asset_added(*old(self), *final(self), id@, categories@, r),
    {
        if self.known_asset_ids.contains_key(id) {
            return false;
        }
        self.known_asset_ids.insert(id.clone(), ());
        self.add_asset_categories(categories);
        true
    }

    /// A search result arrived: when its id is new it is recorded and the
    /// result is true; a known id changes nothing.
    pub fn add_fab_browse_result(&mut self, id: &String) -> (r: bool)
        requires
            old(self).wf(),
        ensures
            final(self).wf(),
            r == !old(self).browse_known_ids@.contains_key(id@),
            !r ==> *final(self) == *old(self),
            r ==> final(self).browse_known_ids@ == old(self).browse_known_ids@.insert(id@, ()),
            r ==> *final(self) == (FabLibraryBox { browse_known_ids: final(self).browse_known_ids, ..*old(self) }),
    {
        if self.browse_known_ids.contains_key(id) {
            return false;
        }
        self.browse_known_ids.insert(id.clone(), ());
        true
    }

    /// A page of search results ended: `cursor` is where the next one
    /// starts; the result tells whether more can be loaded (while browsing,
    /// with a cursor).
    pub fn flush_fab_browse_results(&mut self, cursor: Option<String>) -> (r: bool)
        ensures
            *final(self) == (FabLibraryBox { browse_cursor: cursor, ..*old(self) }),
            r == (old(self).browse_mode && cursor is Some),
    {
        let more = cursor.is_some();
        self.browse_cursor = cursor;
        self.browse_mode && more
    }

    /// What the next page of a store search asks for: Unreal Engine
    /// listings, forty at a time, newest first, from `cursor`, with the
    /// search text and category; free ones only when `free`, discounted
    /// ones only when `on_sale`.
    pub fn browse_query(&self, cursor: Option<String>, free: bool, on_sale: bool) -> (r: FabBrowseQuery)
        ensures
            r.channels@ == "unreal-engine"@,
            r.count == 40,
            r.sort_by@ == "-createdAt"@,
            r.cursor == cursor,
            opt_view(r.q) == opt_view(self.search),
            opt_view(r.categories) == opt_view(self.browse_category),
            r.is_free == (if free { Some(true) } else { None }),
            r.min_discount_percentage == (if on_sale { Some(1u32) } else { None }),
    {
        FabBrowseQuery {
            channels: String::from_str("unreal-engine"),
            count: 40,
            sort_by: String::from_str("-createdAt"),
            cursor,
            q: clone_opt_string(&self.search),
            categories: clone_opt_string(&self.browse_category),
            is_free: if free {
                Some(true)
            } else {
                None
            },
            min_discount_percentage: if on_sale {
                Some(1)
            } else {
                None
            },
        }
    }

    /// The store's taxonomy arrived: it is kept; while browsing, the drop
    /// down becomes "All" and the named tags of each group (their slugs as
    /// filter names), with "All" picked.
    pub fn apply_fab_taxonomy(&mut self, groups: Vec<FabTagGroup>)
        requires
            old(self).wf(),
        ensures
            final(self).wf(),
            final(self).fab_taxonomy == Some(groups),
            !old(self).browse_mode ==> *final(self) == (FabLibraryBox { fab_taxonomy: Some(groups), ..*old(self) }),
            old(self).browse_mode ==> strs(final(self).category_labels@) == seq!["All"@] + entry_labels(
                taxonomy_entries(groups@),
            ) && strs(final(self).category_filter_names@) == seq![Seq::<char>::empty()] + entry_filters(
                taxonomy_entries(groups@),
            ) && final(self).selected_category == 0,
            old(self).browse_mode ==> *final(self) == (FabLibraryBox {
                fab_taxonomy: Some(groups),
                category_labels: final(self).category_labels,
                category_filter_names: final(self).category_filter_names,
                selected_category: 0,
                ..*old(self)
            }),
    {
        if !self.browse_mode {
            self.fab_taxonomy = Some(groups);
            return;
        }
        let (labels, filters) = taxonomy_dropdown(&groups);
        proof {
            assert(strs(labels@).len() == strs(filters@).len());
        }
        self.category_labels = labels;
        self.category_filter_names = filters;
        self.selected_category = 0;
        self.fab_taxonomy = Some(groups);
    }

    /// Switches between the user's library and the store. Into the store:
    /// the result tells whether the taxonomy must still be fetched (only the
    /// first time), a taxonomy at hand fills the drop down, and the results
    /// start over. Back to the library: no store category, and the drop
    /// down is built from the local names again.
    pub fn set_browse_mode(&mut self, browse: bool) -> (r: bool)
        requires
            old(self).wf(),
            old(self).category_names@.len() < u32::MAX,
        ensures
            final(self).wf(),
            final(self).browse_mode == browse,
            r == (browse && !old(self).taxonomy_loaded),
            final(self).taxonomy_loaded == (old(self).taxonomy_loaded || browse),
            final(self).fab_taxonomy == old(self).fab_taxonomy,
            final(self).search == old(self).search,
            final(self).known_asset_ids == old(self).known_asset_ids,
            final(self).category_names == old(self).category_names,
            browse ==> final(self).browse_cursor is None && final(self).browse_known_ids@ == Map::<Seq<char>, ()>::empty()
                && final(self).browse_category == old(self).browse_category,
            browse ==> match old(self).fab_taxonomy {
                Some(g) => strs(final(self).category_labels@) == seq!["All"@] + entry_labels(
                    taxonomy_entries(g@),
                ) && strs(final(self).category_filter_names@) == seq![Seq::<char>::empty()] + entry_filters(
                    taxonomy_entries(g@),
                ) && final(self).selected_category == 0,
                None => final(self).category_labels == old(self).category_labels
                    && final(self).category_filter_names == old(self).category_filter_names
                    && final(self).selected_category == old(self).selected_category,
            },
            !browse ==> final(self).browse_category is None && final(self).browse_cursor == old(self).browse_cursor
                && final(self).browse_known_ids == old(self).browse_known_ids && final(self).local_dropdown() && (
            first_position(
                strs(final(self).category_filter_names@),
                old(self).picked_name(),
                final(self).selected_category as int,
            ) || (!strs(final(self).category_filter_names@).contains(old(self).picked_name())
                && final(self).selected_category == 0)),
    {
        self.browse_mode = browse;
        if browse {
            let fetch = !self.taxonomy_loaded;
            self.taxonomy_loaded = true;
            let cached = self.fab_taxonomy.take();
            match cached {
                Some(groups) => {
                    self.apply_fab_taxonomy(groups);
                },
                None => {},
            }
            self.reset_browse();
            fetch
        } else {
            self.browse_category = None;
            self.rebuild_category_dropdown();
            false
        }
    }

    /// A position of the category drop down was picked. While browsing the
    /// filter name there becomes the store category (none when empty or
    /// missing), the results start over, and the result is true (a new
    /// search is due); otherwise only the pick changes (the local filter is
    /// renewed).
    pub fn category_selected(&mut self, selected: u32) -> (r: bool)
        requires
            old(self).wf(),
        ensures
            final(self).wf(),
            r == old(self).browse_mode,
            final(self).selected_category == selected,
            !r ==> *final(self) == (FabLibraryBox { selected_category: selected, ..*old(self) }),
            r ==> final(self).browse_cursor is None && final(self).browse_known_ids@ == Map::<Seq<char>, ()>::empty(),
            r ==> ((selected as int) < old(self).category_filter_names@.len()
                && old(self).category_filter_names@[selected as int]@.len() > 0 ==> opt_view(final(self).browse_category)
                == Some(old(self).category_filter_names@[selected as int]@)),
            r ==> (!((selected as int) < old(self).category_filter_names@.len()
                && old(self).category_filter_names@[selected as int]@.len() > 0) ==> final(self).browse_category is None),
            r ==> *final(self) == (FabLibraryBox {
                selected_category: selected,
                browse_category: final(self).browse_category,
                browse_cursor: None,
                browse_known_ids: final(self).browse_known_ids,
                ..*old(self)
            }),
    {
        self.selected_category = selected;
        if self.browse_mode {
            self.browse_category = browse_category_at(selected, &self.category_filter_names);
            self.reset_browse();
            true
        } else {
            false
        }
    }

    /// The filter over the user's library: none while browsing, or when no
    /// search, toggle or category restricts it; else the search, the two
    /// toggles and the category picked in the drop down.
    pub fn current_filter(&self, downloaded_only: bool, favorites_only: bool) -> (r: Option<FabFilter>)
        ensures
            self.browse_mode ==> r is None,
            !self.browse_mode ==> match r {
                None => self.search is None && !downloaded_only && !favorites_only && spec_category_filter(
                    self.selected_category,
                    strs(self.category_filter_names@),
                ) is None,
                Some(f) => opt_view(f.search) == opt_view(self.search) && f.downloaded_only
                    == downloaded_only && f.favorites_only == favorites_only && opt_view(f.category)
                    == spec_category_filter(self.selected_category, strs(self.category_filter_names@)) && !(
                self.search is None && !downloaded_only && !favorites_only && f.category is None),
            },
    {
        if self.browse_mode {
            return None;
        }
        let category = category_filter(self.selected_category, &self.category_filter_names);
        if self.search.is_none() && !downloaded_only && !favorites_only && category.is_none() {
            return None;
        }
        Some(
            FabFilter {
                search: clone_opt_string(&self.search),
                downloaded_only,
                favorites_only,
                category,
            },
        )
    }

    /// Forgets the user's library: no asset and no category known, the drop
    /// down back to "All" alone.
    pub fn clear(&mut self)
        requires
            old(self).wf(),
        ensures
            final(self).wf(),
            final(self).local_dropdown(),
            final(self).known_asset_ids@ == Map::<Seq<char>, ()>::empty(),
            final(self).category_names@.len() == 0,
            final(self).selected_category == 0,
            *final(self) == (FabLibraryBox {
                known_asset_ids: final(self).known_asset_ids,
                category_names: final(self).category_names,
                category_labels: final(self).category_labels,
                category_filter_names: final(self).category_filter_names,
                selected_category: 0,
                ..*old(self)
            }),
    {
        self.known_asset_ids = StrMap::new();
        self.category_names = Vec::new();
        self.category_labels = vec![String::from_str("All")];
        self.category_filter_names = vec![String::new()];
        self.selected_category = 0;
        proof {
            reveal_strlit("All");
            assert(strs(self.category_labels@) =~= seq!["All"@] + strs(self.category_names@));
            assert(strs(self.category_filter_names@) =~= seq![Seq::<char>::empty()] + strs(
                self.category_names@,
            ));
        }
    }

    /// The search text changed: outside browsing it becomes the local search
    /// (none when empty) and the result is true (the filter must be
    /// renewed); while browsing nothing changes.
    pub fn search_changed(&mut self, text: &str) -> (r: bool)
        ensures
            r == !old(self).browse_mode,
            r ==> *final(self) == (FabLibraryBox { search: final(self).search, ..*old(self) }) && (
            text@.len() == 0 ==> final(self).search is None) && (text@.len() > 0 ==> opt_view(
                final(self).search,
            ) == Some(text@)),
            !r ==> *final(self) == *old(self),
    {
        if self.browse_mode {
            return false;
        }
        self.search = search_query(text);
        true
    }

    /// Forgets the search results: the next search starts from the first
    /// page.
    pub fn reset_browse(&mut self)
        requires
            old(self).wf(),
        ensures
            final(self).wf(),
            *final(self) == (FabLibraryBox {
                browse_cursor: None,
                browse_known_ids: final(self).browse_known_ids,
                ..*old(self)
            }),
            final(self).browse_known_ids@ == Map::<Seq<char>, ()>::empty(),
    {
        self.browse_cursor = None;
        self.browse_known_ids = StrMap::new();
    }

    /// A search of the store: the query (none when empty) replaces the
    /// search and the results start over.
    pub fn search_marketplace(&mut self, query: &str)
        requires
            old(self).wf(),
        ensures
            final(self).wf(),
            query@.len() == 0 ==> final(self).search is None,
            query@.len() > 0 ==> opt_view(final(self).search) == Some(query@),
            final(self).browse_cursor is None,
            final(self).browse_known_ids@ == Map::<Seq<char>, ()>::empty(),
            *final(self) == (FabLibraryBox {
                search: final(self).search,
                browse_cursor: None,
                browse_known_ids: final(self).browse_known_ids,
                ..*old(self)
            }),
    {
        self.search = search_query(query);
        self.reset_browse();
    }
}

/// A version of a marketplace asset that can be downloaded.
pub struct ProjectVersion {
    pub artifact_id: String,
    pub engine_versions: Vec<String>,
    pub target_platforms: Vec<String>,
}

/// The name of a version in the version dialog: its engine versions joined
/// by ", " without any "UE_", or its artifact id when it names none.
pub open spec fn spec_version_name(engine_versions: Seq<Seq<char>>, artifact_id: Seq<char>) -> Seq<char> {
    if engine_versions.len() == 0 {
        artifact_id
    } else {
        without_ue(join_with(engine_versions, ", "@))
    }
}

/// The name of a version (see `spec_version_name`).
pub fn version_name(v: &ProjectVersion) -> (r: String)
    ensures
        r@ == spec_version_name(strs(v.engine_versions@), v.artifact_id@),
{
    if v.engine_versions.len() == 0 {
        return v.artifact_id.clone();
    }
    let joined = join_texts(&v.engine_versions, ", ");
    proof {
        reveal_strlit(", ");
    }
    strip_ue(joined.as_str())
}

/// The choices of the version dialog: per version its name, artifact and
/// target platforms.
pub struct EpicFabVersionDialog {
    pub version_names: Vec<String>,
    pub artifact_ids: Vec<String>,
    pub platform_names: Vec<Vec<String>>,
}

impl EpicFabVersionDialog {
    pub open spec fn wf(&self) -> bool {
        &&& self.version_names@.len() == self.artifact_ids@.len()
        &&& self.artifact_ids@.len() == self.platform_names@.len()
    }

    pub fn new() -> (r: Self)
        ensures
            r.wf(),
            r.version_names@.len() == 0,
    {
        EpicFabVersionDialog { version_names: Vec::new(), artifact_ids: Vec::new(), platform_names: Vec::new() }
    }

    /// Shows the versions of an asset: one entry per version, in order.
    pub fn set_fab_asset(&mut self, versions: &Vec<ProjectVersion>)
        ensures
            final(self).wf(),
            final(self).version_names@.len() == versions@.len(),
            forall|i: int| 0 <= i < versions@.len() ==> {
                &&& (#[trigger] final(self).version_names@[i])@ == spec_version_name(
                    strs(versions@[i].engine_versions@),
                    versions@[i].artifact_id@,
                )
                &&& final(self).artifact_ids@[i]@ == versions@[i].artifact_id@
                &&& strs(final(self).platform_names@[i]@) == strs(versions@[i].target_platforms@)
            },
    {
        let mut names: Vec<String> = Vec::new();
        let mut ids: Vec<String> = Vec::new();
        let mut plats: Vec<Vec<String>> = Vec::new();
        let mut i: usize = 0;
        while i < versions.len()
            invariant
                i <= versions@.len(),
                names@.len() == i && ids@.len() == i && plats@.len() == i,
                forall|j: int| 0 <= j < i ==> {
                    &&& (#[trigger] names@[j])@ == spec_version_name(
                        strs(versions@[j].engine_versions@),
                        versions@[j].artifact_id@,
                    )
                    &&& ids@[j]@ == versions@[j].artifact_id@
                    &&& strs(plats@[j]@) == strs(versions@[j].target_platforms@)
                },
            decreases versions@.len() - i,
        {
            let v = &versions[i];
            names.push(version_name(v));
            ids.push(v.artifact_id.clone());
            plats.push(clone_strings(&v.target_platforms));
            i = i + 1;
        }
        self.version_names = names;
        self.artifact_ids = ids;
        self.platform_names = plats;
    }

    /// The platforms offered for the version at `version_idx`, if there is
    /// one.
    pub fn platforms_for(&self, version_idx: usize) -> (r: Option<Vec<String>>)
        ensures
            version_idx < self.platform_names@.len() ==> (r matches Some(p) && strs(p@) == strs(
                self.platform_names@[version_idx as int]@,
            )),
            version_idx >= self.platform_names@.len() ==> r is None,
    {
        if version_idx < self.platform_names.len() {
            Some(clone_strings(&self.platform_names[version_idx]))
        } else {
            None
        }
    }

    /// The artifact of the version at `version_idx`, if there is one.
    pub fn selected_artifact_id(&self, version_idx: usize) -> (r: Option<String>)
        ensures
            version_idx < self.artifact_ids@.len() ==> (r matches Some(a) && a@ == self.artifact_ids@[version_idx as int]@),
            version_idx >= self.artifact_ids@.len() ==> r is None,
    {
        if version_idx < self.artifact_ids.len() {
            Some(self.artifact_ids[version_idx].clone())
        } else {
            None
        }
    }

    /// The platform at `platform_idx` of the version at `version_idx`, if
    /// both are there.
    pub fn selected_platform(&self, version_idx: usize, platform_idx: usize) -> (r: Option<String>)
        ensures
            (version_idx < self.platform_names@.len() && platform_idx
                < self.platform_names@[version_idx as int]@.len()) ==> (r matches Some(p) && p@
                == self.platform_names@[version_idx as int]@[platform_idx as int]@),
            !(version_idx < self.platform_names@.len() && platform_idx
                < self.platform_names@[version_idx as int]@.len()) ==> r is None,
    {
        if version_idx < self.platform_names.len() && platform_idx < self.platform_names[version_idx].len() {
            Some(self.platform_names[version_idx][platform_idx].clone())
        } else {
            None
        }
    }

    /// What the download button asks for: the artifact of the picked version
    /// and the picked platform ("Windows" when none is picked); nothing when
    /// no version is picked.
    pub fn download_choice(&self, version_idx: usize, platform_idx: usize) -> (r: Option<(String, String)>)
        requires
            self.wf(),
        ensures
            version_idx >= self.artifact_ids@.len() ==> r is None,
            version_idx < self.artifact_ids@.len() ==> (r matches Some(c) && c.0@ == self.artifact_ids@[version_idx as int]@
                && c.1@ == if platform_idx < self.platform_names@[version_idx as int]@.len() {
                self.platform_names@[version_idx as int]@[platform_idx as int]@
            } else {
                "Windows"@
            }),
    {
        if version_idx >= self.artifact_ids.len() {
            return None;
        }
        let plats = &self.platform_names[version_idx];
        let platform = if platform_idx < plats.len() {
            plats[platform_idx].clone()
        } else {
            String::from_str("Windows")
        };
        proof {
            reveal_strlit("Windows");
        }
        Some((self.artifact_ids[version_idx].clone(), platform))
    }
}

} // verus!
