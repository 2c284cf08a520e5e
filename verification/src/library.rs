//! Decisions of the asset library view: product names, searching and
//! filtering, ordering, the categories of the side bar, and the counters of
//! the loading progress.

use vstd::prelude::*;
use vstd::string::*;
use crate::str_map::StrMap;
use crate::text::{
    ascii_lower_text, chars_of, contains_text, has_text, nat_text, string_of, to_ascii_lower,
    u64_text,
};
use crate::outside::{char_upper, spec_char_upper, spec_to_lowercase, to_lowercase};
use crate::engines::Order;

verus! {

/// ASCII letters and digits.
pub open spec fn is_ascii_alnum(c: char) -> bool {
    ('a' <= c <= 'z') || ('A' <= c <= 'Z') || ('0' <= c <= '9')
}

/// ASCII white space: space, tab, line feed, form feed and carriage return.
pub open spec fn is_ascii_space(c: char) -> bool {
    c == ' ' || c == '\t' || c == '\n' || c == '\x0C' || c == '\r'
}

pub open spec fn slug_char(c: char) -> char {
    if c == ' ' {
        '-'
    } else {
        crate::text::ascii_lower(c)
    }
}

/// The product name of an asset title, as the launcher's links use it: only
/// ASCII letters, digits and white space kept, letters in lower case, spaces
/// turned into '-'.
pub open spec fn product_slug(title: Seq<char>) -> Seq<char> {
    title.filter(|c: char| is_ascii_alnum(c) || is_ascii_space(c)).map_values(|c: char| slug_char(c))
}

/// The product name of an asset title (see `product_slug`).
pub fn product_name(title: &str) -> (r: String)
    ensures
        r@ == product_slug(title@),
{
    let t = chars_of(title);
    let ghost keep = |c: char| is_ascii_alnum(c) || is_ascii_space(c);
    let mut kept: Vec<char> = Vec::new();
    let mut i: usize = 0;
    while i < t.len()
        invariant
            i <= t@.len(),
            keep == (|c: char| is_ascii_alnum(c) || is_ascii_space(c)),
            kept@ == t@.take(i as int).filter(keep),
        decreases t@.len() - i,
    {
        proof {
            assert(t@.take(i + 1).drop_last() =~= t@.take(i as int));
            reveal(Seq::filter);
        }
        let c = t[i];
        let alnum = ('a' <= c && c <= 'z') || ('A' <= c && c <= 'Z') || ('0' <= c && c <= '9');
        let space = c == ' ' || c == '\t' || c == '\n' || c == '\x0C' || c == '\r';
        if alnum || space {
            kept.push(c);
        }
        i = i + 1;
    }
    proof {
        assert(t@.take(t@.len() as int) =~= t@);
    }
    let mut out: Vec<char> = Vec::new();
    let mut j: usize = 0;
    while j < kept.len()
        invariant
            j <= kept@.len(),
            out@.len() == j,
            forall|q: int| 0 <= q < j ==> out@[q] == slug_char(#[trigger] kept@[q]),
        decreases kept@.len() - j,
    {
        let c = kept[j];
        let d = if c == ' ' {
            '-'
        } else if 'A' <= c && c <= 'Z' {
            ((c as u8) + 32) as char
        } else {
            c
        };
        out.push(d);
        j = j + 1;
    }
    proof {
        assert(out@ =~= kept@.map_values(|c: char| slug_char(c)));
    }
    string_of(&out)
}

/// Whether an asset name matches a search: the search text occurs in the
/// name, ASCII capitals ignored on both sides.
pub open spec fn search_matches(name: Seq<char>, search: Seq<char>) -> bool {
    contains_text(ascii_lower_text(name), ascii_lower_text(search))
}

/// Whether an asset is shown: it matches the search (if any) and, when a
/// category filter is set, `in_category` (the outcome of the category check,
/// absent when no filter is set) holds.
pub fn asset_visible(name: &str, search: &Option<String>, in_category: Option<bool>) -> (r: bool)
    ensures
        r == ((match search {
            Some(s) => search_matches(name@, s@),
            None => true,
        }) && (match in_category {
            Some(b) => b,
            None => true,
        })),
{
    let found = match search {
        Some(s) => {
            let n = to_ascii_lower(&chars_of(name));
            let q = to_ascii_lower(&chars_of(s.as_str()));
            has_text(&n, &q)
        },
        None => true,
    };
    found && match in_category {
        Some(b) => b,
        None => true,
    }
}

/// "n item" or "n items".
pub fn count_label(count: u32) -> (r: String)
    ensures
        r@ == nat_text(count as nat) + " "@ + if count == 1 {
            "item"@
        } else {
            "items"@
        },
{
    let mut r = u64_text(count as u64);
    r.append(" ");
    if count == 1 {
        r.append("item");
    } else {
        r.append("items");
    }
    r
}

/// `k` is a known product name that `p` starts with.
pub open spec fn is_product_prefix(products: Map<Seq<char>, String>, p: Seq<char>, k: Seq<char>) -> bool {
    products.contains_key(k) && p.len() >= k.len() && p.subrange(0, k.len() as int) == k
}

/// Which asset a link opens: the asset named by id, if any; else, for a
/// product name, the asset of that product, or else the asset of the first
/// known product name the link's product starts with (products maps product
/// names to asset ids).
pub fn resolve_open_asset(
    item: &Option<String>,
    product: &Option<String>,
    products: &StrMap<String>,
) -> (r: Option<String>)
    requires
        products.wf(),
    ensures
        match item {
            Some(id) => r == Some(*id),
            None => match product {
                None => r is None,
                Some(p) => if products@.contains_key(p@) {
                    r == Some(products@[p@])
                } else {
                    &&& (r is Some) == exists|k: Seq<char>| is_product_prefix(products@, p@, k)
                    &&& r matches Some(id) ==> exists|k: Seq<char>|
                        is_product_prefix(products@, p@, k) && products@[k] == id
                },
            },
        },
{
    match item {
        Some(id) => {
            return Some(id.clone());
        },
        None => {},
    }
    let p = match product {
        Some(p) => p,
        None => {
            return None;
        },
    };
    match products.get(p) {
        Some(id) => {
            return Some(id.clone());
        },
        None => {},
    }
    let pc = chars_of(p.as_str());
    proof {
        products.lemma_entries();
    }
    let mut i: usize = 0;
    while i < products.len()
        invariant
            products.wf(),
            !products@.contains_key(p@),
            item is None,
            *product == Some(*p),
            pc@ == p@,
            i <= products.spec_len(),
            forall|j: int|
                0 <= j < i ==> !(p@.len() >= (#[trigger] products.spec_key_at(j)).len()
                    && p@.subrange(0, products.spec_key_at(j).len() as int)
                    == products.spec_key_at(j)),
        decreases products.spec_len() - i,
    {
        let k = chars_of(products.key_at(i).as_str());
        let mut pre = k.len() <= pc.len();
        let mut q: usize = 0;
        while q < k.len() && pre
            invariant
                q <= k@.len(),
                pre ==> k@.len() <= pc@.len(),
                pre == (k@.len() <= pc@.len() && forall|z: int| 0 <= z < q ==> pc@[z] == k@[z]),
            decreases k@.len() - q,
        {
            if pc[q] != k[q] {
                pre = false;
            }
            q = q + 1;
        }
        proof {
            if pre {
                assert(pc@.subrange(0, k@.len() as int) =~= k@);
            } else if k@.len() <= pc@.len() {
                let z = choose|z: int| 0 <= z < q && pc@[z] != k@[z];
                assert(pc@.subrange(0, k@.len() as int)[z] != k@[z]);
            }
        }
        if pre {
            let r = products.value_at(i).clone();
            proof {
                products.lemma_entries();
                let k = products.spec_key_at(i as int);
                                assert(products@.contains_key(k));
                assert(p@.subrange(0, k.len() as int) == k);
                assert(products@[k] == r);
                assert(is_product_prefix(products@, p@, k));
            }
            return Some(r);
        }
        i = i + 1;
    }
    proof {
        products.lemma_entries();
        assert forall|k: Seq<char>| !is_product_prefix(products@, p@, k) by {
            if is_product_prefix(products@, p@, k) {
                let j = choose|j: int| 0 <= j < products.spec_len() && #[trigger] products.spec_key_at(j) == k;
                assert(!(p@.len() >= products.spec_key_at(j).len() && p@.subrange(0, products.spec_key_at(j).len() as int) == products.spec_key_at(j)));
            }
        }
    }
    None
}

/// The next sort icon after a toggle: ascending becomes descending, anything
/// else ascending.
pub fn toggled_order_icon(icon: &str) -> (r: String)
    ensures
        icon@ == "view-sort-ascending-symbolic"@ ==> r@ == "view-sort-descending-symbolic"@,
        icon@ != "view-sort-ascending-symbolic"@ ==> r@ == "view-sort-ascending-symbolic"@,
{
    let a = String::from_str("view-sort-ascending-symbolic");
    if String::from_str(icon) == a {
        String::from_str("view-sort-descending-symbolic")
    } else {
        a
    }
}

/// Code point order on texts, as `str` compares them.
pub open spec fn lex_order(a: Seq<char>, b: Seq<char>) -> Order
    decreases a.len(),
{
    if a.len() == 0 && b.len() == 0 {
        Order::Equal
    } else if a.len() == 0 {
        Order::Less
    } else if b.len() == 0 {
        Order::Greater
    } else if a[0] == b[0] {
        lex_order(a.subrange(1, a.len() as int), b.subrange(1, b.len() as int))
    } else if a[0] < b[0] {
        Order::Less
    } else {
        Order::Greater
    }
}

proof fn lemma_lex_skip(a: Seq<char>, b: Seq<char>, i: int)
    requires
        0 <= i,
        i <= a.len(),
        i <= b.len(),
        forall|j: int| 0 <= j < i ==> a[j] == b[j],
    ensures
        lex_order(a, b) == lex_order(a.skip(i), b.skip(i)),
    decreases i,
{
    if i > 0 {
        lemma_lex_skip(a.subrange(1, a.len() as int), b.subrange(1, b.len() as int), i - 1);
        assert(a.subrange(1, a.len() as int).skip(i - 1) =~= a.skip(i));
        assert(b.subrange(1, b.len() as int).skip(i - 1) =~= b.skip(i));
        assert(a.len() > 0 && b.len() > 0);
        assert(a[0] == b[0]);
    } else {
        assert(a.skip(0) =~= a);
        assert(b.skip(0) =~= b);
    }
}

/// Code point order tells two texts apart exactly when they differ.
pub proof fn lemma_lex_equal(a: Seq<char>, b: Seq<char>)
    ensures
        (lex_order(a, b) == Order::Equal) == (a == b),
    decreases a.len(),
{
    if a.len() > 0 && b.len() > 0 && a[0] == b[0] {
        let ta = a.subrange(1, a.len() as int);
        let tb = b.subrange(1, b.len() as int);
        lemma_lex_equal(ta, tb);
        if ta == tb {
            assert(a =~= seq![a[0]] + ta);
            assert(b =~= seq![b[0]] + tb);
        }
        if a == b {
            assert(ta =~= tb);
        }
    } else if a.len() == 0 && b.len() == 0 {
        assert(a =~= b);
    }
}

/// Code point order is antisymmetric: `a` goes before `b` exactly when `b`
/// goes after `a`.
pub proof fn lemma_lex_flip(a: Seq<char>, b: Seq<char>)
    ensures
        (lex_order(a, b) == Order::Less) == (lex_order(b, a) == Order::Greater),
    decreases a.len(),
{
    if a.len() > 0 && b.len() > 0 && a[0] == b[0] {
        lemma_lex_flip(a.subrange(1, a.len() as int), b.subrange(1, b.len() as int));
    }
}

/// Code point order is transitive.
pub proof fn lemma_lex_trans(a: Seq<char>, b: Seq<char>, c: Seq<char>)
    requires
        lex_order(a, b) == Order::Less,
        lex_order(b, c) == Order::Less,
    ensures
        lex_order(a, c) == Order::Less,
    decreases a.len(),
{
    if a.len() > 0 && b.len() > 0 && c.len() > 0 && a[0] == b[0] && b[0] == c[0] {
        lemma_lex_trans(
            a.subrange(1, a.len() as int),
            b.subrange(1, b.len() as int),
            c.subrange(1, c.len() as int),
        );
    }
}

/// Compares two texts in code point order.
pub fn compare_text(a: &Vec<char>, b: &Vec<char>) -> (r: Order)
    ensures
        r == lex_order(a@, b@),
{
    let mut i: usize = 0;
    while i < a.len() && i < b.len()
        invariant
            i <= a@.len(),
            i <= b@.len(),
            forall|j: int| 0 <= j < i ==> a@[j] == b@[j],
        decreases a@.len() - i,
    {
        if a[i] != b[i] {
            proof {
                lemma_lex_skip(a@, b@, i as int);
            }
            if a[i] < b[i] {
                return Order::Less;
            }
            return Order::Greater;
        }
        i = i + 1;
    }
    proof {
        lemma_lex_skip(a@, b@, i as int);
    }
    if i == a.len() && i == b.len() {
        Order::Equal
    } else if i == a.len() {
        Order::Less
    } else {
        Order::Greater
    }
}

/// The order of two assets by name in the library grid: by their lower-case
/// names, reversed when descending.
pub open spec fn spec_name_order(a: Seq<char>, b: Seq<char>, ascending: bool) -> Order {
    if ascending {
        lex_order(spec_to_lowercase(a), spec_to_lowercase(b))
    } else {
        lex_order(spec_to_lowercase(b), spec_to_lowercase(a))
    }
}

/// Compares two asset names for the library grid (see `spec_name_order`).
pub fn name_order(a: &str, b: &str, ascending: bool) -> (r: Order)
    ensures
        r == spec_name_order(a@, b@, ascending),
{
    let la = chars_of(to_lowercase(a).as_str());
    let lb = chars_of(to_lowercase(b).as_str());
    if ascending {
        compare_text(&la, &lb)
    } else {
        compare_text(&lb, &la)
    }
}

/// The order of two assets by a date (release or last change, as a point
/// in time): an asset without a date goes first, the first one when both
/// lack it; else by date, reversed when descending.
pub open spec fn spec_date_order(a: Option<i64>, b: Option<i64>, ascending: bool) -> Order {
    match (a, b) {
        (None, _) => Order::Less,
        (_, None) => Order::Greater,
        (Some(x), Some(y)) => {
            let (p, q) = if ascending {
                (x, y)
            } else {
                (y, x)
            };
            if p < q {
                Order::Less
            } else if p > q {
                Order::Greater
            } else {
                Order::Equal
            }
        },
    }
}

/// Compares two assets by a date (see `spec_date_order`).
pub fn date_order(a: Option<i64>, b: Option<i64>, ascending: bool) -> (r: Order)
    ensures
        r == spec_date_order(a, b, ascending),
{
    match (a, b) {
        (None, _) => Order::Less,
        (_, None) => Order::Greater,
        (Some(x), Some(y)) => {
            let (p, q) = if ascending {
                (x, y)
            } else {
                (y, x)
            };
            if p < q {
                Order::Less
            } else if p > q {
                Order::Greater
            } else {
                Order::Equal
            }
        },
    }
}

/// The order of the side bar categories: "all", then "downloaded", then
/// "favorites" (each ignoring case) lead; the rest by lower-case name.
pub open spec fn spec_category_order(a: Seq<char>, b: Seq<char>) -> Order {
    category_order_of_lower(spec_to_lowercase(a), spec_to_lowercase(b))
}

/// The order of two side bar categories by their lower-case names.
pub open spec fn category_order_of_lower(la: Seq<char>, lb: Seq<char>) -> Order {
    if la == "all"@ {
        Order::Less
    } else if lb == "all"@ {
        Order::Greater
    } else if la == "downloaded"@ {
        Order::Less
    } else if lb == "downloaded"@ {
        Order::Greater
    } else if la == "favorites"@ {
        Order::Less
    } else if lb == "favorites"@ {
        Order::Greater
    } else {
        lex_order(la, lb)
    }
}

/// Compares two side bar categories (see `spec_category_order`).
pub fn category_order(a: &str, b: &str) -> (r: Order)
    ensures
        r == spec_category_order(a@, b@),
{
    let la = to_lowercase(a);
    let lb = to_lowercase(b);
    category_order_lower(la.as_str(), lb.as_str())
}

/// Compares two side bar categories by their lower-case names: "all",
/// "downloaded" and "favorites" go first, in that order; the rest by code
/// point order.
pub fn category_order_lower(la: &str, lb: &str) -> (r: Order)
    ensures
        r == category_order_of_lower(la@, lb@),
{
    let la = String::from_str(la);
    let lb = String::from_str(lb);
    let all = String::from_str("all");
    let downloaded = String::from_str("downloaded");
    let favorites = String::from_str("favorites");
    if la == all {
        Order::Less
    } else if lb == all {
        Order::Greater
    } else if la == downloaded {
        Order::Less
    } else if lb == downloaded {
        Order::Greater
    } else if la == favorites {
        Order::Less
    } else if lb == favorites {
        Order::Greater
    } else {
        compare_text(&chars_of(la.as_str()), &chars_of(lb.as_str()))
    }
}

/// `s` with its first character in upper case.
pub open spec fn capitalized(s: Seq<char>) -> Seq<char> {
    if s.len() == 0 {
        s
    } else {
        spec_char_upper(s[0]) + s.subrange(1, s.len() as int)
    }
}

/// The category's title: its name with the first character in upper case.
pub fn capitalize_first_letter(s: &str) -> (r: String)
    ensures
        r@ == capitalized(s@),
{
    let c = chars_of(s);
    if c.len() == 0 {
        return String::new();
    }
    let mut r = char_upper(c[0]);
    let mut i: usize = 1;
    let ghost head = r@;
    while i < c.len()
        invariant
            1 <= i <= c@.len(),
            head == spec_char_upper(c@[0]),
            r@ == head + c@.subrange(1, i as int),
        decreases c@.len() - i,
    {
        crate::outside::push_char(&mut r, c[i]);
        i = i + 1;
        proof {
            assert(r@ =~= head + c@.subrange(1, i as int));
        }
    }
    r
}

/// A category of the side bar.
pub struct CategoryEntry {
    pub title: String,
    pub filter: String,
    pub path: String,
    pub leaf: bool,
}

/// What adding a category did.
#[derive(Debug, PartialEq, Eq, Structural)]
pub enum CategoryChange {
    /// A new entry was appended.
    Added,
    /// The entry at this position stopped being a leaf.
    MadeBranch(usize),
    /// Nothing changed.
    Unchanged,
}

/// The categories of the side bar, in the order they were added; no path
/// occurs twice.
pub struct EpicSidebarCategories {
    pub entries: Vec<CategoryEntry>,
}

impl EpicSidebarCategories {
    pub open spec fn wf(&self) -> bool {
        forall|i: int, j: int|
            0 <= i < self.entries@.len() && 0 <= j < self.entries@.len() && i != j
                ==> self.entries@[i].path@ != self.entries@[j].path@
    }

    pub open spec fn has_path(&self, p: Seq<char>) -> bool {
        exists|i: int| 0 <= i < self.entries@.len() && #[trigger] self.entries@[i].path@ == p
    }

    pub fn new() -> (r: Self)
        ensures
            r.wf(),
            r.entries@.len() == 0,
    {
        EpicSidebarCategories { entries: Vec::new() }
    }

    /// Adds the category `name` at `path`: a new path is appended with the
    /// capitalized name as title; a known path stops being a leaf when the
    /// new one is not a leaf; otherwise nothing changes.
    pub fn add_category(&mut self, name: &str, path: &str, leaf: bool) -> (r: CategoryChange)
        requires
            old(self).wf(),
        ensures
            final(self).wf(),
            !old(self).has_path(path@) ==> r == CategoryChange::Added && final(self).entries@.len()
                == old(self).entries@.len() + 1 && final(self).entries@.drop_last() == old(self).entries@ && ({
                let e = final(self).entries@.last();
                &&& e.title@ == capitalized(name@)
                &&& e.filter@ == name@
                &&& e.path@ == path@
                &&& e.leaf == leaf
            }),
            old(self).has_path(path@) && leaf ==> r == CategoryChange::Unchanged && final(self).entries@ == old(self).entries@,
            old(self).has_path(path@) && !leaf ==> (r matches CategoryChange::MadeBranch(i) && i
                < old(self).entries@.len() && old(self).entries@[i as int].path@ == path@
                && final(self).entries@ == old(self).entries@.update(
                i as int,
                (CategoryEntry { leaf: false, ..old(self).entries@[i as int] }),
            )),
    {
        let p = String::from_str(path);
        let mut i: usize = 0;
        while i < self.entries.len()
            invariant
                i <= self.entries@.len(),
                *self == *old(self),
                old(self).wf(),
                p@ == path@,
                forall|j: int| 0 <= j < i ==> self.entries@[j].path@ != path@,
            decreases self.entries@.len() - i,
        {
            if self.entries[i].path == p {
                if leaf {
                    return CategoryChange::Unchanged;
                }
                let e = CategoryEntry {
                    title: self.entries[i].title.clone(),
                    filter: self.entries[i].filter.clone(),
                    path: self.entries[i].path.clone(),
                    leaf: false,
                };
                self.entries.set(i, e);
                proof {
                    assert(self.entries@ =~= old(self).entries@.update(
                        i as int,
                        CategoryEntry { leaf: false, ..old(self).entries@[i as int] },
                    ));
                }
                return CategoryChange::MadeBranch(i);
            }
            i = i + 1;
        }
        let e = CategoryEntry {
            title: capitalize_first_letter(name),
            filter: String::from_str(name),
            path: p,
            leaf,
        };
        self.entries.push(e);
        proof {
            assert(self.entries@.drop_last() =~= old(self).entries@);
        }
        CategoryChange::Added
    }
}

/// What the library knows of the loaded assets.
pub struct EpicLibraryBox {
    /// The ids of the loaded assets.
    pub loaded_assets: StrMap<()>,
    /// Product names to asset ids.
    pub asset_product_names: StrMap<String>,
    /// The category paths seen so far.
    pub categories: StrMap<()>,
    /// Assets whose loading started.
    pub to_load: u32,
    /// Assets whose loading ended.
    pub loaded: u32,
}

impl EpicLibraryBox {
    pub open spec fn wf(&self) -> bool {
        &&& self.loaded_assets.wf()
        &&& self.asset_product_names.wf()
        &&& self.categories.wf()
    }

    pub fn new() -> (r: Self)
        ensures
            r.wf(),
            r.loaded_assets@ == Map::<Seq<char>, ()>::empty(),
            r.asset_product_names@ == Map::<Seq<char>, String>::empty(),
            r.categories@ == Map::<Seq<char>, ()>::empty(),
            r.to_load == 0 && r.loaded == 0,
    {
        EpicLibraryBox {
            loaded_assets: StrMap::new(),
            asset_product_names: StrMap::new(),
            categories: StrMap::new(),
            to_load: 0,
            loaded: 0,
        }
    }

    /// `n` is `o` after the asset `id` with `title` and the category paths
    /// `paths` was recorded; `fresh` are the paths handed to the side bar and
    /// `new` tells whether the id was new (see `add_asset`).
    pub open spec fn asset_recorded(
        o: EpicLibraryBox,
        n: EpicLibraryBox,
        id: String,
        title: Option<String>,
        paths: Seq<Seq<char>>,
        fresh: Seq<Seq<char>>,
        new: bool,
    ) -> bool {
        &&& fresh == crate::download_manager::fresh_in(paths, o.categories@.dom())
        &&& n.categories@.dom() == o.categories@.dom() + Set::new(|p: Seq<char>| paths.contains(p))
        &&& new == !o.loaded_assets@.contains_key(id@)
        &&& new ==> n.loaded_assets@ == o.loaded_assets@.insert(id@, ())
        &&& new ==> match title {
            Some(t) => n.asset_product_names@ == o.asset_product_names@.insert(product_slug(t@), id),
            None => n.asset_product_names@ == o.asset_product_names@,
        }
        &&& !new ==> n.loaded_assets@ == o.loaded_assets@ && n.asset_product_names@
            == o.asset_product_names@
        &&& n.to_load == o.to_load
        &&& n.loaded == o.loaded
    }

    /// Records an asset: each of its category paths not seen before is
    /// returned (once, in order) for the side bar; an asset id not seen
    /// before is recorded, with its product name (from its title) pointing
    /// at it, and the second result tells whether it was new.
    pub fn add_asset(&mut self, id: &String, title: &Option<String>, category_paths: &Vec<String>) -> (r: (
        Vec<String>,
        bool,
    ))
        requires
            old(self).wf(),
        ensures
            final(self).wf(),
            Self::asset_recorded(
                *old(self),
                *final(self),
                *id,
                *title,
                crate::download_manager::strs(category_paths@),
                crate::download_manager::strs(r.0@),
                r.1,
            ),
    {
        let ghost ps = crate::download_manager::strs(category_paths@);
        let ghost d0 = self.categories@.dom();
        let mut fresh: Vec<String> = Vec::new();
        let mut i: usize = 0;
        proof {
            assert(ps.take(0) =~= Seq::<Seq<char>>::empty());
            assert(self.categories@.dom() =~= d0 + Set::new(|p: Seq<char>| ps.take(0).contains(p)));
        }
        while i < category_paths.len()
            invariant
                i <= category_paths@.len(),
                ps == crate::download_manager::strs(category_paths@),
                self.wf(),
                d0 == old(self).categories@.dom(),
                self.categories@.dom() == d0 + Set::new(|p: Seq<char>| ps.take(i as int).contains(p)),
                crate::download_manager::strs(fresh@) == crate::download_manager::fresh_in(
                    ps.take(i as int),
                    d0,
                ),
                self.loaded_assets == old(self).loaded_assets,
                self.asset_product_names == old(self).asset_product_names,
                self.to_load == old(self).to_load,
                self.loaded == old(self).loaded,
            decreases category_paths@.len() - i,
        {
            let c = &category_paths[i];
            let ghost t = ps.take(i as int);
            let ghost u = ps.take(i + 1);
            proof {
                assert(u =~= t.push(c@));
                assert(u.drop_last() =~= t);
                assert(u.last() == c@);
                assert forall|h: Seq<char>| u.contains(h) <==> (t.contains(h) || h == c@) by {
                    if u.contains(h) {
                        let q = choose|q: int| 0 <= q < u.len() && #[trigger] u[q] == h;
                        if q < t.len() {
                            assert(t[q] == h);
                        }
                    }
                    if t.contains(h) {
                        let q = choose|q: int| 0 <= q < t.len() && #[trigger] t[q] == h;
                        assert(u[q] == h);
                    }
                    if h == c@ {
                        assert(u[i as int] == h);
                    }
                }
            }
            if !self.categories.contains_key(c) {
                self.categories.insert(c.clone(), ());
                let ghost prev = fresh@;
                fresh.push(c.clone());
                proof {
                    assert(crate::download_manager::strs(fresh@) =~= crate::download_manager::strs(
                        prev,
                    ).push(c@));
                }
            }
            proof {
                assert(self.categories@.dom() =~= d0 + Set::new(
                    |p: Seq<char>| ps.take(i + 1).contains(p),
                ));
                assert(crate::download_manager::fresh_in(u, d0) == if d0.contains(c@) || t.contains(c@) {
                    crate::download_manager::fresh_in(t, d0)
                } else {
                    crate::download_manager::fresh_in(t, d0).push(c@)
                });
            }
            i = i + 1;
        }
        proof {
            assert(ps.take(category_paths@.len() as int) =~= ps);
        }
        if self.loaded_assets.contains_key(id) {
            return (fresh, false);
        }
        self.loaded_assets.insert(id.clone(), ());
        match title {
            Some(t) => {
                let slug = product_name(t.as_str());
                self.asset_product_names.insert(slug, id.clone());
            },
            None => {},
        }
        (fresh, true)
    }

    /// One more asset started loading.
    pub fn start_processing_asset(&mut self)
        requires
            old(self).to_load < u32::MAX,
        ensures
            *final(self) == (EpicLibraryBox { to_load: (old(self).to_load + 1) as u32, ..*old(self) }),
    {
        self.to_load = self.to_load + 1;
    }

    /// One more asset ended loading.
    pub fn end_processing_asset(&mut self)
        requires
            old(self).loaded < u32::MAX,
        ensures
            *final(self) == (EpicLibraryBox { loaded: (old(self).loaded + 1) as u32, ..*old(self) }),
    {
        self.loaded = self.loaded + 1;
    }

    /// Whether the loading progress is shown: while not every started asset
    /// has ended loading.
    pub fn progress_visible(&self) -> (r: bool)
        ensures
            r == (self.loaded != self.to_load),
    {
        self.loaded != self.to_load
    }
}

/// Whether the library can refresh: no asset or image loading job queued or
/// running.
pub fn library_can_be_refreshed(
    assets_queued: usize,
    assets_active: usize,
    images_queued: usize,
    images_active: usize,
) -> (r: bool)
    requires
        assets_queued + assets_active + images_queued + images_active <= usize::MAX,
    ensures
        r == (assets_queued + assets_active + images_queued + images_active == 0),
{
    assets_queued + assets_active + images_queued + images_active == 0
}

/// What comes before the last '/' of a category path: the path one level
/// up (nothing for a top-level path).
pub open spec fn up_one_level(p: Seq<char>) -> Seq<char>
    decreases p.len(),
{
    if p.len() == 0 {
        p
    } else if p.last() == '/' {
        p.drop_last()
    } else {
        up_one_level(p.drop_last())
    }
}

/// Whether a category has a level above it: its path holds a '/'.
pub fn has_previous(path: &str) -> (r: bool)
    ensures
        r == path@.contains('/'),
{
    let c = chars_of(path);
    let mut i: usize = 0;
    while i < c.len()
        invariant
            i <= c@.len(),
            c@ == path@,
            forall|k: int| 0 <= k < i ==> c@[k] != '/',
        decreases c@.len() - i,
    {
        if c[i] == '/' {
            proof {
                assert(path@[i as int] == '/');
            }
            return true;
        }
        i = i + 1;
    }
    false
}

/// The category path one level up (see `up_one_level`).
pub fn parent_category_path(path: &str) -> (r: String)
    ensures
        r@ == up_one_level(path@),
{
    let c = chars_of(path);
    let mut end: usize = c.len();
    proof {
        assert(c@.take(end as int) =~= c@);
    }
    while end > 0 && c[end - 1] != '/'
        invariant
            end <= c@.len(),
            up_one_level(c@) == up_one_level(c@.take(end as int)),
        decreases end,
    {
        proof {
            assert(c@.take(end as int).drop_last() =~= c@.take(end - 1));
        }
        end = end - 1;
    }
    let mut out: Vec<char> = Vec::new();
    if end > 0 {
        let mut k: usize = 0;
        while k < end - 1
            invariant
                0 < end <= c@.len(),
                k <= end - 1,
                out@ == c@.take(k as int),
            decreases end - 1 - k,
        {
            out.push(c[k]);
            k = k + 1;
            proof {
                assert(out@ =~= c@.take(k as int));
            }
        }
        proof {
            assert(c@.take(end as int).drop_last() =~= c@.take(end - 1));
        }
    } else {
        proof {
            assert(c@.take(0) =~= Seq::<char>::empty());
        }
    }
    string_of(&out)
}

/// The address that opens the store's web page for a one-time exchange
/// code.
pub fn marketplace_url(code: &str) -> (r: String)
    ensures
        r@ == "https://www.epicgames.com/id/exchange?exchangeCode="@ + code@
            + "&redirectUrl=https%3A%2F%2Fwww.unrealengine.com%2Fmarketplace"@,
{
    let mut r = String::from_str("https://www.epicgames.com/id/exchange?exchangeCode=");
    r.append(code);
    r.append("&redirectUrl=https%3A%2F%2Fwww.unrealengine.com%2Fmarketplace");
    r
}

/// The delay before the library refreshes again: between fifteen and
/// twenty-nine minutes, in whole minutes, chosen at random.
pub fn library_refresh_delay() -> (r: u32)
    ensures
        900 <= r < 900 + 15 * 60,
        (r - 900) % 60 == 0,
{
    let x = crate::outside::random_u32();
    let r = crate::engines::refresh_delay_from(x, 15);
    proof {
        let k = (x % 15) as int;
        assert((k * 60) % 60 == 0) by (nonlinear_arith)
            requires
                k >= 0,
        ;
    }
    r
}

/// Whether a game is shown: its name, in lower case, holds the search text
/// in lower case; every game shows without a search.
pub fn game_visible(name: &str, search: &Option<String>) -> (r: bool)
    ensures
        r == match search {
            Some(s) => contains_text(spec_to_lowercase(name@), spec_to_lowercase(s@)),
            None => true,
        },
{
    match search {
        Some(s) => {
            let n = chars_of(to_lowercase(name).as_str());
            let q = chars_of(to_lowercase(s.as_str()).as_str());
            has_text(&n, &q)
        },
        None => true,
    }
}

} // verus!
