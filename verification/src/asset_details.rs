//! Decisions of the asset details pane: which asset it shows, which actions
//! and warning it offers, and the texts of its information rows.

use vstd::prelude::*;
use vstd::string::*;
use crate::fab::ProjectVersion;
use crate::outside::{adjusted_decimal_text, html_markup, spec_adjusted_decimal_text, spec_html_markup};
use crate::text::{
    chars_of, join_texts, join_with, markup_escape, markup_escaped, string_of, strip_ue, strs, without_ue,
};

verus! {

/// What an asset of the vault is.
#[derive(Debug, Clone, Copy, PartialEq, Eq, Structural)]
pub enum AssetKind {
    Asset,
    Project,
    Game,
    Engine,
    Plugin,
}

/// An action button of the details pane.
#[derive(Debug, Clone, Copy, PartialEq, Eq, Structural)]
pub enum DetailAction {
    Download,
    LocalAssets,
    AddToProject,
    CreateProject,
}

/// What becomes of the warning banner.
#[derive(Debug, Clone, Copy, PartialEq, Eq, Structural)]
pub enum WarningChange {
    /// It stays as it is.
    Keep,
    /// It is hidden.
    Hide,
    /// It says that games can only be downloaded.
    GamesOnlyDownload,
    /// It says that this is a Windows build of the engine.
    WindowsEngineBuild,
}

/// The actions of a vault asset: download; the local assets when a copy
/// lies in a vault; adding to a project for assets and projects, and
/// creating a project from a project. Games and engines show a warning
/// instead; an asset of unknown kind leaves the warning as it was.
pub open spec fn spec_detail_actions(kind: Option<AssetKind>, has_local_copy: bool) -> (Seq<DetailAction>, WarningChange) {
    let base = if has_local_copy {
        seq![DetailAction::Download, DetailAction::LocalAssets]
    } else {
        seq![DetailAction::Download]
    };
    match kind {
        None => (base, WarningChange::Keep),
        Some(AssetKind::Asset) => (base.push(DetailAction::AddToProject), WarningChange::Hide),
        Some(AssetKind::Project) => (
            base.push(DetailAction::AddToProject).push(DetailAction::CreateProject),
            WarningChange::Hide,
        ),
        Some(AssetKind::Game) => (base, WarningChange::GamesOnlyDownload),
        Some(AssetKind::Engine) => (base, WarningChange::WindowsEngineBuild),
        Some(AssetKind::Plugin) => (base, WarningChange::Hide),
    }
}

/// The actions and warning of a vault asset (see `spec_detail_actions`).
pub fn detail_actions(kind: Option<AssetKind>, has_local_copy: bool) -> (r: (Vec<DetailAction>, WarningChange))
    ensures
        (r.0@, r.1) == spec_detail_actions(kind, has_local_copy),
{
    let mut actions: Vec<DetailAction> = vec![DetailAction::Download];
    if has_local_copy {
        actions.push(DetailAction::LocalAssets);
    }
    let warning = match kind {
        None => WarningChange::Keep,
        Some(AssetKind::Asset) => {
            actions.push(DetailAction::AddToProject);
            WarningChange::Hide
        },
        Some(AssetKind::Project) => {
            actions.push(DetailAction::AddToProject);
            actions.push(DetailAction::CreateProject);
            WarningChange::Hide
        },
        Some(AssetKind::Game) => WarningChange::GamesOnlyDownload,
        Some(AssetKind::Engine) => WarningChange::WindowsEngineBuild,
        Some(AssetKind::Plugin) => WarningChange::Hide,
    };
    proof {
        let want = spec_detail_actions(kind, has_local_copy);
        assert(actions@ =~= want.0);
    }
    (actions, warning)
}

/// Whether a key image is large enough for the image carousel: at least
/// 300 pixels each way.
pub fn detail_image_wanted(width: i64, height: i64) -> (r: bool)
    ensures
        r == (width >= 300 && height >= 300),
{
    !(width < 300 || height < 300)
}

/// What comes before the first '/' of a text (all of it when there is none).
pub open spec fn before_slash(p: Seq<char>) -> Seq<char>
    decreases p.len(),
{
    if p.len() == 0 {
        p
    } else if p[0] == '/' {
        Seq::empty()
    } else {
        seq![p[0]] + before_slash(p.skip(1))
    }
}

/// What comes after the first '/' of a text (nothing when there is none).
pub open spec fn after_slash(p: Seq<char>) -> Seq<char>
    decreases p.len(),
{
    if p.len() == 0 {
        Seq::empty()
    } else if p[0] == '/' {
        p.skip(1)
    } else {
        after_slash(p.skip(1))
    }
}

pub open spec fn has_slash(p: Seq<char>) -> bool {
    p.contains('/')
}

/// The categories listed for a vault asset: of the paths holding a '/',
/// the first one's top level and then what follows the first '/' of each;
/// all the paths as they are when none holds a '/'.
pub open spec fn category_entries(paths: Seq<Seq<char>>) -> Seq<Seq<char>> {
    let nested = paths.filter(|p: Seq<char>| has_slash(p));
    if nested.len() == 0 {
        paths
    } else {
        seq![before_slash(nested[0])] + nested.map_values(|p: Seq<char>| after_slash(p))
    }
}

/// Splits a text at its first '/': what comes before, and what comes after
/// when there is a '/'.
fn split_first_slash(p: &String) -> (r: (String, Option<String>))
    ensures
        r.0@ == before_slash(p@),
        has_slash(p@) ==> (r.1 matches Some(t) && t@ == after_slash(p@)),
        !has_slash(p@) ==> r.1 is None,
{
    let c = chars_of(p.as_str());
    let mut i: usize = 0;
    proof {
        assert(c@.skip(0) =~= c@);
        assert(c@.take(0) =~= Seq::<char>::empty());
    }
    while i < c.len() && c[i] != '/'
        invariant
            i <= c@.len(),
            c@ == p@,
            before_slash(p@) == c@.take(i as int) + before_slash(c@.skip(i as int)),
            after_slash(p@) == after_slash(c@.skip(i as int)),
            forall|j: int| 0 <= j < i ==> c@[j] != '/',
        decreases c@.len() - i,
    {
        proof {
            let rest = c@.skip(i as int);
            assert(rest.skip(1) =~= c@.skip(i + 1));
            assert(c@.take(i + 1) =~= c@.take(i as int).push(c@[i as int]));
            assert(c@.take(i as int) + (seq![rest[0]] + before_slash(rest.skip(1))) =~= c@.take(i + 1)
                + before_slash(rest.skip(1)));
        }
        i = i + 1;
    }
    let mut head: Vec<char> = Vec::new();
    let mut j: usize = 0;
    while j < i
        invariant
            j <= i <= c@.len(),
            head@ == c@.take(j as int),
        decreases i - j,
    {
        head.push(c[j]);
        j = j + 1;
        proof {
            assert(head@ =~= c@.take(j as int));
        }
    }
    if i == c.len() {
        proof {
            assert(c@.skip(i as int) =~= Seq::<char>::empty());
            assert(c@.take(i as int) =~= c@);
            assert(!has_slash(p@)) by {
                if has_slash(p@) {
                    let q = choose|q: int| 0 <= q < p@.len() && p@[q] == '/';
                    assert(c@[q] != '/');
                }
            }
        }
        return (string_of(&head), None);
    }
    let mut tail: Vec<char> = Vec::new();
    let mut k: usize = i + 1;
    while k < c.len()
        invariant
            i < c@.len(),
            i + 1 <= k <= c@.len(),
            tail@ == c@.subrange(i + 1, k as int),
        decreases c@.len() - k,
    {
        tail.push(c[k]);
        k = k + 1;
        proof {
            assert(tail@ =~= c@.subrange(i + 1, k as int));
        }
    }
    proof {
        let rest = c@.skip(i as int);
        assert(rest[0] == '/');
        assert(rest.skip(1) =~= c@.subrange(i + 1, c@.len() as int));
        assert(before_slash(rest) =~= Seq::<char>::empty());
        assert(c@.take(i as int) + Seq::<char>::empty() =~= c@.take(i as int));
        assert(p@[i as int] == '/');
    }
    (string_of(&head), Some(string_of(&tail)))
}

/// The categories row of a vault asset: its category entries joined by
/// ", " (see `category_entries`), escaped for markup.
pub fn asset_categories_text(paths: &Vec<String>) -> (r: String)
    ensures
        r@ == markup_escaped(join_with(category_entries(strs(paths@)), ", "@)),
{
    let ghost ps = strs(paths@);
    let ghost keep = |p: Seq<char>| has_slash(p);
    let mut cats: Vec<String> = Vec::new();
    let mut tails: Vec<String> = Vec::new();
    let mut first: Option<String> = None;
    let mut i: usize = 0;
    while i < paths.len()
        invariant
            i <= paths@.len(),
            ps == strs(paths@),
            keep == (|p: Seq<char>| has_slash(p)),
            strs(tails@) == ps.take(i as int).filter(keep).map_values(|p: Seq<char>| after_slash(p)),
            ps.take(i as int).filter(keep).len() == 0 ==> first is None,
            ps.take(i as int).filter(keep).len() > 0 ==> (first matches Some(h) && h@ == before_slash(
                ps.take(i as int).filter(keep)[0],
            )),
        decreases paths@.len() - i,
    {
        let ghost before = ps.take(i as int);
        let ghost t0 = tails@;
        proof {
            assert(ps.take(i + 1).drop_last() =~= before);
            assert(ps.take(i + 1).last() == paths@[i as int]@);
            reveal(Seq::filter);
        }
        let (head, tail) = split_first_slash(&paths[i]);
        match tail {
            Some(t) => {
                if first.is_none() {
                    first = Some(head);
                }
                tails.push(t);
                proof {
                    let f = ps.take(i + 1).filter(keep);
                    assert(f == before.filter(keep).push(paths@[i as int]@));
                    assert(strs(tails@) =~= strs(t0).push(after_slash(paths@[i as int]@)));
                    assert(f.map_values(|p: Seq<char>| after_slash(p)) =~= before.filter(keep).map_values(
                        |p: Seq<char>| after_slash(p),
                    ).push(after_slash(paths@[i as int]@)));
                    if before.filter(keep).len() > 0 {
                        assert(f[0] == before.filter(keep)[0]);
                    }
                }
            },
            None => {
                proof {
                    assert(ps.take(i + 1).filter(keep) == before.filter(keep));
                }
            },
        }
        i = i + 1;
    }
    proof {
        assert(ps.take(paths@.len() as int) =~= ps);
    }
    match first {
        None => {
            proof {
                assert(category_entries(ps) == ps);
            }
            let joined = join_texts(paths, ", ");
            markup_escape(joined.as_str())
        },
        Some(h) => {
            cats.push(h);
            let mut k: usize = 0;
            while k < tails.len()
                invariant
                    k <= tails@.len(),
                    cats@.len() >= 1,
                    keep == (|p: Seq<char>| has_slash(p)),
                    ps.filter(keep).len() > 0,
                    cats@[0]@ == before_slash(ps.filter(keep)[0]),
                    strs(tails@) == ps.filter(keep).map_values(|p: Seq<char>| after_slash(p)),
                    strs(cats@) == seq![strs(cats@)[0]] + strs(tails@).take(k as int),
                decreases tails@.len() - k,
            {
                let ghost c0 = cats@;
                cats.push(tails[k].clone());
                proof {
                    assert(strs(cats@) =~= strs(c0).push(tails@[k as int]@));
                    assert(strs(tails@).take(k + 1) =~= strs(tails@).take(k as int).push(tails@[k as int]@));
                }
                k = k + 1;
            }
            proof {
                assert(strs(tails@).take(k as int) =~= strs(tails@));
                assert(strs(cats@) =~= category_entries(ps));
            }
            let joined = join_texts(&cats, ", ");
            markup_escape(joined.as_str())
        },
    }
}

/// A text with each "\n\n" turned into "\n", read from left to right.
pub open spec fn single_newlines(s: Seq<char>) -> Seq<char>
    decreases s.len(),
{
    if s.len() == 0 {
        s
    } else if s.len() >= 2 && s[0] == '\n' && s[1] == '\n' {
        seq!['\n'] + single_newlines(s.skip(2))
    } else {
        seq![s[0]] + single_newlines(s.skip(1))
    }
}

/// The row of a description: its HTML as Pango markup, with each blank
/// line ("\n\n") made a single line break.
pub fn description_markup(html: &str) -> (r: String)
    ensures
        r@ == single_newlines(spec_html_markup(html@)),
{
    let m = html_markup(html);
    collapse_blank_lines(m.as_str())
}

/// A text with each "\n\n" turned into "\n" (see `single_newlines`).
pub fn collapse_blank_lines(text: &str) -> (r: String)
    ensures
        r@ == single_newlines(text@),
{
    let c = chars_of(text);
    let mut out: Vec<char> = Vec::new();
    let mut i: usize = 0;
    proof {
        assert(c@.skip(0) =~= c@);
    }
    while i < c.len()
        invariant
            i <= c@.len(),
            out@ + single_newlines(c@.skip(i as int)) == single_newlines(c@),
        decreases c@.len() - i,
    {
        let ghost rest = c@.skip(i as int);
        if c.len() - i >= 2 && c[i] == '\n' && c[i + 1] == '\n' {
            proof {
                assert(rest.skip(2) =~= c@.skip(i + 2));
                assert(out@.push('\n') + single_newlines(rest.skip(2)) =~= out@ + (seq!['\n']
                    + single_newlines(rest.skip(2))));
            }
            out.push('\n');
            i = i + 2;
        } else {
            proof {
                assert(rest.skip(1) =~= c@.skip(i + 1));
                assert(out@.push(c@[i as int]) + single_newlines(rest.skip(1)) =~= out@ + (seq![rest[0]]
                    + single_newlines(rest.skip(1))));
            }
            out.push(c[i]);
            i = i + 1;
        }
    }
    proof {
        assert(c@.skip(i as int) =~= Seq::<char>::empty());
        assert(out@ =~= single_newlines(c@));
    }
    string_of(&out)
}

/// The "compatible with" row: the engine versions joined by ", " without
/// any "UE_", escaped for markup; nothing when there are none.
pub fn compatible_text(apps: &Vec<String>) -> (r: Option<String>)
    ensures
        apps@.len() == 0 ==> r is None,
        apps@.len() > 0 ==> (r matches Some(t) && t@ == markup_escaped(
            without_ue(join_with(strs(apps@), ", "@)),
        )),
{
    if apps.len() == 0 {
        return None;
    }
    let joined = join_texts(apps, ", ");
    proof {
        reveal_strlit(", ");
    }
    let stripped = strip_ue(joined.as_str());
    Some(markup_escape(stripped.as_str()))
}

/// A list row: the entries joined by ", ", escaped for markup; nothing
/// when there are none.
pub fn list_text(items: &Vec<String>) -> (r: Option<String>)
    ensures
        items@.len() == 0 ==> r is None,
        items@.len() > 0 ==> (r matches Some(t) && t@ == markup_escaped(join_with(strs(items@), ", "@))),
{
    if items.len() == 0 {
        return None;
    }
    let joined = join_texts(items, ", ");
    proof {
        reveal_strlit(", ");
    }
    Some(markup_escape(joined.as_str()))
}

/// The names that are there, in order.
pub open spec fn present_names(names: Seq<Option<String>>) -> Seq<Seq<char>>
    decreases names.len(),
{
    if names.len() == 0 {
        Seq::empty()
    } else {
        match names.last() {
            Some(n) => present_names(names.drop_last()).push(n@),
            None => present_names(names.drop_last()),
        }
    }
}

/// The names that are there, in order (see `present_names`).
pub fn named_only(names: &Vec<Option<String>>) -> (r: Vec<String>)
    ensures
        strs(r@) == present_names(names@),
{
    let mut r: Vec<String> = Vec::new();
    let mut i: usize = 0;
    while i < names.len()
        invariant
            i <= names@.len(),
            strs(r@) == present_names(names@.take(i as int)),
        decreases names@.len() - i,
    {
        let ghost r0 = r@;
        proof {
            assert(names@.take(i + 1).drop_last() =~= names@.take(i as int));
            assert(names@.take(i + 1).last() == names@[i as int]);
        }
        match &names[i] {
            Some(n) => {
                r.push(n.clone());
                proof {
                    assert(strs(r@) =~= strs(r0).push(n@));
                }
            },
            None => {},
        }
        i = i + 1;
    }
    proof {
        assert(names@.take(i as int) =~= names@);
    }
    r
}

/// The engine versions of all versions of a marketplace asset, in order.
pub open spec fn all_engine_versions(versions: Seq<ProjectVersion>) -> Seq<Seq<char>>
    decreases versions.len(),
{
    if versions.len() == 0 {
        Seq::empty()
    } else {
        all_engine_versions(versions.drop_last()) + strs(versions.last().engine_versions@)
    }
}

/// The target platforms of all versions of a marketplace asset, in order.
pub open spec fn all_platforms(versions: Seq<ProjectVersion>) -> Seq<Seq<char>>
    decreases versions.len(),
{
    if versions.len() == 0 {
        Seq::empty()
    } else {
        all_platforms(versions.drop_last()) + strs(versions.last().target_platforms@)
    }
}

fn append_strings(to: &mut Vec<String>, from: &Vec<String>)
    ensures
        strs(final(to)@) == strs(old(to)@) + strs(from@),
{
    let mut i: usize = 0;
    while i < from.len()
        invariant
            i <= from@.len(),
            strs(to@) == strs(old(to)@) + strs(from@).take(i as int),
        decreases from@.len() - i,
    {
        let ghost t0 = to@;
        to.push(from[i].clone());
        proof {
            assert(strs(to@) =~= strs(t0).push(from@[i as int]@));
            assert(strs(from@).take(i + 1) =~= strs(from@).take(i as int).push(from@[i as int]@));
        }
        i = i + 1;
    }
    proof {
        assert(strs(from@).take(i as int) =~= strs(from@));
    }
}

/// The engine versions and the target platforms of all versions of a
/// marketplace asset.
pub fn fab_versions_and_platforms(versions: &Vec<ProjectVersion>) -> (r: (Vec<String>, Vec<String>))
    ensures
        strs(r.0@) == all_engine_versions(versions@),
        strs(r.1@) == all_platforms(versions@),
{
    let mut engines: Vec<String> = Vec::new();
    let mut platforms: Vec<String> = Vec::new();
    let mut i: usize = 0;
    while i < versions.len()
        invariant
            i <= versions@.len(),
            strs(engines@) == all_engine_versions(versions@.take(i as int)),
            strs(platforms@) == all_platforms(versions@.take(i as int)),
        decreases versions@.len() - i,
    {
        proof {
            assert(versions@.take(i + 1).drop_last() =~= versions@.take(i as int));
            assert(versions@.take(i + 1).last() == versions@[i as int]);
        }
        append_strings(&mut engines, &versions[i].engine_versions);
        append_strings(&mut platforms, &versions[i].target_platforms);
        i = i + 1;
    }
    proof {
        assert(versions@.take(i as int) =~= versions@);
    }
    (engines, platforms)
}

/// The link row of a marketplace asset; nothing when it has no address.
pub fn url_row(url: &str) -> (r: Option<String>)
    ensures
        url@.len() == 0 ==> r is None,
        url@.len() > 0 ==> (r matches Some(t) && t@ == "URL: <a href=\""@ + url@ + "\">"@ + url@
            + "</a>"@),
{
    if url.unicode_len() == 0 {
        return None;
    }
    let mut r = String::from_str("URL: <a href=\"");
    r.append(url);
    r.append("\">");
    r.append(url);
    r.append("</a>");
    Some(r)
}

/// What the details pane shows.
pub enum DetailSubject {
    Nothing,
    /// A vault asset, by id.
    Asset(String),
    /// A marketplace asset, by id.
    Fab(String),
}

/// The details pane: whether it is open and what it shows.
pub struct EpicAssetDetails {
    pub expanded: bool,
    pub subject: DetailSubject,
}

impl EpicAssetDetails {
    pub fn new() -> (r: Self)
        ensures
            !r.expanded,
            r.subject is Nothing,
    {
        EpicAssetDetails { expanded: false, subject: DetailSubject::Nothing }
    }

    /// Shows a vault asset: the pane opens; the result tells whether the
    /// asset is another than the one shown (only then does it change).
    pub fn set_asset(&mut self, id: &String) -> (r: bool)
        ensures
            final(self).expanded,
            r == !(old(self).subject matches DetailSubject::Asset(a) && a@ == id@),
            r ==> (final(self).subject matches DetailSubject::Asset(a) && a@ == id@),
            !r ==> final(self).subject == old(self).subject,
    {
        self.expanded = true;
        if let DetailSubject::Asset(a) = &self.subject {
            if *a == *id {
                return false;
            }
        }
        self.subject = DetailSubject::Asset(id.clone());
        true
    }

    /// Shows a marketplace asset, like `set_asset`.
    pub fn set_fab_asset(&mut self, id: &String) -> (r: bool)
        ensures
            final(self).expanded,
            r == !(old(self).subject matches DetailSubject::Fab(a) && a@ == id@),
            r ==> (final(self).subject matches DetailSubject::Fab(a) && a@ == id@),
            !r ==> final(self).subject == old(self).subject,
    {
        self.expanded = true;
        if let DetailSubject::Fab(a) = &self.subject {
            if *a == *id {
                return false;
            }
        }
        self.subject = DetailSubject::Fab(id.clone());
        true
    }

    /// Whether the pane shows an asset.
    pub fn has_asset(&self) -> (r: bool)
        ensures
            r == !(self.subject is Nothing),
    {
        match &self.subject {
            DetailSubject::Nothing => false,
            _ => true,
        }
    }

    /// The id whose favorite mark a click toggles: the shown asset's.
    pub fn favorite_target(&self) -> (r: Option<String>)
        ensures
            match self.subject {
                DetailSubject::Nothing => r is None,
                DetailSubject::Asset(a) => r matches Some(t) && t@ == a@,
                DetailSubject::Fab(a) => r matches Some(t) && t@ == a@,
            },
    {
        match &self.subject {
            DetailSubject::Nothing => None,
            DetailSubject::Asset(a) => Some(a.clone()),
            DetailSubject::Fab(a) => Some(a.clone()),
        }
    }

    /// Closes the pane.
    pub fn collapse(&mut self)
        ensures
            !final(self).expanded,
            final(self).subject == old(self).subject,
    {
        self.expanded = false;
    }
}

/// What a click on the favorite mark does, by the icon it shows: a starred
/// asset is taken off the favorites (true) and shows the empty star; any
/// other is made a favorite (false) and shows the star.
pub fn favorite_toggle(icon: &str) -> (r: (bool, String))
    ensures
        icon@ == "starred"@ ==> r.0 && r.1@ == "non-starred-symbolic"@,
        icon@ != "starred"@ ==> !r.0 && r.1@ == "starred"@,
{
    let starred = String::from_str("starred");
    if String::from_str(icon) == starred {
        (true, String::from_str("non-starred-symbolic"))
    } else {
        (false, starred)
    }
}

/// The favorite icon of an asset by what the favorites store said: the
/// star when it is a favorite, else (or when the store could not say) the
/// empty star.
pub fn favorite_icon(is_favorite: Option<bool>) -> (r: String)
    ensures
        is_favorite == Some(true) ==> r@ == "starred"@,
        is_favorite != Some(true) ==> r@ == "non-starred-symbolic"@,
{
    if is_favorite == Some(true) {
        String::from_str("starred")
    } else {
        String::from_str("non-starred-symbolic")
    }
}

/// Which action groups show for a vault asset, as (add to project, new
/// project): the first for assets and projects, the second for projects;
/// an asset of unknown kind leaves them as they were (none).
pub fn action_groups(kind: Option<AssetKind>) -> (r: Option<(bool, bool)>)
    ensures
        r == match kind {
            None => None,
            Some(AssetKind::Asset) => Some((true, false)),
            Some(AssetKind::Project) => Some((true, true)),
            Some(_) => Some((false, false)),
        },
{
    match kind {
        None => None,
        Some(AssetKind::Asset) => Some((true, false)),
        Some(AssetKind::Project) => Some((true, true)),
        Some(_) => Some((false, false)),
    }
}

/// The rows about a release, in order: its supported engine versions
/// (joined by ", ", without "UE_"), its platforms, its release date (as
/// shown), and its release note when not empty; each only when known.
pub open spec fn spec_release_rows(
    compatible: Option<Seq<Seq<char>>>,
    platforms: Option<Seq<Seq<char>>>,
    date: Option<Seq<char>>,
    note: Option<Seq<char>>,
) -> Seq<Seq<char>> {
    let a = match compatible {
        Some(c) => seq!["Supported versions: "@ + without_ue(join_with(c, ", "@))],
        None => Seq::empty(),
    };
    let b = match platforms {
        Some(p) => seq!["Platforms: "@ + join_with(p, ", "@)],
        None => Seq::empty(),
    };
    let c = match date {
        Some(d) => seq!["Release Date: "@ + d],
        None => Seq::empty(),
    };
    let d = match note {
        Some(n) => if n.len() > 0 {
            seq!["Release Note: "@ + n]
        } else {
            Seq::empty()
        },
        None => Seq::empty(),
    };
    a + b + c + d
}

pub open spec fn opt_strs(o: Option<Vec<String>>) -> Option<Seq<Seq<char>>> {
    match o {
        Some(v) => Some(strs(v@)),
        None => None,
    }
}

pub open spec fn opt_text(o: Option<String>) -> Option<Seq<char>> {
    match o {
        Some(s) => Some(s@),
        None => None,
    }
}

fn prefixed(prefix: &str, text: &str) -> (r: String)
    ensures
        r@ == prefix@ + text@,
{
    let mut r = String::from_str(prefix);
    r.append(text);
    r
}

/// The rows about a release (see `spec_release_rows`).
pub fn release_rows(
    compatible: &Option<Vec<String>>,
    platforms: &Option<Vec<String>>,
    date: &Option<String>,
    note: &Option<String>,
) -> (r: Vec<String>)
    ensures
        strs(r@) == spec_release_rows(opt_strs(*compatible), opt_strs(*platforms), opt_text(*date), opt_text(*note)),
{
    let mut rows: Vec<String> = Vec::new();
    proof {
        reveal_strlit(", ");
    }
    match compatible {
        Some(c) => {
            let j = join_texts(c, ", ");
            let t = strip_ue(j.as_str());
            rows.push(prefixed("Supported versions: ", t.as_str()));
        },
        None => {},
    }
    match platforms {
        Some(p) => {
            let j = join_texts(p, ", ");
            rows.push(prefixed("Platforms: ", j.as_str()));
        },
        None => {},
    }
    match date {
        Some(d) => {
            rows.push(prefixed("Release Date: ", d.as_str()));
        },
        None => {},
    }
    match note {
        Some(n) => {
            if n.as_str().unicode_len() > 0 {
                rows.push(prefixed("Release Note: ", n.as_str()));
            }
        },
        None => {},
    }
    proof {
        let want = spec_release_rows(opt_strs(*compatible), opt_strs(*platforms), opt_text(*date), opt_text(*note));
        assert(strs(rows@) =~= want);
    }
    rows
}

/// The size of a download as the actions pane shows it: in the most
/// fitting decimal unit, with two decimals.
pub fn size_text(size: u128) -> (r: String)
    ensures
        r@ == spec_adjusted_decimal_text(size, 2),
{
    adjusted_decimal_text(size, 2)
}

} // verus!
