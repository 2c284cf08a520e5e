//! Unreal Engine installations: reading the launcher's install list,
//! keeping the known engines, ordering them, and the version names of the
//! engine archives and docker images that can be installed.

use vstd::prelude::*;
use vstd::string::*;
use crate::str_map::StrMap;
use crate::download_manager::{list_or_empty, str_lists, strs};
use crate::outside::{
    random_u32,
    captures_view, regex_captures, spec_regex_captures, spec_version_compare, version_compare,
};
use crate::text::{chars_of, contains_text, has_text, i64_text, int_text, string_of};


verus! {

/// The version an engine's build file states.
pub struct UnrealVersion {
    pub major_version: i64,
    pub minor_version: i64,
    pub patch_version: i64,
    pub changelist: i64,
    pub compatible_changelist: i64,
    pub is_licensee_version: i64,
    pub is_promoted_build: i64,
    pub branch_name: String,
}

/// An installed engine.
pub struct UnrealEngine {
    pub version: UnrealVersion,
    pub path: String,
    pub guid: Option<String>,
}

pub fn clone_version(v: &UnrealVersion) -> (r: UnrealVersion)
    ensures
        r == *v,
{
    UnrealVersion {
        major_version: v.major_version,
        minor_version: v.minor_version,
        patch_version: v.patch_version,
        changelist: v.changelist,
        compatible_changelist: v.compatible_changelist,
        is_licensee_version: v.is_licensee_version,
        is_promoted_build: v.is_promoted_build,
        branch_name: v.branch_name.clone(),
    }
}

pub fn clone_engine(e: &UnrealEngine) -> (r: UnrealEngine)
    ensures
        r == *e,
{
    UnrealEngine {
        version: clone_version(&e.version),
        path: e.path.clone(),
        guid: match &e.guid {
            Some(g) => Some(g.clone()),
            None => None,
        },
    }
}

/// `s` without curly braces.
pub open spec fn without_braces(s: Seq<char>) -> Seq<char> {
    s.filter(|c: char| c != '{' && c != '}')
}

/// `p` without one trailing '/'.
pub open spec fn without_trailing_slash(p: Seq<char>) -> Seq<char> {
    if p.len() > 0 && p.last() == '/' {
        p.drop_last()
    } else {
        p
    }
}

/// An entry of the launcher's list of installations, as (guid, path): the
/// key loses its curly braces and the path one trailing '/'.
pub fn install_entry(key: &str, path: &str) -> (r: (String, String))
    ensures
        r.0@ == without_braces(key@),
        r.1@ == without_trailing_slash(path@),
{
    let k = chars_of(key);
    let mut g: Vec<char> = Vec::new();
    let mut i: usize = 0;
    while i < k.len()
        invariant
            i <= k@.len(),
            g@ == without_braces(k@.take(i as int)),
        decreases k@.len() - i,
    {
        proof {
            assert(k@.take(i + 1).drop_last() =~= k@.take(i as int));
            reveal(Seq::filter);
        }
        let c = k[i];
        if c != '{' && c != '}' {
            g.push(c);
        }
        i = i + 1;
    }
    proof {
        assert(k@.take(k@.len() as int) =~= k@);
    }
    let mut p = chars_of(path);
    let n = p.len();
    if n > 0 && p[n - 1] == '/' {
        let _ = p.pop();
    }
    (string_of(&g), string_of(&p))
}

/// "major.minor.patch"
pub open spec fn version_label(v: UnrealVersion) -> Seq<char> {
    int_text(v.major_version as int) + "."@ + int_text(v.minor_version as int) + "."@ + int_text(
        v.patch_version as int,
    )
}

/// "major.minor", the form projects name their engine by.
pub open spec fn association_label(v: UnrealVersion) -> Seq<char> {
    int_text(v.major_version as int) + "."@ + int_text(v.minor_version as int)
}

/// The version written as "major.minor.patch".
pub fn version_text(v: &UnrealVersion) -> (r: String)
    ensures
        r@ == version_label(*v),
{
    let mut r = i64_text(v.major_version);
    r.append(".");
    r.append(i64_text(v.minor_version).as_str());
    r.append(".");
    r.append(i64_text(v.patch_version).as_str());
    proof {
        reveal_strlit(".");
    }
    r
}

/// The version written as "major.minor".
pub fn association_text(v: &UnrealVersion) -> (r: String)
    ensures
        r@ == association_label(*v),
{
    let mut r = i64_text(v.major_version);
    r.append(".");
    r.append(i64_text(v.minor_version).as_str());
    proof {
        reveal_strlit(".");
    }
    r
}

/// The known engine installations, by guid.
pub struct EpicEnginesBox {
    pub engines: StrMap<UnrealEngine>,
}

impl EpicEnginesBox {
    pub open spec fn wf(&self) -> bool {
        self.engines.wf()
    }

    /// No engine known.
    pub fn new() -> (b: Self)
        ensures
            b.wf(),
            b.engines@ == Map::<Seq<char>, UnrealEngine>::empty(),
    {
        EpicEnginesBox { engines: StrMap::new() }
    }

    /// Records the engine at `path` under `guid` (replacing what `guid` named
    /// before). Returns whether the engine is new to the list, that is,
    /// whether no known engine had that path.
    pub fn add_engine(&mut self, guid: String, path: String, version: UnrealVersion) -> (new_row:
        bool)
        requires
            old(self).wf(),
        ensures
            final(self).wf(),
            new_row == !(exists|k: Seq<char>|
                #[trigger] old(self).engines@.contains_key(k) && old(self).engines@[k].path@
                    == path@),
            final(self).engines@.dom() == old(self).engines@.dom().insert(guid@),
            final(self).engines@.remove(guid@) == old(self).engines@.remove(guid@),
            final(self).engines@[guid@].version == version,
            final(self).engines@[guid@].path == path,
            final(self).engines@[guid@].guid == Some(guid),
    {
        let mut found = false;
        let mut i: usize = 0;
        proof {
            self.engines.lemma_entries();
        }
        while i < self.engines.len()
            invariant
                self.wf(),
                *self == *old(self),
                i <= self.engines.spec_len(),
                found == exists|j: int|
                    0 <= j < i && (#[trigger] self.engines.spec_value_at(j)).path@ == path@,
            decreases self.engines.spec_len() - i,
        {
            if self.engines.value_at(i).path == path {
                found = true;
            }
            i = i + 1;
        }
        proof {
            self.engines.lemma_entries();
            if found {
                let j = choose|j: int|
                    0 <= j < i && (#[trigger] self.engines.spec_value_at(j)).path@ == path@;
                assert(self.engines@.contains_key(self.engines.spec_key_at(j)));
            }
            if exists|k: Seq<char>|
                #[trigger] self.engines@.contains_key(k) && self.engines@[k].path@ == path@ {
                let k = choose|k: Seq<char>|
                    #[trigger] self.engines@.contains_key(k) && self.engines@[k].path@ == path@;
                let j = choose|j: int| 0 <= j < self.engines.spec_len() && #[trigger] self.engines.spec_key_at(j) == k;
                assert(self.engines.spec_value_at(j).path@ == path@);
            }
        }
        let e = UnrealEngine { version, path, guid: Some(guid.clone()) };
        self.engines.insert(guid, e);
        proof {
            assert(self.engines@.dom() =~= old(self).engines@.dom().insert(guid@));
            assert(self.engines@.remove(guid@) =~= old(self).engines@.remove(guid@));
        }
        !found
    }

    /// Forgets the engine under `guid`.
    pub fn remove_engine(&mut self, guid: &String)
        requires
            old(self).wf(),
        ensures
            final(self).wf(),
            final(self).engines@ == old(self).engines@.remove(guid@),
    {
        let _ = self.engines.remove(guid);
    }

    /// The engine a project names by `association`: the engine with that
    /// guid, or else one whose "major.minor" version is the association, or
    /// none.
    pub fn engine_from_assoociation(&self, association: &String) -> (r: Option<UnrealEngine>)
        requires
            self.wf(),
        ensures
            self.engines@.contains_key(association@) ==> r == Some(
                self.engines@[association@],
            ),
            !self.engines@.contains_key(association@) ==> {
                &&& (r is Some) == exists|k: Seq<char>|
                    #[trigger] self.engines@.contains_key(k) && association_label(
                        self.engines@[k].version,
                    ) == association@
                &&& r matches Some(e) ==> exists|k: Seq<char>|
                    #[trigger] self.engines@.contains_key(k) && self.engines@[k] == e
                        && association_label(e.version) == association@
            },
    {
        match self.engines.get(association) {
            Some(e) => {
                return Some(clone_engine(e));
            },
            None => {},
        }
        proof {
            self.engines.lemma_entries();
        }
        let mut i: usize = 0;
        while i < self.engines.len()
            invariant
                self.wf(),
                !self.engines@.contains_key(association@),
                i <= self.engines.spec_len(),
                forall|j: int|
                    0 <= j < i ==> association_label(
                        (#[trigger] self.engines.spec_value_at(j)).version,
                    ) != association@,
            decreases self.engines.spec_len() - i,
        {
            let e = self.engines.value_at(i);
            let label = association_text(&e.version);
            if label == *association {
                proof {
                    self.engines.lemma_entries();
                    assert(self.engines@.contains_key(self.engines.spec_key_at(i as int)));
                }
                return Some(clone_engine(e));
            }
            i = i + 1;
        }
        proof {
            self.engines.lemma_entries();
            if exists|k: Seq<char>|
                #[trigger] self.engines@.contains_key(k) && association_label(
                    self.engines@[k].version,
                ) == association@ {
                let k = choose|k: Seq<char>|
                    #[trigger] self.engines@.contains_key(k) && association_label(
                        self.engines@[k].version,
                    ) == association@;
                let j = choose|j: int| 0 <= j < self.engines.spec_len() && #[trigger] self.engines.spec_key_at(j) == k;
                assert(association_label(self.engines.spec_value_at(j).version) != association@);
            }
        }
        None
    }
}

/// An ordering, as a sorter reports it.
#[derive(Debug, PartialEq, Eq, Structural)]
pub enum Order {
    Less,
    Equal,
    Greater,
}

/// How the engine list orders two entries: entries that are not engines
/// (the "install" entry) go last; others by descending version, where
/// versions that do not compare put the first one first.
pub open spec fn spec_engine_order(valid1: bool, v1: Seq<char>, valid2: bool, v2: Seq<char>) -> Order {
    if !valid1 {
        Order::Greater
    } else if !valid2 {
        Order::Less
    } else {
        match spec_version_compare(v1, v2) {
            None => Order::Less,
            Some(c) => if c == -1 {
                Order::Greater
            } else if c == 0 || c == -2 || c == 2 {
                Order::Equal
            } else {
                Order::Less
            },
        }
    }
}

/// Compares two entries of the engine list (see `spec_engine_order`); an
/// entry without a version counts as the empty version.
pub fn engine_order(valid1: bool, v1: &Option<String>, valid2: bool, v2: &Option<String>) -> (r:
    Order)
    ensures
        r == spec_engine_order(
            valid1,
            match v1 {
                Some(s) => s@,
                None => Seq::empty(),
            },
            valid2,
            match v2 {
                Some(s) => s@,
                None => Seq::empty(),
            },
        ),
{
    if !valid1 {
        return Order::Greater;
    }
    if !valid2 {
        return Order::Less;
    }
    let empty = String::new();
    let a = match v1 {
        Some(s) => s,
        None => &empty,
    };
    let b = match v2 {
        Some(s) => s,
        None => &empty,
    };
    engine_order_of(version_compare(a.as_str(), b.as_str()))
}

/// How two engines of the list compare, given what `version_compare` said
/// of their versions (see `spec_engine_order`).
pub fn engine_order_of(c: Option<i8>) -> (r: Order)
    ensures
        r == match c {
            None => Order::Less,
            Some(c) => if c == -1 {
                Order::Greater
            } else if c == 0 || c == -2 || c == 2 {
                Order::Equal
            } else {
                Order::Less
            },
        },
{
    match c {
        None => Order::Less,
        Some(c) => if c == -1 {
            Order::Greater
        } else if c == 0 || c == -2 || c == 2 {
            Order::Equal
        } else {
            Order::Less
        },
    }
}

/// How version lists are ordered: newest first; versions that do not
/// compare count as equal.
pub open spec fn spec_version_desc_order(a: Seq<char>, b: Seq<char>) -> Order {
    match spec_version_compare(b, a) {
        None => Order::Equal,
        Some(c) => if c == 0 || c == -2 || c == 2 {
            Order::Equal
        } else if c == 1 {
            Order::Greater
        } else {
            Order::Less
        },
    }
}

/// Compares two versions for a newest-first list.
pub fn version_desc_order(a: &str, b: &str) -> (r: Order)
    ensures
        r == spec_version_desc_order(a@, b@),
{
    desc_order_of(version_compare(b, a))
}

/// How two versions of a newest-first list compare, given what
/// `version_compare` said of the second against the first.
pub fn desc_order_of(c: Option<i8>) -> (r: Order)
    ensures
        r == match c {
            None => Order::Equal,
            Some(c) => if c == 0 || c == -2 || c == 2 {
                Order::Equal
            } else if c == 1 {
                Order::Greater
            } else {
                Order::Less
            },
        },
{
    match c {
        None => Order::Equal,
        Some(c) => if c == 0 || c == -2 || c == 2 {
            Order::Equal
        } else if c == 1 {
            Order::Greater
        } else {
            Order::Less
        },
    }
}

/// Group `i` of a match, if the match has it.
pub open spec fn group(m: Seq<Option<Seq<char>>>, i: int) -> Option<Seq<char>> {
    if 0 <= i < m.len() {
        m[i]
    } else {
        None
    }
}

/// The name a match of an engine version gives: the version (group 1), with
/// the preview tag (group 2) in parentheses when there is one; a match
/// without either names nothing.
pub open spec fn match_label(m: Seq<Option<Seq<char>>>) -> Option<Seq<char>> {
    match group(m, 2) {
        Some(t) => Some(
            match group(m, 1) {
                Some(v) => v,
                None => Seq::empty(),
            } + " ("@ + t + ")"@,
        ),
        None => group(m, 1),
    }
}

/// The name given by the last match that names something.
pub open spec fn last_label(ms: Seq<Seq<Option<Seq<char>>>>) -> Option<Seq<char>>
    decreases ms.len(),
{
    if ms.len() == 0 {
        None
    } else {
        match match_label(ms.last()) {
            Some(l) => Some(l),
            None => last_label(ms.drop_last()),
        }
    }
}

fn group_of(m: &Vec<Option<String>>, i: usize) -> (r: Option<String>)
    ensures
        match r {
            Some(s) => group(m@.map_values(
                |g: Option<String>|
                    match g {
                        Some(s) => Some(s@),
                        None => None,
                    },
            ), i as int) == Some(s@),
            None => group(m@.map_values(
                |g: Option<String>|
                    match g {
                        Some(s) => Some(s@),
                        None => None,
                    },
            ), i as int) is None,
        },
{
    if i < m.len() {
        match &m[i] {
            Some(s) => Some(s.clone()),
            None => None,
        }
    } else {
        None
    }
}

fn label_of(m: &Vec<Option<String>>) -> (r: Option<String>)
    ensures
        match r {
            Some(s) => match_label(m@.map_values(
                |g: Option<String>|
                    match g {
                        Some(s) => Some(s@),
                        None => None,
                    },
            )) == Some(s@),
            None => match_label(m@.map_values(
                |g: Option<String>|
                    match g {
                        Some(s) => Some(s@),
                        None => None,
                    },
            )) is None,
        },
{
    match group_of(m, 2) {
        Some(t) => {
            let mut r = match group_of(m, 1) {
                Some(v) => v,
                None => String::new(),
            };
            r.append(" (");
            r.append(t.as_str());
            r.append(")");
            Some(r)
        },
        None => group_of(m, 1),
    }
}

/// The pattern of the names of Linux engine archives.
pub open spec fn epic_archive_pattern() -> Seq<char> {
    "Linux_Unreal_Engine_(\\d\\.\\d+.\\d+)_?(preview-\\d+)?"@
}

/// The label of the download entry of engine archive `version`: the name of
/// the last match of the archive pattern in it, if any.
pub fn epic_version_label(version: &str) -> (r: Option<String>)
    ensures
        match spec_regex_captures(epic_archive_pattern(), version@) {
            Some(ms) => match r {
                Some(l) => last_label(ms) == Some(l@),
                None => last_label(ms) is None,
            },
            None => r is None,
        },
{
    match regex_captures("Linux_Unreal_Engine_(\\d\\.\\d+.\\d+)_?(preview-\\d+)?", version) {
        Some(caps) => last_match_label(&caps),
        None => None,
    }
}

/// The name given by the last match that names something (see
/// `last_label`), from the capture groups of each match.
pub fn last_match_label(caps: &Vec<Vec<Option<String>>>) -> (r: Option<String>)
    ensures
        match r {
            Some(l) => last_label(captures_view(caps@)) == Some(l@),
            None => last_label(captures_view(caps@)) is None,
        },
{
    let ghost ms = captures_view(caps@);
    let mut label: Option<String> = None;
    let mut i: usize = 0;
    while i < caps.len()
        invariant
            i <= caps@.len(),
            ms == captures_view(caps@),
            match label {
                Some(l) => last_label(ms.take(i as int)) == Some(l@),
                None => last_label(ms.take(i as int)) is None,
            },
        decreases caps@.len() - i,
    {
        proof {
            assert(ms.take(i + 1).drop_last() =~= ms.take(i as int));
            assert(ms.take(i + 1).last() == ms[i as int]);
        }
        match label_of(&caps[i]) {
            Some(l) => {
                label = Some(l);
            },
            None => {},
        }
        i = i + 1;
    }
    proof {
        assert(ms.take(caps@.len() as int) =~= ms);
    }
    label
}

/// The pattern of an engine install directory in an archive name.
pub open spec fn epic_dir_pattern() -> Seq<char> {
    "Linux_Unreal_Engine_(\\d\\.\\d+.\\d+(?:_preview-\\d+)?)"@
}

/// The directory an engine archive `version` is unpacked into (below the
/// engine directory): group 1 of the first match of the directory pattern.
pub fn epic_install_dir_name(version: &str) -> (r: Option<String>)
    ensures
        match spec_regex_captures(epic_dir_pattern(), version@) {
            Some(ms) => if ms.len() > 0 {
                match r {
                    Some(d) => group(ms[0], 1) == Some(d@),
                    None => group(ms[0], 1) is None,
                }
            } else {
                r is None
            },
            None => r is None,
        },
{
    match regex_captures("Linux_Unreal_Engine_(\\d\\.\\d+.\\d+(?:_preview-\\d+)?)", version) {
        Some(caps) => first_match_group(&caps),
        None => None,
    }
}

/// Group 1 of the first match, from the capture groups of each match.
pub fn first_match_group(caps: &Vec<Vec<Option<String>>>) -> (r: Option<String>)
    ensures
        captures_view(caps@).len() > 0 ==> match r {
            Some(d) => group(captures_view(caps@)[0], 1) == Some(d@),
            None => group(captures_view(caps@)[0], 1) is None,
        },
        captures_view(caps@).len() == 0 ==> r is None,
{
    if caps.len() > 0 {
        proof {
            assert(captures_view(caps@)[0] == caps@[0]@.map_values(
                |g: Option<String>|
                    match g {
                        Some(s) => Some(s@),
                        None => None,
                    },
            ));
        }
        group_of(&caps[0], 1)
    } else {
        None
    }
}

/// The pattern of an engine version in an archive name.
pub open spec fn epic_version_pattern() -> Seq<char> {
    "(\\d\\.\\d+.\\d+)_?(preview-\\d+)?"@
}

/// `m` with each name given by a match in `ms` pointing at `i`.
pub open spec fn labels_after(
    m: Map<Seq<char>, usize>,
    ms: Seq<Seq<Option<Seq<char>>>>,
    i: usize,
) -> Map<Seq<char>, usize>
    decreases ms.len(),
{
    if ms.len() == 0 {
        m
    } else {
        let prev = labels_after(m, ms.drop_last(), i);
        match match_label(ms.last()) {
            Some(l) => prev.insert(l, i),
            None => prev,
        }
    }
}

/// The archives by version name: each match of the version pattern in an
/// archive's name names it; a later archive with the same name wins.
pub open spec fn versions_map(names: Seq<Seq<char>>) -> Map<Seq<char>, usize>
    decreases names.len(),
{
    if names.len() == 0 {
        Map::empty()
    } else {
        let prev = versions_map(names.drop_last());
        match spec_regex_captures(epic_version_pattern(), names.last()) {
            Some(ms) => labels_after(prev, ms, (names.len() - 1) as usize),
            None => prev,
        }
    }
}

pub open spec fn texts(v: Seq<String>) -> Seq<Seq<char>> {
    v.map_values(|s: String| s@)
}

/// The engine archives offered for download, by version name: the position
/// of the archive in `names` under each name its matches give.
pub fn versions_by_label(names: &Vec<String>) -> (r: StrMap<usize>)
    ensures
        r.wf(),
        r@ == versions_map(texts(names@)),
{
    let ghost ns = texts(names@);
    let mut r: StrMap<usize> = StrMap::new();
    let mut i: usize = 0;
    while i < names.len()
        invariant
            i <= names@.len(),
            ns == texts(names@),
            r.wf(),
            r@ == versions_map(ns.take(i as int)),
        decreases names@.len() - i,
    {
        proof {
            assert(ns.take(i + 1).drop_last() =~= ns.take(i as int));
            assert(ns.take(i + 1).last() == names@[i as int]@);
        }
        match regex_captures("(\\d\\.\\d+.\\d+)_?(preview-\\d+)?", names[i].as_str()) {
            Some(caps) => {
                add_version_labels(&mut r, &caps, i);
            },
            None => {},
        }
        i = i + 1;
    }
    proof {
        assert(ns.take(names@.len() as int) =~= ns);
    }
    r
}

/// Points each name that a match gives at archive `i` (see
/// `labels_after`), from the capture groups of each match.
pub fn add_version_labels(r: &mut StrMap<usize>, caps: &Vec<Vec<Option<String>>>, i: usize)
    requires
        old(r).wf(),
    ensures
        final(r).wf(),
        final(r)@ == labels_after(old(r)@, captures_view(caps@), i),
{
    let ghost ms = captures_view(caps@);
    let ghost m0 = r@;
    let mut j: usize = 0;
    proof {
        assert(ms.take(0) =~= Seq::<Seq<Option<Seq<char>>>>::empty());
    }
    while j < caps.len()
        invariant
            j <= caps@.len(),
            ms == captures_view(caps@),
            m0 == old(r)@,
            r.wf(),
            r@ == labels_after(m0, ms.take(j as int), i),
        decreases caps@.len() - j,
    {
        proof {
            assert(ms.take(j + 1).drop_last() =~= ms.take(j as int));
            assert(ms.take(j + 1).last() == ms[j as int]);
        }
        match label_of(&caps[j]) {
            Some(l) => {
                r.insert(l, i);
            },
            None => {},
        }
        j = j + 1;
    }
    proof {
        assert(ms.take(caps@.len() as int) =~= ms);
    }
}

/// The first archive named exactly `version`.
pub fn filter_versions(names: &Vec<String>, version: &String) -> (r: Option<usize>)
    ensures
        match r {
            Some(i) => i < names@.len() && names@[i as int]@ == version@ && forall|j: int|
                0 <= j < i ==> names@[j]@ != version@,
            None => forall|j: int| 0 <= j < names@.len() ==> names@[j]@ != version@,
        },
{
    let mut i: usize = 0;
    while i < names.len()
        invariant
            i <= names@.len(),
            forall|j: int| 0 <= j < i ==> names@[j]@ != version@,
        decreases names@.len() - i,
    {
        if names[i] == *version {
            return Some(i);
        }
        i = i + 1;
    }
    None
}

/// The pattern of the development images of the engine.
pub open spec fn docker_tag_pattern() -> Seq<char> {
    "dev-(?:slim-)?(\\d\\.\\d+.\\d+)"@
}

/// `m` with `tag` added to the list of the version (group 1) of each match
/// in `ms`.
pub open spec fn tags_after(
    m: Map<Seq<char>, Seq<Seq<char>>>,
    ms: Seq<Seq<Option<Seq<char>>>>,
    tag: Seq<char>,
) -> Map<Seq<char>, Seq<Seq<char>>>
    decreases ms.len(),
{
    if ms.len() == 0 {
        m
    } else {
        let prev = tags_after(m, ms.drop_last(), tag);
        match group(ms.last(), 1) {
            Some(k) => prev.insert(k, list_or_empty(prev, k).push(tag)),
            None => prev,
        }
    }
}

/// The image tags grouped by the engine version they hold.
pub open spec fn docker_groups(tags: Seq<Seq<char>>) -> Map<Seq<char>, Seq<Seq<char>>>
    decreases tags.len(),
{
    if tags.len() == 0 {
        Map::empty()
    } else {
        let prev = docker_groups(tags.drop_last());
        match spec_regex_captures(docker_tag_pattern(), tags.last()) {
            Some(ms) => tags_after(prev, ms, tags.last()),
            None => prev,
        }
    }
}

/// Groups the development image tags by the engine version they hold.
pub fn group_docker_tags(tags: &Vec<String>) -> (r: StrMap<Vec<String>>)
    ensures
        r.wf(),
        str_lists(r@) == docker_groups(texts(tags@)),
{
    let ghost ts = texts(tags@);
    let mut r: StrMap<Vec<String>> = StrMap::new();
    proof {
        assert(str_lists(r@) =~= docker_groups(ts.take(0)));
    }
    let mut i: usize = 0;
    while i < tags.len()
        invariant
            i <= tags@.len(),
            ts == texts(tags@),
            r.wf(),
            str_lists(r@) == docker_groups(ts.take(i as int)),
        decreases tags@.len() - i,
    {
        proof {
            assert(ts.take(i + 1).drop_last() =~= ts.take(i as int));
            assert(ts.take(i + 1).last() == tags@[i as int]@);
        }
        match regex_captures("dev-(?:slim-)?(\\d\\.\\d+.\\d+)", tags[i].as_str()) {
            Some(caps) => {
                add_docker_tag(&mut r, &caps, &tags[i]);
            },
            None => {},
        }
        i = i + 1;
    }
    proof {
        assert(ts.take(tags@.len() as int) =~= ts);
    }
    r
}

/// Adds `tag` to the list of the version (group 1) of each match (see
/// `tags_after`), from the capture groups of each match.
pub fn add_docker_tag(r: &mut StrMap<Vec<String>>, caps: &Vec<Vec<Option<String>>>, tag: &String)
    requires
        old(r).wf(),
    ensures
        final(r).wf(),
        str_lists(final(r)@) == tags_after(str_lists(old(r)@), captures_view(caps@), tag@),
{
    let ghost ms = captures_view(caps@);
    let ghost m0 = str_lists(r@);
    let mut j: usize = 0;
    proof {
        assert(ms.take(0) =~= Seq::<Seq<Option<Seq<char>>>>::empty());
    }
    while j < caps.len()
        invariant
            j <= caps@.len(),
            ms == captures_view(caps@),
            m0 == str_lists(old(r)@),
            r.wf(),
            str_lists(r@) == tags_after(m0, ms.take(j as int), tag@),
        decreases caps@.len() - j,
    {
        proof {
            assert(ms.take(j + 1).drop_last() =~= ms.take(j as int));
            assert(ms.take(j + 1).last() == ms[j as int]);
        }
        match group_of(&caps[j], 1) {
            Some(k) => {
                let ghost before = r@;
                let mut list = match r.remove(&k) {
                    Some(v) => v,
                    None => Vec::new(),
                };
                let ghost prev = list@;
                proof {
                    assert(strs(prev) == list_or_empty(str_lists(before), k@));
                }
                list.push(tag.clone());
                proof {
                    assert(strs(list@) =~= strs(prev).push(tag@));
                }
                r.insert(k, list);
                proof {
                    assert(str_lists(r@) =~= str_lists(before).insert(k@, strs(list@)));
                }
            },
            None => {},
        }
        j = j + 1;
    }
    proof {
        assert(ms.take(caps@.len() as int) =~= ms);
    }
}

/// Whether an image tag names a slim image.
pub open spec fn is_slim(tag: Seq<char>) -> bool {
    contains_text(tag, "slim"@)
}

fn slim(tag: &String) -> (r: bool)
    ensures
        r == is_slim(tag@),
{
    let t = chars_of(tag.as_str());
    let p = chars_of("slim");
    has_text(&t, &p)
}

/// The image to pick among the tags of a version when the option for
/// template projects and debug symbols is `full`: the first tag that is
/// slim exactly when that option is off.
pub fn docker_type_selected(labels: &Vec<String>, full: bool) -> (r: Option<String>)
    ensures
        match r {
            Some(l) => exists|i: int|
                0 <= i < labels@.len() && labels@[i] == l && is_slim(labels@[i]@) != full
                    && forall|j: int| 0 <= j < i ==> is_slim(labels@[j]@) == full,
            None => forall|j: int| 0 <= j < labels@.len() ==> is_slim(labels@[j]@) == full,
        },
{
    let mut i: usize = 0;
    while i < labels.len()
        invariant
            i <= labels@.len(),
            forall|j: int| 0 <= j < i ==> is_slim(labels@[j]@) == full,
        decreases labels@.len() - i,
    {
        if slim(&labels[i]) != full {
            return Some(labels[i].clone());
        }
        i = i + 1;
    }
    None
}

/// What selecting a version shows: whether a slim image exists for it (the
/// option for template projects and debug symbols can then be changed), and
/// the last full image among its tags, which becomes the selection.
pub fn docker_version_selected(labels: &Vec<String>) -> (r: (bool, Option<String>))
    ensures
        r.0 == exists|j: int| 0 <= j < labels@.len() && is_slim(labels@[j]@),
        match r.1 {
            Some(l) => exists|i: int|
                0 <= i < labels@.len() && labels@[i] == l && !is_slim(labels@[i]@)
                    && forall|j: int| i < j < labels@.len() ==> is_slim(labels@[j]@),
            None => forall|j: int| 0 <= j < labels@.len() ==> is_slim(labels@[j]@),
        },
{
    let mut any_slim = false;
    let mut selected: Option<String> = None;
    let mut last_full: usize = 0;
    let mut i: usize = 0;
    while i < labels.len()
        invariant
            i <= labels@.len(),
            any_slim == exists|j: int| 0 <= j < i && is_slim(labels@[j]@),
            match selected {
                Some(l) => last_full < i && labels@[last_full as int] == l && !is_slim(
                    labels@[last_full as int]@,
                ) && forall|j: int| last_full < j < i ==> is_slim(labels@[j]@),
                None => forall|j: int| 0 <= j < i ==> is_slim(labels@[j]@),
            },
        decreases labels@.len() - i,
    {
        if slim(&labels[i]) {
            any_slim = true;
        } else {
            selected = Some(labels[i].clone());
            last_full = i;
        }
        i = i + 1;
    }
    (any_slim, selected)
}

/// The editor binary to start in an engine's binary directory: "UE4Editor"
/// when present, else "UnrealEditor" when present, else none.
pub fn engine_binary_name(ue4_present: bool, unreal_present: bool) -> (r: Option<String>)
    ensures
        ue4_present ==> (r matches Some(n) && n@ == "UE4Editor"@),
        !ue4_present && unreal_present ==> (r matches Some(n) && n@ == "UnrealEditor"@),
        !ue4_present && !unreal_present ==> r is None,
{
    if ue4_present {
        Some(String::from_str("UE4Editor"))
    } else if unreal_present {
        Some(String::from_str("UnrealEditor"))
    } else {
        None
    }
}

/// Whether the engine list can refresh: no loading job queued or running.
pub fn can_be_refreshed(queued: usize, active: usize) -> (r: bool)
    requires
        queued + active <= usize::MAX,
    ensures
        r == (queued + active == 0),
{
    queued + active == 0
}

/// Where a version goes in a list sorted newest first: after every version
/// that does not compare as older than it.
pub open spec fn desc_insert_pos(sorted: Seq<Seq<char>>, x: Seq<char>) -> int
    decreases sorted.len(),
{
    if sorted.len() == 0 {
        0
    } else if spec_version_desc_order(sorted.last(), x) == Order::Greater {
        desc_insert_pos(sorted.drop_last(), x)
    } else {
        sorted.len() as int
    }
}

/// The versions sorted newest first by `spec_version_desc_order`, stable:
/// versions that compare equal keep their order.
pub open spec fn sorted_desc(s: Seq<Seq<char>>) -> Seq<Seq<char>>
    decreases s.len(),
{
    if s.len() == 0 {
        Seq::empty()
    } else {
        let sorted = sorted_desc(s.drop_last());
        let p = desc_insert_pos(sorted, s.last());
        sorted.take(p) + seq![s.last()] + sorted.skip(p)
    }
}

/// Sorts version names newest first (see `sorted_desc`).
pub fn sort_versions_desc(v: &Vec<String>) -> (r: Vec<String>)
    ensures
        strs(r@) == sorted_desc(strs(v@)),
{
    let ghost vs = strs(v@);
    let mut out: Vec<String> = Vec::new();
    let mut i: usize = 0;
    proof {
        assert(vs.take(0) =~= Seq::<Seq<char>>::empty());
    }
    while i < v.len()
        invariant
            i <= v@.len(),
            vs == strs(v@),
            strs(out@) == sorted_desc(vs.take(i as int)),
        decreases v@.len() - i,
    {
        let x = &v[i];
        let ghost so = strs(out@);
        let mut j: usize = out.len();
        proof {
            assert(so.take(j as int) =~= so);
        }
        while j > 0 && version_desc_order(out[j - 1].as_str(), x.as_str()) == Order::Greater
            invariant
                j <= out@.len(),
                so == strs(out@),
                desc_insert_pos(so, x@) == desc_insert_pos(so.take(j as int), x@),
            decreases j,
        {
            proof {
                let t = so.take(j as int);
                assert(t.last() == out@[j - 1]@);
                assert(t.drop_last() =~= so.take(j - 1));
            }
            j = j - 1;
        }
        proof {
            let t = so.take(j as int);
            if j > 0 {
                assert(t.last() == out@[j - 1]@);
            }
            assert(desc_insert_pos(t, x@) == j);
            assert(vs.take(i + 1).drop_last() =~= vs.take(i as int));
            assert(vs.take(i + 1).last() == x@);
        }
        out.insert(j, x.clone());
        proof {
            assert(strs(out@) =~= so.take(j as int) + seq![x@] + so.skip(j as int));
        }
        i = i + 1;
    }
    proof {
        assert(vs.take(v@.len() as int) =~= vs);
    }
    out
}

/// The delay, in seconds, before a periodic refresh: fifteen minutes, plus
/// whole minutes below `spread` chosen by `random`.
pub fn refresh_delay_from(random: u32, spread: u32) -> (r: u32)
    requires
        0 < spread <= 60,
    ensures
        r == 900 + (random % spread) * 60,
{
    900 + (random % spread) * 60
}

/// The delay before the engine list refreshes again: between fifteen and
/// nineteen minutes, in whole minutes, chosen at random.
pub fn engines_refresh_delay() -> (r: u32)
    ensures
        900 <= r < 900 + 5 * 60,
        (r - 900) % 60 == 0,
{
    let x = random_u32();
    let r = refresh_delay_from(x, 5);
    proof {
        let k = (x % 5) as int;
        assert((k * 60) % 60 == 0) by (nonlinear_arith)
            requires
                k >= 0,
        ;
    }
    r
}

/// Whether a docker engine image can be installed, by the engine directory
/// and the space left on its disk.
#[derive(Debug, PartialEq, Eq, Structural)]
pub enum InstallCheck {
    /// No engine directory is configured: an error shows, install is off.
    MissingDirectory,
    /// The image does not fit: an error shows, install is off.
    NoSpace,
    /// The image fits: the error clears, install is on.
    Fits,
}

/// Checks an install of `size` bytes against the space left (none known
/// counts as no space) in the first engine directory, if one is configured.
pub fn install_check(directory_configured: bool, available: Option<u64>, size: u64) -> (r: InstallCheck)
    ensures
        !directory_configured ==> r == InstallCheck::MissingDirectory,
        directory_configured ==> r == if (match available {
            Some(a) => a,
            None => 0u64,
        }) < size {
            InstallCheck::NoSpace
        } else {
            InstallCheck::Fits
        },
{
    if !directory_configured {
        return InstallCheck::MissingDirectory;
    }
    let a = match available {
        Some(a) => a,
        None => 0,
    };
    if a < size {
        InstallCheck::NoSpace
    } else {
        InstallCheck::Fits
    }
}

/// Whether an installed engine left the list: it has no path, or its
/// directory or its build version file is gone.
pub fn engine_is_stale(has_path: bool, dir_exists: bool, build_version_exists: bool) -> (r: bool)
    ensures
        r == (!has_path || !dir_exists || !build_version_exists),
{
    !has_path || !dir_exists || !build_version_exists
}

} // verus!
