//! Decisions of the project dialogs: where a download or a new project
//! goes, which engine versions are offered (newest first), and what the
//! dialogs warn about.

use vstd::prelude::*;
use vstd::string::*;
use crate::text::{chars_of, strs};

verus! {

/// The value of a run of decimal digits.
pub open spec fn digits_value(d: Seq<char>) -> int
    decreases d.len(),
{
    if d.len() == 0 {
        0
    } else {
        digits_value(d.drop_last()) * 10 + (d.last() as int - '0' as int)
    }
}

pub open spec fn is_digit(c: char) -> bool {
    '0' <= c && c <= '9'
}

pub open spec fn all_digits(d: Seq<char>) -> bool {
    forall|i: int| 0 <= i < d.len() ==> is_digit(#[trigger] d[i])
}

/// What `str::parse::<i32>` gives: an optional '+' or '-', then one or more
/// ASCII digits, with a value inside the range of `i32`; nothing otherwise.
pub open spec fn spec_parse_i32(s: Seq<char>) -> Option<i32> {
    let neg = s.len() > 0 && s[0] == '-';
    let signed = s.len() > 0 && (s[0] == '-' || s[0] == '+');
    let d = if signed {
        s.skip(1)
    } else {
        s
    };
    if d.len() == 0 || !all_digits(d) {
        None
    } else {
        let v = if neg {
            -digits_value(d)
        } else {
            digits_value(d)
        };
        if i32::MIN <= v <= i32::MAX {
            Some(v as i32)
        } else {
            None
        }
    }
}

proof fn lemma_digits_value_grows(d: Seq<char>, c: char)
    requires
        all_digits(d),
        is_digit(c),
    ensures
        digits_value(d.push(c)) == digits_value(d) * 10 + (c as int - '0' as int),
        digits_value(d) >= 0,
        digits_value(d.push(c)) >= digits_value(d),
    decreases d.len(),
{
    assert(d.push(c).drop_last() =~= d);
    if d.len() > 0 {
        assert(all_digits(d.drop_last()));
        assert(is_digit(d[d.len() - 1]));
        lemma_digits_value_grows(d.drop_last(), d.last());
        assert(d.drop_last().push(d.last()) =~= d);
    }
}

proof fn lemma_digits_prefix(d: Seq<char>, k: int)
    requires
        all_digits(d),
        0 <= k <= d.len(),
    ensures
        digits_value(d) >= digits_value(d.take(k)),
        digits_value(d.take(k)) >= 0,
    decreases d.len() - k,
{
    if k < d.len() {
        let t = d.take(k);
        assert(all_digits(t));
        assert(is_digit(d[k]));
        lemma_digits_value_grows(t, d[k]);
        assert(t.push(d[k]) =~= d.take(k + 1));
        lemma_digits_prefix(d, k + 1);
    } else {
        assert(d.take(k) =~= d);
        if d.len() > 0 {
            assert(all_digits(d.drop_last()));
            assert(is_digit(d[d.len() - 1]));
            lemma_digits_value_grows(d.drop_last(), d.last());
            assert(d.drop_last().push(d.last()) =~= d);
        }
    }
}

/// Parses a decimal `i32` as `str::parse` does (see `spec_parse_i32`).
pub fn parse_i32_text(s: &Vec<char>) -> (r: Option<i32>)
    ensures
        r == spec_parse_i32(s@),
{
    let n = s.len();
    let neg = n > 0 && s[0] == '-';
    let signed = n > 0 && (s[0] == '-' || s[0] == '+');
    let start: usize = if signed {
        1
    } else {
        0
    };
    let ghost d = if signed {
        s@.skip(1)
    } else {
        s@
    };
    proof {
        assert(d =~= s@.skip(start as int));
        assert(signed == (s@.len() > 0 && (s@[0] == '-' || s@[0] == '+')));
        assert(neg == (s@.len() > 0 && s@[0] == '-'));
    }
    if start == n {
        return None;
    }
    let mut v: i64 = 0;
    let mut i: usize = start;
    proof {
        assert(d.take(0) =~= Seq::<char>::empty());
    }
    while i < n
        invariant
            start <= i <= n,
            n == s@.len(),
            d == s@.skip(start as int),
            d == if s@.len() > 0 && (s@[0] == '-' || s@[0] == '+') {
                s@.skip(1)
            } else {
                s@
            },
            neg == (s@.len() > 0 && s@[0] == '-'),
            d.len() > 0,
            all_digits(d.take(i - start)),
            v == digits_value(d.take(i - start)),
            0 <= v <= 2147483648,
        decreases n - i,
    {
        let c = s[i];
        if !('0' <= c && c <= '9') {
            proof {
                assert(d[i - start] == c);
                assert(!is_digit(d[i - start]));
                assert(!all_digits(d));
                assert(spec_parse_i32(s@) is None);
            }
            return None;
        }
        let ghost t = d.take(i - start);
        proof {
            assert(d[i - start] == c);
            assert(t.push(c) =~= d.take(i - start + 1));
            lemma_digits_value_grows(t, c);
        }
        let digit: i64 = if c == '0' {
            0
        } else if c == '1' {
            1
        } else if c == '2' {
            2
        } else if c == '3' {
            3
        } else if c == '4' {
            4
        } else if c == '5' {
            5
        } else if c == '6' {
            6
        } else if c == '7' {
            7
        } else if c == '8' {
            8
        } else {
            9
        };
        assert(digit == c as int - '0' as int);
        let next = v * 10 + digit;
        i = i + 1;
        if next > 2147483648 {
            proof {
                assert(digits_value(d.take(i - start)) == next);
                if all_digits(d) {
                    lemma_digits_prefix(d, i - start);
                    assert(digits_value(d) > 2147483648);
                }
                assert(spec_parse_i32(s@) is None);
            }
            return None;
        }
        v = next;
    }
    proof {
        assert(d.take(n - start) =~= d);
    }
    if neg {
        Some((-v) as i32)
    } else if v <= 2147483647 {
        Some(v as i32)
    } else {
        None
    }
}

/// The pieces of a text between its dots, as `str::split('.')` gives them
/// (empty pieces included; a text without dots is one piece).
pub open spec fn dot_pieces(s: Seq<char>) -> Seq<Seq<char>>
    decreases s.len(),
{
    if s.len() == 0 {
        seq![Seq::empty()]
    } else if s.last() == '.' {
        dot_pieces(s.drop_last()).push(Seq::empty())
    } else {
        let p = dot_pieces(s.drop_last());
        p.update(p.len() - 1, p.last().push(s.last()))
    }
}

/// The numbers among some pieces: each piece that parses as an `i32`.
pub open spec fn piece_numbers(ps: Seq<Seq<char>>) -> Seq<i32>
    decreases ps.len(),
{
    if ps.len() == 0 {
        Seq::empty()
    } else {
        match spec_parse_i32(ps.last()) {
            Some(v) => piece_numbers(ps.drop_last()).push(v),
            None => piece_numbers(ps.drop_last()),
        }
    }
}

/// The (major, minor, patch) a version text is ordered by: the first three
/// of its dot-separated pieces that are numbers, 0 for any missing.
pub open spec fn spec_version_key(s: Seq<char>) -> (i32, i32, i32) {
    let n = piece_numbers(dot_pieces(s));
    (
        if n.len() > 0 { n[0] } else { 0 },
        if n.len() > 1 { n[1] } else { 0 },
        if n.len() > 2 { n[2] } else { 0 },
    )
}

/// The key a version text is ordered by (see `spec_version_key`).
pub fn version_key(s: &str) -> (r: (i32, i32, i32))
    ensures
        r == spec_version_key(s@),
{
    let c = chars_of(s);
    let mut nums: Vec<i32> = Vec::new();
    let mut cur: Vec<char> = Vec::new();
    let ghost mut done: Seq<Seq<char>> = Seq::empty();
    let mut i: usize = 0;
    proof {
        assert(c@.take(0) =~= Seq::<char>::empty());
        assert(dot_pieces(c@.take(0)) =~= done.push(cur@));
    }
    while i < c.len()
        invariant
            i <= c@.len(),
            dot_pieces(c@.take(i as int)) == done.push(cur@),
            piece_numbers(done) == nums@,
        decreases c@.len() - i,
    {
        let ch = c[i];
        let ghost t = c@.take(i as int);
        proof {
            assert(c@.take(i + 1).drop_last() =~= t);
            assert(c@.take(i + 1).last() == ch);
        }
        if ch == '.' {
            let parsed = parse_i32_text(&cur);
            proof {
                assert(dot_pieces(c@.take(i + 1)) == done.push(cur@).push(Seq::<char>::empty()));
                assert(done.push(cur@).drop_last() =~= done);
            }
            match parsed {
                Some(v) => {
                    nums.push(v);
                },
                None => {},
            }
            proof {
                done = done.push(cur@);
            }
            cur = Vec::new();
            proof {
                assert(dot_pieces(c@.take(i + 1)) =~= done.push(cur@));
            }
        } else {
            cur.push(ch);
            proof {
                let p = done.push(cur@.drop_last());
                assert(cur@.drop_last().push(ch) =~= cur@);
                assert(p.update(p.len() - 1, p.last().push(ch)) =~= done.push(cur@));
            }
        }
        i = i + 1;
    }
    let last = parse_i32_text(&cur);
    match last {
        Some(v) => {
            nums.push(v);
        },
        None => {},
    }
    proof {
        assert(c@.take(c@.len() as int) =~= c@);
        assert(done.push(cur@).drop_last() =~= done);
        assert(piece_numbers(dot_pieces(c@)) == nums@);
    }
    let a = if nums.len() > 0 { nums[0] } else { 0 };
    let b = if nums.len() > 1 { nums[1] } else { 0 };
    let d = if nums.len() > 2 { nums[2] } else { 0 };
    (a, b, d)
}

/// Whether key `a` comes before key `b` in (major, minor, patch) order.
pub open spec fn key_lt(a: (i32, i32, i32), b: (i32, i32, i32)) -> bool {
    a.0 < b.0 || (a.0 == b.0 && (a.1 < b.1 || (a.1 == b.1 && a.2 < b.2)))
}

fn key_less(a: (i32, i32, i32), b: (i32, i32, i32)) -> (r: bool)
    ensures
        r == key_lt(a, b),
{
    a.0 < b.0 || (a.0 == b.0 && (a.1 < b.1 || (a.1 == b.1 && a.2 < b.2)))
}

/// Where a version goes among versions already listed newest first: after
/// every version whose key is not below its own.
pub open spec fn insert_pos(sorted: Seq<Seq<char>>, x: Seq<char>) -> int
    decreases sorted.len(),
{
    if sorted.len() == 0 {
        0
    } else if key_lt(spec_version_key(sorted.last()), spec_version_key(x)) {
        insert_pos(sorted.drop_last(), x)
    } else {
        sorted.len() as int
    }
}

/// The versions listed newest first (by `spec_version_key`), versions with
/// the same key in the order they were found.
pub open spec fn newest_first(s: Seq<Seq<char>>) -> Seq<Seq<char>>
    decreases s.len(),
{
    if s.len() == 0 {
        Seq::empty()
    } else {
        let sorted = newest_first(s.drop_last());
        let p = insert_pos(sorted, s.last());
        sorted.take(p) + seq![s.last()] + sorted.skip(p)
    }
}

/// Lists versions newest first (see `newest_first`).
pub fn sort_newest_first(v: &Vec<String>) -> (r: Vec<String>)
    ensures
        strs(r@) == newest_first(strs(v@)),
{
    let ghost vs = strs(v@);
    let mut out: Vec<String> = Vec::new();
    let mut keys: Vec<(i32, i32, i32)> = Vec::new();
    let mut i: usize = 0;
    proof {
        assert(vs.take(0) =~= Seq::<Seq<char>>::empty());
    }
    while i < v.len()
        invariant
            i <= v@.len(),
            vs == strs(v@),
            strs(out@) == newest_first(vs.take(i as int)),
            keys@.len() == out@.len(),
            forall|k: int| 0 <= k < out@.len() ==> #[trigger] keys@[k] == spec_version_key(out@[k]@),
        decreases v@.len() - i,
    {
        let x = &v[i];
        let kx = version_key(x.as_str());
        let ghost so = strs(out@);
        let mut j: usize = out.len();
        proof {
            assert(so.take(j as int) =~= so);
        }
        while j > 0 && key_less(keys[j - 1], kx)
            invariant
                j <= out@.len(),
                so == strs(out@),
                keys@.len() == out@.len(),
                forall|k: int| 0 <= k < out@.len() ==> #[trigger] keys@[k] == spec_version_key(out@[k]@),
                kx == spec_version_key(x@),
                insert_pos(so, x@) == insert_pos(so.take(j as int), x@),
            decreases j,
        {
            proof {
                let t = so.take(j as int);
                assert(t.last() == out@[j - 1]@);
                assert(t.drop_last() =~= so.take(j - 1));
            }
            j = j - 1;
        }
        proof {
            let t = so.take(j as int);
            if j > 0 {
                assert(t.last() == out@[j - 1]@);
            }
            assert(insert_pos(t, x@) == j);
            assert(vs.take(i + 1).drop_last() =~= vs.take(i as int));
            assert(vs.take(i + 1).last() == x@);
        }
        let ghost out0 = out@;
        let ghost keys0 = keys@;
        out.insert(j, x.clone());
        keys.insert(j, kx);
        proof {
            assert(strs(out@) =~= so.take(j as int) + seq![x@] + so.skip(j as int));
            assert forall|k: int| 0 <= k < out@.len() implies #[trigger] keys@[k] == spec_version_key(out@[k]@) by {
                if k < j {
                    assert(out@[k] == out0[k] && keys@[k] == keys0[k]);
                } else if k > j {
                    assert(out@[k] == out0[k - 1] && keys@[k] == keys0[k - 1]);
                }
            }
        }
        i = i + 1;
    }
    proof {
        assert(vs.take(v@.len() as int) =~= vs);
    }
    out
}

/// Adds a version found on disk to the list, unless it is empty or listed
/// already.
pub fn add_found_version(found: &mut Vec<String>, version: &str)
    ensures
        (version@.len() == 0 || strs(old(found)@).contains(version@)) ==> *final(found) == *old(found),
        !(version@.len() == 0 || strs(old(found)@).contains(version@)) ==> strs(final(found)@) == strs(
            old(found)@,
        ).push(version@),
{
    if version.unicode_len() == 0 {
        return;
    }
    let v = String::from_str(version);
    let mut i: usize = 0;
    while i < found.len()
        invariant
            i <= found@.len(),
            v@ == version@,
            *found == *old(found),
            forall|k: int| 0 <= k < i ==> found@[k]@ != version@,
        decreases found@.len() - i,
    {
        if found[i] == v {
            proof {
                assert(strs(found@)[i as int] == version@);
            }
            return;
        }
        i = i + 1;
    }
    proof {
        assert forall|k: int| 0 <= k < strs(found@).len() implies strs(found@)[k] != version@ by {
            assert(strs(found@)[k] == found@[k]@);
        }
    }
    let ghost f0 = found@;
    found.push(v);
    proof {
        assert(strs(found@) =~= strs(f0).push(version@));
    }
}

/// The engine versions the project dialog offers, newest first, and
/// whether a project can be created: "No engines found" alone, with
/// creation off, when there are none.
pub fn engine_choices(found: &Vec<String>) -> (r: (Vec<String>, bool))
    ensures
        found@.len() > 0 ==> strs(r.0@) == newest_first(strs(found@)) && r.1,
        found@.len() == 0 ==> strs(r.0@) == seq!["No engines found"@] && !r.1,
{
    if found.len() == 0 {
        let r = vec![String::from_str("No engines found")];
        proof {
            reveal_strlit("No engines found");
            assert(strs(r@) =~= seq!["No engines found"@]);
        }
        return (r, false);
    }
    (sort_newest_first(found), true)
}

/// Picks a project location: an existing entry is selected (its first
/// position); a new one is appended and selected. The result is the
/// position and whether the location was new.
pub fn add_location(locations: &mut Vec<String>, path: &String) -> (r: (usize, bool))
    ensures
        strs(old(locations)@).contains(path@) ==> *final(locations) == *old(locations) && !r.1
            && r.0 < old(locations)@.len() && old(locations)@[r.0 as int]@ == path@ && forall|k: int|
            0 <= k < r.0 ==> old(locations)@[k]@ != path@,
        !strs(old(locations)@).contains(path@) ==> strs(final(locations)@) == strs(old(locations)@).push(
            path@,
        ) && r.1 && r.0 == old(locations)@.len(),
{
    let mut i: usize = 0;
    while i < locations.len()
        invariant
            i <= locations@.len(),
            *locations == *old(locations),
            forall|k: int| 0 <= k < i ==> locations@[k]@ != path@,
        decreases locations@.len() - i,
    {
        if locations[i] == *path {
            proof {
                assert(strs(locations@)[i as int] == path@);
            }
            return (i, false);
        }
        i = i + 1;
    }
    proof {
        assert forall|k: int| 0 <= k < strs(locations@).len() implies strs(locations@)[k] != path@ by {
            assert(strs(locations@)[k] == locations@[k]@);
        }
    }
    let ghost l0 = locations@;
    let n = locations.len();
    locations.push(path.clone());
    proof {
        assert(strs(locations@) =~= strs(l0).push(path@));
    }
    (n, true)
}

/// The state of the project form: creation is possible once a name is
/// given; the warning shows when the project's directory exists, and is
/// hidden without a name; without a location it stays as it was (none).
pub fn project_form_state(name_given: bool, target_exists: Option<bool>) -> (r: (bool, Option<bool>))
    ensures
        !name_given ==> r == (false, Some(false)),
        name_given ==> r == (true, target_exists),
{
    if !name_given {
        (false, Some(false))
    } else {
        (true, target_exists)
    }
}

/// What creating a project does.
pub enum ProjectPlan {
    /// Nothing: no name, no location, or no asset (or no version to fetch).
    Nothing,
    /// The project exists and may not be overwritten: the warning shows.
    WarnExists,
    /// The asset lies in a vault already: its directory is copied.
    CopyFrom(String),
    /// The asset version is downloaded and then copied into the project.
    Download(String),
}

/// Decides what creating a project does, in this order: a name and a
/// location are needed; an existing project needs the overwrite option;
/// an asset is needed; a local copy of it is copied; else the selected
/// version is downloaded (and copied to the project afterwards).
pub fn project_plan(
    name_given: bool,
    has_location: bool,
    target_exists: bool,
    overwrite: bool,
    has_asset: bool,
    local_copy: &Option<String>,
    version: &Option<String>,
) -> (r: ProjectPlan)
    ensures
        !name_given || !has_location ==> r is Nothing,
        name_given && has_location && target_exists && !overwrite ==> r is WarnExists,
        name_given && has_location && !(target_exists && !overwrite) ==> if !has_asset {
            r is Nothing
        } else {
            match local_copy {
                Some(src) => r matches ProjectPlan::CopyFrom(c) && c@ == src@,
                None => match version {
                    Some(v) => r matches ProjectPlan::Download(d) && d@ == v@,
                    None => r is Nothing,
                },
            }
        },
{
    if !name_given || !has_location {
        return ProjectPlan::Nothing;
    }
    if target_exists && !overwrite {
        return ProjectPlan::WarnExists;
    }
    if !has_asset {
        return ProjectPlan::Nothing;
    }
    match local_copy {
        Some(src) => ProjectPlan::CopyFrom(src.clone()),
        None => match version {
            Some(v) => ProjectPlan::Download(v.clone()),
            None => ProjectPlan::Nothing,
        },
    }
}

/// The labels of a directory choice: the first directory is marked
/// " (default)" (it is the one selected), the others are shown as they are.
pub fn directory_labels(dirs: &Vec<String>) -> (r: Vec<String>)
    ensures
        r@.len() == dirs@.len(),
        dirs@.len() > 0 ==> r@[0]@ == dirs@[0]@ + " (default)"@,
        forall|k: int| 1 <= k < dirs@.len() ==> #[trigger] r@[k]@ == dirs@[k]@,
{
    let mut r: Vec<String> = Vec::new();
    let mut i: usize = 0;
    while i < dirs.len()
        invariant
            i <= dirs@.len(),
            r@.len() == i,
            i > 0 ==> r@[0]@ == dirs@[0]@ + " (default)"@,
            forall|k: int| 1 <= k < i ==> #[trigger] r@[k]@ == dirs@[k]@,
        decreases dirs@.len() - i,
    {
        let mut label = dirs[i].clone();
        if i == 0 {
            label.append(" (default)");
        }
        r.push(label);
        i = i + 1;
    }
    r
}

/// Whether a file name names a project file.
pub open spec fn is_project_file(f: Seq<char>) -> bool {
    f.len() >= 9 && f.subrange(f.len() - 9, f.len() as int) == ".uproject"@
}

/// The project name a download offers: the first project file among the
/// manifest's files, without its ".uproject".
pub fn project_name_from_files(files: &Vec<String>) -> (r: Option<String>)
    ensures
        match r {
            Some(n) => exists|i: int|
                0 <= i < files@.len() && is_project_file(#[trigger] files@[i]@) && n@ == files@[i]@.subrange(
                    0,
                    files@[i]@.len() - 9,
                ) && forall|k: int| 0 <= k < i ==> !is_project_file(files@[k]@),
            None => forall|k: int| 0 <= k < files@.len() ==> !is_project_file(#[trigger] files@[k]@),
        },
{
    let ext = chars_of(".uproject");
    proof {
        reveal_strlit(".uproject");
    }
    let mut i: usize = 0;
    while i < files.len()
        invariant
            i <= files@.len(),
            ext@ == ".uproject"@,
            ext@.len() == 9,
            forall|k: int| 0 <= k < i ==> !is_project_file(#[trigger] files@[k]@),
        decreases files@.len() - i,
    {
        let f = chars_of(files[i].as_str());
        let n = f.len();
        if n >= 9 {
            let mut same = true;
            let mut j: usize = 0;
            while j < 9
                invariant
                    j <= 9,
                    n == f@.len(),
                    n >= 9,
                    ext@ == ".uproject"@,
                    ext@.len() == 9,
                    same == forall|q: int| 0 <= q < j ==> f@[n - 9 + q] == ext@[q],
                decreases 9 - j,
            {
                if f[n - 9 + j] != ext[j] {
                    same = false;
                }
                j = j + 1;
            }
            proof {
                if same {
                    assert(f@.subrange(n - 9, n as int) =~= ext@);
                } else {
                    let q = choose|q: int| 0 <= q < 9 && f@[n - 9 + q] != ext@[q];
                    assert(f@.subrange(n - 9, n as int)[q] != ext@[q]);
                }
            }
            if same {
                let mut name: Vec<char> = Vec::new();
                let mut k: usize = 0;
                while k < n - 9
                    invariant
                        k <= n - 9,
                        n == f@.len(),
                        name@ == f@.take(k as int),
                    decreases n - 9 - k,
                {
                    name.push(f[k]);
                    k = k + 1;
                    proof {
                        assert(name@ =~= f@.take(k as int));
                    }
                }
                proof {
                    assert(f@.take((n - 9) as int) =~= f@.subrange(0, n - 9));
                }
                return Some(crate::text::string_of(&name));
            }
        }
        i = i + 1;
    }
    None
}

/// The warning about files a copy into a project would overwrite: shown
/// when any would be, with each such path on a line of its own after the
/// heading.
pub fn overwrite_warning(existing: &Vec<String>) -> (r: (bool, String))
    ensures
        r.0 == (existing@.len() > 0),
        r.1@ == overwrite_text(strs(existing@)),
{
    let mut text = String::from_str("Files that would be overwritten: ");
    let mut i: usize = 0;
    proof {
        reveal_strlit("Files that would be overwritten: ");
        assert(strs(existing@).take(0) =~= Seq::<Seq<char>>::empty());
    }
    while i < existing.len()
        invariant
            i <= existing@.len(),
            text@ == overwrite_text(strs(existing@).take(i as int)),
        decreases existing@.len() - i,
    {
        proof {
            assert(strs(existing@).take(i + 1).drop_last() =~= strs(existing@).take(i as int));
            assert(strs(existing@).take(i + 1).last() == existing@[i as int]@);
            reveal_strlit("\n");
        }
        text.append("\n");
        text.append(existing[i].as_str());
        i = i + 1;
    }
    proof {
        assert(strs(existing@).take(existing@.len() as int) =~= strs(existing@));
    }
    (existing.len() > 0, text)
}

/// The heading and then each path on a line of its own.
pub open spec fn overwrite_text(paths: Seq<Seq<char>>) -> Seq<char>
    decreases paths.len(),
{
    if paths.len() == 0 {
        "Files that would be overwritten: "@
    } else {
        overwrite_text(paths.drop_last()) + "\n"@ + paths.last()
    }
}

/// The release an asset is added to a project with: the app of its first
/// release, when that names one.
pub fn first_release_app(app_ids: &Vec<Option<String>>) -> (r: Option<String>)
    ensures
        app_ids@.len() == 0 ==> r is None,
        app_ids@.len() > 0 ==> r == app_ids@[0],
{
    if app_ids.len() == 0 {
        None
    } else {
        crate::text::clone_opt_string(&app_ids[0])
    }
}

/// The heading of the "add to project" dialog.
pub fn add_to_project_heading(title: &str) -> (r: String)
    ensures
        r@ == "Add \""@ + title@ + "\" to project:"@,
{
    let mut r = String::from_str("Add \"");
    r.append(title);
    r.append("\" to project:");
    r
}

/// The local copies of an asset, as (app, path) pairs, split into those of
/// `release` and those of its other releases, each in order.
pub open spec fn copies_of(entries: Seq<(Seq<char>, Seq<char>)>, release: Seq<char>, mine: bool) -> Seq<Seq<char>>
    decreases entries.len(),
{
    if entries.len() == 0 {
        Seq::empty()
    } else {
        let prev = copies_of(entries.drop_last(), release, mine);
        if (entries.last().0 == release) == mine {
            prev.push(entries.last().1)
        } else {
            prev
        }
    }
}

pub open spec fn pairs_text(v: Seq<(String, String)>) -> Seq<(Seq<char>, Seq<char>)> {
    v.map_values(|p: (String, String)| (p.0@, p.1@))
}

/// Splits the local copies (see `copies_of`); the list of the other
/// releases shows only when it is not empty.
pub fn local_copy_lists(entries: &Vec<(String, String)>, release: &String) -> (r: (Vec<String>, Vec<String>))
    ensures
        strs(r.0@) == copies_of(pairs_text(entries@), release@, true),
        strs(r.1@) == copies_of(pairs_text(entries@), release@, false),
{
    let ghost es = pairs_text(entries@);
    let mut mine: Vec<String> = Vec::new();
    let mut other: Vec<String> = Vec::new();
    let mut i: usize = 0;
    proof {
        assert(es.take(0) =~= Seq::<(Seq<char>, Seq<char>)>::empty());
    }
    while i < entries.len()
        invariant
            i <= entries@.len(),
            es == pairs_text(entries@),
            strs(mine@) == copies_of(es.take(i as int), release@, true),
            strs(other@) == copies_of(es.take(i as int), release@, false),
        decreases entries@.len() - i,
    {
        let ghost m0 = mine@;
        let ghost o0 = other@;
        proof {
            assert(es.take(i + 1).drop_last() =~= es.take(i as int));
            assert(es.take(i + 1).last() == (entries@[i as int].0@, entries@[i as int].1@));
        }
        if entries[i].0 == *release {
            mine.push(entries[i].1.clone());
            proof {
                assert(strs(mine@) =~= strs(m0).push(entries@[i as int].1@));
            }
        } else {
            other.push(entries[i].1.clone());
            proof {
                assert(strs(other@) =~= strs(o0).push(entries@[i as int].1@));
            }
        }
        i = i + 1;
    }
    proof {
        assert(es.take(entries@.len() as int) =~= es);
    }
    (mine, other)
}

} // verus!
