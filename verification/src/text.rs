//! String building blocks with exact contracts.

use vstd::prelude::*;
use vstd::string::*;
use crate::outside::push_char;

verus! {

pub open spec fn spec_concat3(a: Seq<char>, b: Seq<char>, c: Seq<char>) -> Seq<char> {
    a + b + c
}

/// `a`, `b` and `c` written one after the other.
pub fn concat3(a: &str, b: &str, c: &str) -> (r: String)
    ensures
        r@ == spec_concat3(a@, b@, c@),
{
    let mut r = String::new();
    r.append(a);
    r.append(b);
    r.append(c);
    r
}

/// The lowercase hexadecimal digit for `n` (below 16).
pub open spec fn hex_digit(n: int) -> char {
    if n == 0 {
        '0'
    } else if n == 1 {
        '1'
    } else if n == 2 {
        '2'
    } else if n == 3 {
        '3'
    } else if n == 4 {
        '4'
    } else if n == 5 {
        '5'
    } else if n == 6 {
        '6'
    } else if n == 7 {
        '7'
    } else if n == 8 {
        '8'
    } else if n == 9 {
        '9'
    } else if n == 10 {
        'a'
    } else if n == 11 {
        'b'
    } else if n == 12 {
        'c'
    } else if n == 13 {
        'd'
    } else if n == 14 {
        'e'
    } else {
        'f'
    }
}

/// The character of the hexadecimal digit `n`.
pub fn hex_char(n: u8) -> (c: char)
    requires
        n < 16,
    ensures
        c == hex_digit(n as int),
{
    match n {
        0 => '0',
        1 => '1',
        2 => '2',
        3 => '3',
        4 => '4',
        5 => '5',
        6 => '6',
        7 => '7',
        8 => '8',
        9 => '9',
        10 => 'a',
        11 => 'b',
        12 => 'c',
        13 => 'd',
        14 => 'e',
        _ => 'f',
    }
}

/// The decimal digits of `n`.
pub open spec fn nat_text(n: nat) -> Seq<char>
    decreases n,
{
    if n < 10 {
        seq![hex_digit(n as int)]
    } else {
        nat_text(n / 10).push(hex_digit((n % 10) as int))
    }
}

/// `n` in decimal, with a leading '-' when negative.
pub open spec fn int_text(n: int) -> Seq<char> {
    if n < 0 {
        seq!['-'] + nat_text((-n) as nat)
    } else {
        nat_text(n as nat)
    }
}

/// `n` in decimal.
pub fn u64_text(n: u64) -> (r: String)
    ensures
        r@ == nat_text(n as nat),
    decreases n,
{
    if n < 10 {
        let mut r = String::new();
        push_char(&mut r, hex_char(n as u8));
        proof {
            assert(r@ =~= seq![hex_digit(n as int)]);
        }
        r
    } else {
        let mut r = u64_text(n / 10);
        push_char(&mut r, hex_char((n % 10) as u8));
        r
    }
}

/// `n` in decimal, with a leading '-' when negative.
pub fn i64_text(n: i64) -> (r: String)
    ensures
        r@ == int_text(n as int),
{
    if n < 0 {
        let m: u64 = (-(n as i128)) as u64;
        let digits = u64_text(m);
        let mut r = String::new();
        push_char(&mut r, '-');
        r.append(digits.as_str());
        proof {
            assert(r@ =~= seq!['-'] + nat_text((-n) as nat));
        }
        r
    } else {
        u64_text(n as u64)
    }
}

/// The characters of `s`.
pub fn chars_of(s: &str) -> (r: Vec<char>)
    ensures
        r@ == s@,
{
    let n = s.unicode_len();
    let mut r: Vec<char> = Vec::new();
    let mut i: usize = 0;
    while i < n
        invariant
            n == s@.len(),
            i <= n,
            r@ == s@.take(i as int),
        decreases n - i,
    {
        r.push(s.get_char(i));
        i = i + 1;
        proof {
            assert(r@ =~= s@.take(i as int));
        }
    }
    proof {
        assert(s@.take(n as int) =~= s@);
    }
    r
}

/// A string with the characters of `v`.
pub fn string_of(v: &Vec<char>) -> (r: String)
    ensures
        r@ == v@,
{
    let mut r = String::new();
    let mut i: usize = 0;
    while i < v.len()
        invariant
            i <= v@.len(),
            r@ == v@.take(i as int),
        decreases v@.len() - i,
    {
        push_char(&mut r, v[i]);
        i = i + 1;
        proof {
            assert(r@ =~= v@.take(i as int));
        }
    }
    proof {
        assert(v@.take(v@.len() as int) =~= v@);
    }
    r
}

/// Whether `t` occurs in `s` as a contiguous piece.
pub open spec fn contains_text(s: Seq<char>, t: Seq<char>) -> bool {
    exists|i: int| 0 <= i && i + t.len() <= s.len() && #[trigger] s.subrange(i, i + t.len()) == t
}

/// Tells whether `t` occurs in `s` as a contiguous piece.
pub fn has_text(s: &Vec<char>, t: &Vec<char>) -> (r: bool)
    ensures
        r == contains_text(s@, t@),
{
    if t.len() > s.len() {
        return false;
    }
    if t.len() == 0 {
        assert(s@.subrange(0int, 0int + t@.len()) =~= t@);
        return true;
    }
    let last = s.len() - t.len();
    assert(s@.len() <= usize::MAX);
    let mut i: usize = 0;
    while i <= last
        invariant
            last == s@.len() - t@.len(),
            0 < t@.len() <= s@.len(),
            s@.len() <= usize::MAX,
            forall|j: int| 0 <= j < i ==> #[trigger] s@.subrange(j, j + t@.len()) != t@,
        decreases last + 1 - i,
    {
        let mut k: usize = 0;
        let mut same = true;
        while k < t.len() && same
            invariant
                i <= last,
                last == s@.len() - t@.len(),
                0 < t@.len() <= s@.len(),
                s@.len() <= usize::MAX,
                k <= t@.len(),
                same == forall|q: int| 0 <= q < k ==> s@[i + q] == t@[q],
            decreases t@.len() - k,
        {
            if s[i + k] != t[k] {
                same = false;
            }
            k = k + 1;
        }
        if same {
            proof {
                assert(s@.subrange(i as int, i + t@.len()) =~= t@);
            }
            return true;
        }
        proof {
            let q = choose|q: int| 0 <= q < k && s@[i + q] != t@[q];
            assert(s@.subrange(i as int, i + t@.len())[q] != t@[q]);
        }
        i = i + 1;
    }
    proof {
        assert forall|j: int| 0 <= j && j + t@.len() <= s@.len() implies #[trigger] s@.subrange(
            j,
            j + t@.len(),
        ) != t@ by {
            assert(j < i);
        }
    }
    false
}

/// `c` in lower case when it is an ASCII capital letter.
pub open spec fn ascii_lower(c: char) -> char {
    if 'A' <= c <= 'Z' {
        ((c as u8) + 32) as char
    } else {
        c
    }
}

pub open spec fn ascii_lower_text(s: Seq<char>) -> Seq<char> {
    s.map_values(|c: char| ascii_lower(c))
}

/// The characters of `s` with ASCII capitals in lower case.
pub fn to_ascii_lower(s: &Vec<char>) -> (r: Vec<char>)
    ensures
        r@ == ascii_lower_text(s@),
{
    let mut r: Vec<char> = Vec::new();
    let mut i: usize = 0;
    while i < s.len()
        invariant
            i <= s@.len(),
            r@.len() == i,
            forall|j: int| 0 <= j < i ==> r@[j] == ascii_lower(#[trigger] s@[j]),
        decreases s@.len() - i,
    {
        let c = s[i];
        let l = if 'A' <= c && c <= 'Z' {
            ((c as u8) + 32) as char
        } else {
            c
        };
        r.push(l);
        i = i + 1;
    }
    proof {
        assert(r@ =~= ascii_lower_text(s@));
    }
    r
}

/// A copy of an optional text.
pub fn clone_opt_string(s: &Option<String>) -> (r: Option<String>)
    ensures
        r == *s,
{
    match s {
        Some(v) => Some(v.clone()),
        None => None,
    }
}

/// The texts of a list of strings.
pub open spec fn strs(v: Seq<String>) -> Seq<Seq<char>> {
    v.map_values(|s: String| s@)
}

/// The texts joined with `sep` between each two.
pub open spec fn join_with(parts: Seq<Seq<char>>, sep: Seq<char>) -> Seq<char>
    decreases parts.len(),
{
    if parts.len() == 0 {
        Seq::empty()
    } else if parts.len() == 1 {
        parts[0]
    } else {
        join_with(parts.drop_last(), sep) + sep + parts.last()
    }
}

/// A text with every "UE_" taken out, read from left to right.
pub open spec fn without_ue(s: Seq<char>) -> Seq<char>
    decreases s.len(),
{
    if s.len() == 0 {
        s
    } else if s.len() >= 3 && s[0] == 'U' && s[1] == 'E' && s[2] == '_' {
        without_ue(s.skip(3))
    } else {
        seq![s[0]] + without_ue(s.skip(1))
    }
}

/// The texts joined with `sep` between each two (see `join_with`).
pub fn join_texts(parts: &Vec<String>, sep: &str) -> (r: String)
    ensures
        r@ == join_with(strs(parts@), sep@),
{
    let ghost ps = strs(parts@);
    if parts.len() == 0 {
        return String::new();
    }
    let mut joined = parts[0].clone();
    let mut k: usize = 1;
    proof {
        assert(ps.take(1) =~= seq![ps[0]]);
    }
    while k < parts.len()
        invariant
            1 <= k <= parts@.len(),
            ps == strs(parts@),
            joined@ == join_with(ps.take(k as int), sep@),
        decreases parts@.len() - k,
    {
        proof {
            assert(ps.take(k + 1).drop_last() =~= ps.take(k as int));
            assert(ps.take(k + 1).last() == parts@[k as int]@);
        }
        joined.append(sep);
        joined.append(parts[k].as_str());
        k = k + 1;
    }
    proof {
        assert(ps.take(k as int) =~= ps);
    }
    joined
}

/// A text with every "UE_" taken out (see `without_ue`).
pub fn strip_ue(s: &str) -> (r: String)
    ensures
        r@ == without_ue(s@),
{
    let c = chars_of(s);
    let mut out: Vec<char> = Vec::new();
    let mut i: usize = 0;
    proof {
        assert(c@.skip(0) =~= c@);
    }
    while i < c.len()
        invariant
            i <= c@.len(),
            out@ + without_ue(c@.skip(i as int)) == without_ue(c@),
        decreases c@.len() - i,
    {
        let ghost rest = c@.skip(i as int);
        if c.len() - i >= 3 && c[i] == 'U' && c[i + 1] == 'E' && c[i + 2] == '_' {
            proof {
                assert(rest.skip(3) =~= c@.skip(i + 3));
            }
            i = i + 3;
        } else {
            proof {
                assert(rest.skip(1) =~= c@.skip(i + 1));
                assert(out@.push(c@[i as int]) + without_ue(rest.skip(1)) =~= out@ + (seq![rest[0]]
                    + without_ue(rest.skip(1))));
            }
            out.push(c[i]);
            i = i + 1;
        }
    }
    proof {
        assert(c@.skip(i as int) =~= Seq::<char>::empty());
        assert(out@ =~= without_ue(c@));
    }
    string_of(&out)
}

/// Whether markup escaping writes `c` as a numeric character reference:
/// the control characters other than tab, line feed, carriage return and
/// next line (U+0085).
pub open spec fn escaped_control(c: char) -> bool {
    let n = c as u32;
    ||| 0x1 <= n <= 0x8
    ||| 0xb <= n <= 0xc
    ||| 0xe <= n <= 0x1f
    ||| 0x7f <= n <= 0x84
    ||| 0x86 <= n <= 0x9f
}

/// "&#x", the code `n` (below 256) in lowercase hexadecimal without leading
/// zeros, then ";".
pub open spec fn char_reference(n: nat) -> Seq<char> {
    let digits = if n < 16 {
        seq![hex_digit(n as int)]
    } else {
        seq![hex_digit((n / 16) as int), hex_digit((n % 16) as int)]
    };
    seq!['&', '#', 'x'] + digits + seq![';']
}

/// How markup escaping writes one character: the five markup characters as
/// entities, the control characters of `escaped_control` as character
/// references, any other character as it is.
pub open spec fn escaped_char(c: char) -> Seq<char> {
    if c == '&' {
        seq!['&', 'a', 'm', 'p', ';']
    } else if c == '<' {
        seq!['&', 'l', 't', ';']
    } else if c == '>' {
        seq!['&', 'g', 't', ';']
    } else if c == '\'' {
        seq!['&', '#', '3', '9', ';']
    } else if c == '"' {
        seq!['&', 'q', 'u', 'o', 't', ';']
    } else if escaped_control(c) {
        char_reference(c as nat)
    } else {
        seq![c]
    }
}

/// A text escaped for Pango markup, character by character.
pub open spec fn markup_escaped(s: Seq<char>) -> Seq<char>
    decreases s.len(),
{
    if s.len() == 0 {
        Seq::empty()
    } else {
        markup_escaped(s.drop_last()) + escaped_char(s.last())
    }
}

/// Appends the escaped form of `c` (see `escaped_char`).
fn push_escaped(out: &mut Vec<char>, c: char)
    ensures
        final(out)@ == old(out)@ + escaped_char(c),
{
    let ghost o = out@;
    if c == '&' {
        out.push('&');
        out.push('a');
        out.push('m');
        out.push('p');
        out.push(';');
    } else if c == '<' {
        out.push('&');
        out.push('l');
        out.push('t');
        out.push(';');
    } else if c == '>' {
        out.push('&');
        out.push('g');
        out.push('t');
        out.push(';');
    } else if c == '\'' {
        out.push('&');
        out.push('#');
        out.push('3');
        out.push('9');
        out.push(';');
    } else if c == '"' {
        out.push('&');
        out.push('q');
        out.push('u');
        out.push('o');
        out.push('t');
        out.push(';');
    } else {
        let n = c as u32;
        if (0x1 <= n && n <= 0x8) || (0xb <= n && n <= 0xc) || (0xe <= n && n <= 0x1f) || (0x7f <= n
            && n <= 0x84) || (0x86 <= n && n <= 0x9f) {
            out.push('&');
            out.push('#');
            out.push('x');
            if n < 16 {
                out.push(hex_char(n as u8));
            } else {
                out.push(hex_char((n / 16) as u8));
                out.push(hex_char((n % 16) as u8));
            }
            out.push(';');
        } else {
            out.push(c);
        }
    }
    proof {
        assert(out@ =~= o + escaped_char(c));
    }
}

/// `text` escaped for Pango markup (see `markup_escaped`), so that the
/// markup parser reads it verbatim.
pub fn markup_escape(text: &str) -> (r: String)
    ensures
        r@ == markup_escaped(text@),
{
    let c = chars_of(text);
    let mut out: Vec<char> = Vec::new();
    let mut i: usize = 0;
    while i < c.len()
        invariant
            i <= c@.len(),
            out@ == markup_escaped(c@.take(i as int)),
        decreases c@.len() - i,
    {
        proof {
            assert(c@.take(i + 1).drop_last() =~= c@.take(i as int));
            assert(c@.take(i + 1).last() == c@[i as int]);
        }
        push_escaped(&mut out, c[i]);
        i = i + 1;
    }
    proof {
        assert(c@.take(c@.len() as int) =~= c@);
    }
    string_of(&out)
}

} // verus!
