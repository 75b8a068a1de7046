//! Detected languages and their colours. A language carries its display
//! name and an optional RGB colour. Colours arrive in two textual forms:
//! a `#rrggbb` hex string on a freshly detected language, and — in recipes
//! stored by the oldest schema — a name wrapped in a terminal truecolor
//! escape, which migration parses back into the structured form.

use vstd::prelude::*;

verus! {

/// A detected language: its name and an optional RGB colour.
#[derive(Clone, Debug, PartialEq, Eq)]
pub struct Language {
    pub name: String,
    pub colour: Option<(u8, u8, u8)>,
}

/// `c` is a decimal digit.
pub open spec fn is_digit(c: char) -> bool {
    ('0' as u32) <= (c as u32) && (c as u32) <= ('9' as u32)
}

/// The value of a decimal digit.
pub open spec fn digit_val(c: char) -> int {
    (c as u32) - ('0' as u32)
}

/// `c` is a lower-case or upper-case hexadecimal digit.
pub open spec fn is_hex_digit(c: char) -> bool {
    is_digit(c) || (('a' as u32) <= (c as u32) && (c as u32) <= ('f' as u32)) || (('A' as u32) <= (
    c as u32) && (c as u32) <= ('F' as u32))
}

/// The value of a hexadecimal digit.
pub open spec fn hex_val(c: char) -> int {
    if is_digit(c) {
        digit_val(c)
    } else if ('a' as u32) <= (c as u32) && (c as u32) <= ('f' as u32) {
        (c as u32) - ('a' as u32) + 10
    } else {
        (c as u32) - ('A' as u32) + 10
    }
}

/// The number of consecutive decimal digits in `s` starting at `i`.
pub open spec fn digit_run_len(s: Seq<char>, i: int) -> int
    decreases s.len() - i,
{
    if i < 0 || i >= s.len() || !is_digit(s[i]) {
        0
    } else {
        1 + digit_run_len(s, i + 1)
    }
}

/// The value of the `l` digits of `s` starting at `i`, most significant
/// first.
pub open spec fn run_val(s: Seq<char>, i: int, l: int) -> int
    decreases l,
{
    if l <= 0 {
        0
    } else {
        run_val(s, i, l - 1) * 10 + digit_val(s[i + l - 1])
    }
}

/// A sequence of `k` digits at `i`, ended by the end of the text or a
/// non-digit, is exactly the digit run at `i`.
proof fn lemma_digit_run_len(s: Seq<char>, i: int, k: int)
    requires
        0 <= i,
        i + k <= s.len(),
        0 <= k,
        forall|x: int| i <= x < i + k ==> is_digit(s[x]),
        i + k == s.len() || !is_digit(s[i + k]),
    ensures
        digit_run_len(s, i) == k,
    decreases k,
{
    if k > 0 {
        lemma_digit_run_len(s, i + 1, k - 1);
    }
}

/// The position right after the second semicolon of the colour escape's
/// fixed prefix.
pub open spec fn esc_pfx_ok(s: Seq<char>) -> bool {
    s.len() > 7 && s[0] == '\u{1b}' && s[1] == '[' && s[2] == '3' && s[3] == '8' && s[4] == ';'
        && s[5] == '2' && s[6] == ';'
}

/// The text is a name wrapped in a terminal truecolor escape:
/// `ESC[38;2;R;G;Bm … ESC[0m`, with one to three digits per channel and
/// each channel value at most 255.
pub open spec fn spec_coloured(s: Seq<char>) -> bool {
    let l1 = digit_run_len(s, 7);
    let p1 = 7 + l1;
    let l2 = digit_run_len(s, p1 + 1);
    let p2 = p1 + 1 + l2;
    let l3 = digit_run_len(s, p2 + 1);
    let p3 = p2 + 1 + l3;
    esc_pfx_ok(s) && 1 <= l1 <= 3 && p1 < s.len() && s[p1] == ';' && 1 <= l2 <= 3 && p2 < s.len()
        && s[p2] == ';' && 1 <= l3 <= 3 && p3 < s.len() && s[p3] == 'm' && run_val(s, 7, l1) <= 255
        && run_val(s, p1 + 1, l2) <= 255 && run_val(s, p2 + 1, l3) <= 255 && p3 + 5 <= s.len()
        && s[s.len() - 4] == '\u{1b}' && s[s.len() - 3] == '[' && s[s.len() - 2] == '0' && s[s.len()
        - 1] == 'm'
}

/// The red channel of a coloured text.
pub open spec fn spec_coloured_r(s: Seq<char>) -> int {
    run_val(s, 7, digit_run_len(s, 7))
}

/// The green channel of a coloured text.
pub open spec fn spec_coloured_g(s: Seq<char>) -> int {
    let p1 = 7 + digit_run_len(s, 7);
    run_val(s, p1 + 1, digit_run_len(s, p1 + 1))
}

/// The blue channel of a coloured text.
pub open spec fn spec_coloured_b(s: Seq<char>) -> int {
    let p1 = 7 + digit_run_len(s, 7);
    let p2 = p1 + 1 + digit_run_len(s, p1 + 1);
    run_val(s, p2 + 1, digit_run_len(s, p2 + 1))
}

/// The name inside a coloured text: everything between the escape prefix
/// and the closing `ESC[0m`.
pub open spec fn spec_coloured_name(s: Seq<char>) -> Seq<char> {
    let p1 = 7 + digit_run_len(s, 7);
    let p2 = p1 + 1 + digit_run_len(s, p1 + 1);
    let p3 = p2 + 1 + digit_run_len(s, p2 + 1);
    s.subrange(p3 + 1, s.len() - 4)
}

/// Counts the decimal digits of `s` from position `i` on.
fn count_digits(s: &str, i: usize) -> (l: usize)
    requires
        i <= s@.len(),
    ensures
        l == digit_run_len(s@, i as int),
        i + l <= s@.len(),
        forall|x: int| i <= x < i + l ==> is_digit(s@[x]),
{
    let n = s.unicode_len();
    let mut k: usize = 0;
    let mut done = false;
    while !done
        invariant
            n == s@.len(),
            i + k <= n,
            forall|x: int| i <= x < i + k ==> is_digit(s@[x]),
            done ==> i + k == n || !is_digit(s@[i + k]),
        decreases n - i - k + (if done {
            0int
        } else {
            1int
        }),
    {
        if i + k < n {
            let c = s.get_char(i + k);
            if '0' <= c && c <= '9' {
                k += 1;
            } else {
                done = true;
            }
        } else {
            done = true;
        }
    }
    proof {
        lemma_digit_run_len(s@, i as int, k as int);
    }
    k
}

/// Reads the value of the `l` digits of `s` starting at `i`.
fn read_run(s: &str, i: usize, l: usize) -> (v: u32)
    requires
        i + l <= s@.len(),
        i + l <= usize::MAX,
        l <= 3,
        forall|x: int| i <= x < i + l ==> is_digit(s@[x]),
    ensures
        v == run_val(s@, i as int, l as int),
{
    let mut v: u32 = 0;
    let mut k: usize = 0;
    while k < l
        invariant
            i + l <= s@.len(),
            i + l <= usize::MAX,
            l <= 3,
            k <= l,
            forall|x: int| i <= x < i + l ==> is_digit(s@[x]),
            v == run_val(s@, i as int, k as int),
            v <= (if k == 0 { 0int } else if k == 1 { 9int } else if k == 2 { 99int } else { 999int }),
        decreases l - k,
    {
        let c = s.get_char(i + k);
        v = v * 10 + (c as u32 - '0' as u32);
        k += 1;
    }
    v
}

impl Language {
    /// A language as the oldest schema stored it: either a bare name, or a
    /// name wrapped in a terminal truecolor escape carrying its colour.
    /// The escape form is parsed back into name and colour; anything else
    /// is taken verbatim as an uncoloured name.
    pub fn from_stored(value: &str) -> (r: Language)
        ensures
            spec_coloured(value@) ==> r.name@ == spec_coloured_name(value@) && (r.colour
                matches Some(c) && c.0 == spec_coloured_r(value@) && c.1 == spec_coloured_g(value@)
                && c.2 == spec_coloured_b(value@)),
            !spec_coloured(value@) ==> r.name@ == value@ && r.colour is None,
    {
        let n = value.unicode_len();
        if n <= 7 {
            return Language { name: value.to_owned(), colour: None };
        }
        if value.get_char(0) != '\u{1b}' || value.get_char(1) != '[' || value.get_char(2) != '3'
            || value.get_char(3) != '8' || value.get_char(4) != ';' || value.get_char(5) != '2'
            || value.get_char(6) != ';' {
            return Language { name: value.to_owned(), colour: None };
        }
        let l1 = count_digits(value, 7);
        let p1 = 7 + l1;
        if !(1 <= l1 && l1 <= 3) || p1 >= n || value.get_char(p1) != ';' {
            return Language { name: value.to_owned(), colour: None };
        }
        let l2 = count_digits(value, p1 + 1);
        let p2 = p1 + 1 + l2;
        if !(1 <= l2 && l2 <= 3) || p2 >= n || value.get_char(p2) != ';' {
            return Language { name: value.to_owned(), colour: None };
        }
        let l3 = count_digits(value, p2 + 1);
        let p3 = p2 + 1 + l3;
        if !(1 <= l3 && l3 <= 3) || p3 >= n || value.get_char(p3) != 'm' {
            return Language { name: value.to_owned(), colour: None };
        }
        let r = read_run(value, 7, l1);
        let g = read_run(value, p1 + 1, l2);
        let b = read_run(value, p2 + 1, l3);
        if r > 255 || g > 255 || b > 255 {
            return Language { name: value.to_owned(), colour: None };
        }
        if p3 + 5 > n || value.get_char(n - 4) != '\u{1b}' || value.get_char(n - 3) != '['
            || value.get_char(n - 2) != '0' || value.get_char(n - 1) != 'm' {
            return Language { name: value.to_owned(), colour: None };
        }
        let name = value.substring_char(p3 + 1, n - 4).to_owned();
        assert(name@ =~= spec_coloured_name(value@));
        Language { name, colour: Some((r as u8, g as u8, b as u8)) }
    }

    /// A freshly detected language: the name, and the colour parsed from a
    /// `#rrggbb` hex string when one is given and well-formed.
    pub fn from_detected(name: String, colour: Option<String>) -> (r: Language)
        ensures
            r.name == name,
            colour is None ==> r.colour is None,
            colour matches Some(h) ==> ((spec_hex_colour(h@) ==> (r.colour matches Some(c) && c.0
                == 16 * hex_val(h@[1]) + hex_val(h@[2]) && c.1 == 16 * hex_val(h@[3]) + hex_val(
                h@[4],
            ) && c.2 == 16 * hex_val(h@[5]) + hex_val(h@[6]))) && (!spec_hex_colour(h@)
                ==> r.colour is None)),
    {
        match colour {
            None => Language { name, colour: None },
            Some(h) => {
                let n = h.as_str().unicode_len();
                if n < 7 {
                    return Language { name, colour: None };
                }
                let mut ok = true;
                let mut k: usize = 1;
                while k < 7
                    invariant
                        1 <= k <= 7,
                        n == h@.len(),
                        7 <= n,
                        ok == (forall|x: int| 1 <= x < k ==> is_hex_digit(h@[x])),
                    decreases 7 - k,
                {
                    let c = h.as_str().get_char(k);
                    let d = ('0' <= c && c <= '9') || ('a' <= c && c <= 'f') || ('A' <= c && c
                        <= 'F');
                    ok = ok && d;
                    k += 1;
                }
                if !ok {
                    return Language { name, colour: None };
                }
                let r = hex_pair(h.as_str(), 1);
                let g = hex_pair(h.as_str(), 3);
                let b = hex_pair(h.as_str(), 5);
                Language { name, colour: Some((r, g, b)) }
            },
        }
    }
}

/// A hex colour string: at least seven characters with six hex digits after
/// the leading marker.
pub open spec fn spec_hex_colour(h: Seq<char>) -> bool {
    h.len() >= 7 && (forall|x: int| 1 <= x < 7 ==> is_hex_digit(h[x]))
}

/// Reads the byte written as two hex digits at position `i`.
fn hex_pair(s: &str, i: usize) -> (v: u8)
    requires
        i + 2 <= s@.len(),
        i + 2 <= usize::MAX,
        is_hex_digit(s@[i as int]),
        is_hex_digit(s@[i as int + 1]),
    ensures
        v == 16 * hex_val(s@[i as int]) + hex_val(s@[i as int + 1]),
{
    let hi = hex_digit(s.get_char(i));
    let lo = hex_digit(s.get_char(i + 1));
    16 * hi + lo
}

/// The value of one hex digit.
fn hex_digit(c: char) -> (v: u8)
    requires
        is_hex_digit(c),
    ensures
        v == hex_val(c),
{
    if '0' <= c && c <= '9' {
        (c as u32 - '0' as u32) as u8
    } else if 'a' <= c && c <= 'f' {
        (c as u32 - 'a' as u32 + 10) as u8
    } else {
        (c as u32 - 'A' as u32 + 10) as u8
    }
}

} // verus!
