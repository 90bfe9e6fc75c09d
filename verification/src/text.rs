use vstd::prelude::*;

verus! {

/// The characters of `parts` laid end to end with `sep` between
/// consecutive parts.
pub open spec fn spec_join(parts: Seq<Seq<char>>, sep: Seq<char>) -> Seq<char>
    decreases parts.len(),
{
    if parts.len() == 0 {
        Seq::empty()
    } else if parts.len() == 1 {
        parts[0]
    } else {
        parts[0] + sep + spec_join(parts.drop_first(), sep)
    }
}

fn join_from(parts: &Vec<String>, sep: &str, i: usize) -> (r: String)
    requires
        i <= parts@.len(),
    ensures
        r@ == spec_join(parts.deep_view().subrange(i as int, parts.deep_view().len() as int), sep@),
    decreases parts@.len() - i,
{
    if i >= parts.len() {
        assert(parts.deep_view().subrange(i as int, parts.deep_view().len() as int).len() == 0);
        String::new()
    } else if i == parts.len() - 1 {
        let r = parts[i].clone();
        assert(parts.deep_view().subrange(i as int, parts.deep_view().len() as int) =~= seq![
            parts.deep_view()[i as int],
        ]);
        r
    } else {
        let mut r = parts[i].clone();
        r.append(sep);
        let rest = join_from(parts, sep, i + 1);
        r.append(rest.as_str());
        proof {
            let whole = parts.deep_view().subrange(i as int, parts.deep_view().len() as int);
            assert(whole.drop_first() =~= parts.deep_view().subrange(
                i + 1,
                parts.deep_view().len() as int,
            ));
            assert(whole[0] == parts.deep_view()[i as int]);
        }
        r
    }
}

/// Concatenates the strings of `parts`, separated by `sep`.
pub fn join_strings(parts: &Vec<String>, sep: &str) -> (r: String)
    ensures
        r@ == spec_join(parts.deep_view(), sep@),
{
    let r = join_from(parts, sep, 0);
    proof {
        assert(parts.deep_view().subrange(0, parts.deep_view().len() as int) =~= parts.deep_view());
    }
    r
}

/// `s` with every underscore replaced by a hyphen.
pub open spec fn spec_dashed(s: Seq<char>) -> Seq<char> {
    s.map_values(|c: char| if c == '_' { '-' } else { c })
}

/// Replaces every underscore in `s` by a hyphen.
pub fn dash_underscores(s: &str) -> (r: String)
    ensures
        r@ == spec_dashed(s@),
{
    let n = s.unicode_len();
    let mut r = String::new();
    let mut i: usize = 0;
    while i < n
        invariant
            n == s@.len(),
            i <= n,
            r@ == spec_dashed(s@.subrange(0, i as int)),
        decreases n - i,
    {
        let c = s.get_char(i);
        if c == '_' {
            r.append("-");
        } else {
            let piece = s.substring_char(i, i + 1);
            r.append(piece);
        }
        proof {
            reveal_strlit("-");
            assert(spec_dashed(s@.subrange(0, i + 1)) =~= spec_dashed(
                s@.subrange(0, i as int),
            ).push(if s@[i as int] == '_' { '-' } else { s@[i as int] }));
            assert(s@.subrange(i as int, i + 1) =~= seq![s@[i as int]]);
        }
        i = i + 1;
    }
    proof {
        assert(s@.subrange(0, n as int) =~= s@);
    }
    r
}

/// The decimal digit `d` as a character; `d` must lie below ten.
pub open spec fn spec_digit(d: nat) -> char {
    if d == 0 {
        '0'
    } else if d == 1 {
        '1'
    } else if d == 2 {
        '2'
    } else if d == 3 {
        '3'
    } else if d == 4 {
        '4'
    } else if d == 5 {
        '5'
    } else if d == 6 {
        '6'
    } else if d == 7 {
        '7'
    } else if d == 8 {
        '8'
    } else {
        '9'
    }
}

/// The usual decimal rendering of `n`, without leading zeros.
pub open spec fn spec_decimal(n: nat) -> Seq<char>
    decreases n,
{
    if n < 10 {
        seq![spec_digit(n)]
    } else {
        spec_decimal(n / 10).push(spec_digit(n % 10))
    }
}

fn digit_str(d: u32) -> (r: &'static str)
    requires
        d < 10,
    ensures
        r@ == seq![spec_digit(d as nat)],
{
    proof {
        reveal_strlit("0");
        reveal_strlit("1");
        reveal_strlit("2");
        reveal_strlit("3");
        reveal_strlit("4");
        reveal_strlit("5");
        reveal_strlit("6");
        reveal_strlit("7");
        reveal_strlit("8");
        reveal_strlit("9");
    }
    let r = if d == 0 {
        "0"
    } else if d == 1 {
        "1"
    } else if d == 2 {
        "2"
    } else if d == 3 {
        "3"
    } else if d == 4 {
        "4"
    } else if d == 5 {
        "5"
    } else if d == 6 {
        "6"
    } else if d == 7 {
        "7"
    } else {
        "8"
    };
    let r = if d == 9 {
        "9"
    } else {
        r
    };
    assert(r@ =~= seq![spec_digit(d as nat)]);
    r
}

/// Renders `n` in decimal.
pub fn u32_string(n: u32) -> (r: String)
    ensures
        r@ == spec_decimal(n as nat),
    decreases n,
{
    if n < 10 {
        let d = digit_str(n);
        String::from_str(d)
    } else {
        let mut r = u32_string(n / 10);
        let d = digit_str(n % 10);
        r.append(d);
        r
    }
}

/// The decimal rendering of a signed value: a minus sign before the
/// magnitude when it is negative.
pub open spec fn spec_decimal_i32(n: int) -> Seq<char> {
    if n >= 0 {
        spec_decimal(n as nat)
    } else {
        seq!['-'] + spec_decimal((-n) as nat)
    }
}

/// Renders `n` in decimal, with a minus sign when negative.
pub fn i32_string(n: i32) -> (r: String)
    ensures
        r@ == spec_decimal_i32(n as int),
{
    if n >= 0 {
        u32_string(n as u32)
    } else {
        proof {
            reveal_strlit("-");
        }
        let wide: i64 = n as i64;
        let mag: i64 = -wide;
        let mut r = String::from_str("-");
        let digits = u32_string(mag as u32);
        r.append(digits.as_str());
        proof {
            assert(r@ =~= spec_decimal_i32(n as int));
        }
        r
    }
}

/// The characters of `s` before the first occurrence of `c`; all of `s`
/// when `c` does not occur.
pub open spec fn spec_before_char(s: Seq<char>, c: char) -> Seq<char>
    decreases s.len(),
{
    if s.len() == 0 {
        s
    } else if s[0] == c {
        Seq::empty()
    } else {
        seq![s[0]] + spec_before_char(s.drop_first(), c)
    }
}

fn before_char_from(s: &str, i: usize, n: usize, c: char) -> (r: String)
    requires
        n == s@.len(),
        i <= n,
    ensures
        r@ == spec_before_char(s@.subrange(i as int, n as int), c),
    decreases n - i,
{
    let ghost suffix = s@.subrange(i as int, n as int);
    if i >= n {
        String::new()
    } else {
        let ch = s.get_char(i);
        proof {
            assert(suffix[0] == s@[i as int]);
            assert(suffix.drop_first() =~= s@.subrange(i + 1, n as int));
        }
        if ch == c {
            String::new()
        } else {
            let mut r = String::from_str(s.substring_char(i, i + 1));
            let rest = before_char_from(s, i + 1, n, c);
            r.append(rest.as_str());
            proof {
                assert(s@.subrange(i as int, i + 1) =~= seq![s@[i as int]]);
            }
            r
        }
    }
}

/// The prefix of `s` before the first occurrence of `c`.
pub fn before_char(s: &str, c: char) -> (r: String)
    ensures
        r@ == spec_before_char(s@, c),
{
    let n = s.unicode_len();
    let r = before_char_from(s, 0, n, c);
    proof {
        assert(s@.subrange(0, n as int) =~= s@);
    }
    r
}

/// Compares a `String` against a string slice by their characters.
pub fn string_eq_str(a: &String, b: &str) -> (r: bool)
    ensures
        r == (a@ == b@),
{
    let bs = b.to_owned();
    *a == bs
}

/// Compares two `String`s by their characters.
pub fn string_eq_string(a: &String, b: &String) -> (r: bool)
    ensures
        r == (a@ == b@),
{
    *a == *b
}

/// `needle` occurs as a contiguous run of characters somewhere in `hay`.
pub open spec fn spec_contains_seq(hay: Seq<char>, needle: Seq<char>) -> bool {
    exists|i: int|
        0 <= i && i + needle.len() <= hay.len() && #[trigger] hay.subrange(i, i + needle.len())
            == needle
}

fn matches_at(hay: &str, needle: &str, i: usize, hay_len: usize, needle_len: usize) -> (r: bool)
    requires
        hay_len == hay@.len(),
        needle_len == needle@.len(),
        i + needle_len <= hay_len,
    ensures
        r == (hay@.subrange(i as int, i + needle@.len()) == needle@),
{
    let mut j: usize = 0;
    while j < needle_len
        invariant
            hay_len == hay@.len(),
            needle_len == needle@.len(),
            i + needle_len <= hay_len,
            j <= needle_len,
            forall|k: int| 0 <= k < j ==> hay@[i + k] == needle@[k],
        decreases needle_len - j,
    {
        if hay.get_char(i + j) != needle.get_char(j) {
            assert(hay@.subrange(i as int, i + needle@.len())[j as int] != needle@[j as int]);
            return false;
        }
        j = j + 1;
    }
    assert(hay@.subrange(i as int, i + needle@.len()) =~= needle@);
    true
}

/// Whether `needle` occurs anywhere in `hay`.
pub fn contains_str(hay: &str, needle: &str) -> (r: bool)
    ensures
        r == spec_contains_seq(hay@, needle@),
{
    let hay_len = hay.unicode_len();
    let needle_len = needle.unicode_len();
    if needle_len > hay_len {
        return false;
    }
    if needle_len == 0 {
        assert(hay@.subrange(0, 0 + needle@.len() as int) =~= needle@);
        return true;
    }
    let mut i: usize = 0;
    while i <= hay_len - needle_len
        invariant
            hay_len == hay@.len(),
            needle_len == needle@.len(),
            0 < needle_len <= hay_len,
            i <= hay_len - needle_len + 1,
            forall|k: int|
                0 <= k < i ==> #[trigger] hay@.subrange(k, k + needle@.len()) != needle@,
        decreases hay_len - i,
    {
        if matches_at(hay, needle, i, hay_len, needle_len) {
            return true;
        }
        i = i + 1;
    }
    false
}

} // verus!
