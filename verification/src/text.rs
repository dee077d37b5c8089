//! Character-level helpers on strings: equality, substring search, splitting
//! at a character, decimal integer parsing and case mapping.
use vstd::prelude::*;
use vstd::string::*;

verus! {

/// Whether every character is in the ASCII range.
pub open spec fn ascii_only(s: Seq<char>) -> bool {
    forall|i: int| 0 <= i < s.len() ==> (#[trigger] s[i] as u32) < 128
}

/// ASCII lower-casing of one character.
pub open spec fn ascii_lower_char(c: char) -> char {
    if 'A' <= c && c <= 'Z' {
        ((c as u32) + 32) as char
    } else {
        c
    }
}

/// ASCII upper-casing of one character.
pub open spec fn ascii_upper_char(c: char) -> char {
    if 'a' <= c && c <= 'z' {
        ((c as u32) - 32) as char
    } else {
        c
    }
}

/// ASCII lower-casing of a character sequence.
pub open spec fn ascii_lower(s: Seq<char>) -> Seq<char> {
    s.map_values(|c: char| ascii_lower_char(c))
}

/// ASCII upper-casing of a character sequence.
pub open spec fn ascii_upper(s: Seq<char>) -> Seq<char> {
    s.map_values(|c: char| ascii_upper_char(c))
}

/// What `str::to_lowercase` gives for a character sequence (full Unicode mapping).
pub uninterp spec fn lowercase(s: Seq<char>) -> Seq<char>;

/// What `str::to_uppercase` gives for a character sequence (full Unicode mapping).
pub uninterp spec fn uppercase(s: Seq<char>) -> Seq<char>;

/// Calls `str::to_lowercase`.  The result is named `lowercase(s@)`; on ASCII
/// input the standard library documents the mapping as the ASCII one.
#[verifier::external_body]
pub(crate) fn to_lowercase(s: &str) -> (res: String)
    ensures
        res@ == lowercase(s@),
        ascii_only(s@) ==> res@ == ascii_lower(s@),
{
    s.to_lowercase()
}

/// Calls `str::to_uppercase`.  The result is named `uppercase(s@)`; on ASCII
/// input the standard library documents the mapping as the ASCII one.
#[verifier::external_body]
pub(crate) fn to_uppercase(s: &str) -> (res: String)
    ensures
        res@ == uppercase(s@),
        ascii_only(s@) ==> res@ == ascii_upper(s@),
{
    s.to_uppercase()
}

/// The characters of `s`, in order.
pub fn chars_of(s: &str) -> (res: Vec<char>)
    ensures
        res@ == s@,
{
    let n = s.unicode_len();
    let mut v: Vec<char> = Vec::new();
    let mut i: usize = 0;
    while i < n
        invariant
            n == s@.len(),
            i <= n,
            v@ == s@.subrange(0, i as int),
        decreases n - i,
    {
        v.push(s.get_char(i));
        i += 1;
        assert(v@ =~= s@.subrange(0, i as int));
    }
    assert(v@ =~= s@);
    v
}

/// Character-wise equality of two string slices.
pub fn str_eq(a: &str, b: &str) -> (res: bool)
    ensures
        res == (a@ == b@),
{
    let x = chars_of(a);
    let y = chars_of(b);
    if x.len() != y.len() {
        return false;
    }
    let mut i: usize = 0;
    while i < x.len()
        invariant
            x@ == a@,
            y@ == b@,
            x@.len() == y@.len(),
            i <= x@.len(),
            forall|j: int| 0 <= j < i ==> x@[j] == y@[j],
        decreases x@.len() - i,
    {
        if x[i] != y[i] {
            return false;
        }
        i += 1;
    }
    assert(x@ =~= y@);
    true
}

/// `needle` occurs in `hay` starting at position `i`.
pub open spec fn occurs_at(hay: Seq<char>, needle: Seq<char>, i: int) -> bool {
    0 <= i && i + needle.len() <= hay.len() && hay.subrange(i, i + needle.len()) == needle
}

/// `needle` is a contiguous part of `hay` (what `str::contains` with a `&str` tests).
pub open spec fn contains_seq(hay: Seq<char>, needle: Seq<char>) -> bool {
    exists|i: int| occurs_at(hay, needle, i)
}

fn matches_at(h: &Vec<char>, n: &Vec<char>, i: usize) -> (res: bool)
    requires
        i + n@.len() <= h@.len(),
    ensures
        res == occurs_at(h@, n@, i as int),
{
    let mut j: usize = 0;
    while j < n.len()
        invariant
            i + n.len() <= h.len(),
            j <= n@.len(),
            forall|k: int| 0 <= k < j ==> h@[i + k] == n@[k],
        decreases n@.len() - j,
    {
        if h[i + j] != n[j] {
            assert(h@.subrange(i as int, i + n@.len())[j as int] != n@[j as int]);
            return false;
        }
        j += 1;
    }
    assert(h@.subrange(i as int, i + n@.len()) =~= n@);
    true
}

/// Substring test, as `str::contains` with a string pattern.
pub fn contains(hay: &str, needle: &str) -> (res: bool)
    ensures
        res == contains_seq(hay@, needle@),
{
    let h = chars_of(hay);
    let n = chars_of(needle);
    if n.len() > h.len() {
        assert forall|i: int| !occurs_at(hay@, needle@, i) by {}
        return false;
    }
    let last = h.len() - n.len();
    let mut i: usize = 0;
    loop
        invariant
            h@ == hay@,
            n@ == needle@,
            last == h@.len() - n@.len(),
            i <= last,
            forall|k: int| 0 <= k < i ==> !occurs_at(hay@, needle@, k),
        ensures
            forall|k: int| 0 <= k <= last ==> !occurs_at(hay@, needle@, k),
        decreases last - i,
    {
        if matches_at(&h, &n, i) {
            return true;
        }
        if i == last {
            break;
        }
        i += 1;
    }
    assert forall|k: int| !occurs_at(hay@, needle@, k) by {}
    false
}

/// The unique position of `c` in `s`, where `c` occurs exactly once.
pub open spec fn single_split(s: Seq<char>, c: char, k: int) -> bool {
    &&& 0 <= k < s.len()
    &&& s[k] == c
    &&& forall|j: int| 0 <= j < s.len() && j != k ==> s[j] != c
}

/// Splits `s` at its only occurrence of `sep`: `Some((before, after))` where `sep`
/// occurs exactly once (what `split(sep)` yielding two pieces means), else `None`.
pub fn split_once_exact(s: &str, sep: char) -> (res: Option<(String, String)>)
    ensures
        match res {
            Some((a, b)) => exists|k: int|
                #![trigger s@[k]]
                single_split(s@, sep, k) && a@ == s@.subrange(0, k) && b@ == s@.subrange(
                    k + 1,
                    s@.len() as int,
                ),
            None => !(exists|k: int| single_split(s@, sep, k)),
        },
{
    let cs = chars_of(s);
    let mut pos: Option<usize> = None;
    let mut twice = false;
    let mut i: usize = 0;
    while i < cs.len()
        invariant
            cs@ == s@,
            i <= cs@.len(),
            !twice ==> match pos {
                Some(k) => k < i && cs@[k as int] == sep && forall|j: int|
                    0 <= j < i && j != k ==> cs@[j] != sep,
                None => forall|j: int| 0 <= j < i ==> cs@[j] != sep,
            },
            twice ==> exists|a: int, b: int|
                0 <= a < b < cs@.len() && cs@[a] == sep && cs@[b] == sep,
        decreases cs@.len() - i,
    {
        if cs[i] == sep {
            match pos {
                Some(k) => {
                    if !twice {
                        assert(cs@[k as int] == sep && cs@[i as int] == sep);
                    }
                    twice = true;
                },
                None => {
                    if !twice {
                        pos = Some(i);
                    }
                },
            }
        }
        i += 1;
    }
    if twice {
        assert forall|k: int| !single_split(s@, sep, k) by {
            let (a, b) = choose|a: int, b: int|
                0 <= a < b < cs@.len() && cs@[a] == sep && cs@[b] == sep;
            if single_split(s@, sep, k) {
                assert(a == k && b == k);
            }
        }
        return None;
    }
    match pos {
        None => {
            assert forall|k: int| !single_split(s@, sep, k) by {}
            None
        },
        Some(k) => {
            let a = s.substring_char(0, k);
            let b = s.substring_char(k + 1, cs.len());
            let before = String::from_str(a);
            let after = String::from_str(b);
            assert(single_split(s@, sep, k as int));
            Some((before, after))
        },
    }
}

/// Whether `c` is an ASCII decimal digit.
pub open spec fn is_digit(c: char) -> bool {
    '0' <= c && c <= '9'
}

/// Decimal value of a sequence of digits.
pub open spec fn digits_value(s: Seq<char>) -> int
    decreases s.len(),
{
    if s.len() == 0 {
        0
    } else {
        digits_value(s.drop_last()) * 10 + ((s.last() as int) - ('0' as int))
    }
}

/// Every character is a decimal digit.
pub open spec fn all_digits(s: Seq<char>) -> bool {
    forall|i: int| 0 <= i < s.len() ==> is_digit(#[trigger] s[i])
}

/// The part of `s` after an optional leading sign.
pub open spec fn unsigned_part(s: Seq<char>) -> Seq<char> {
    if s.len() > 0 && (s[0] == '-' || s[0] == '+') {
        s.drop_first()
    } else {
        s
    }
}

/// What `str::parse::<i32>` accepts and gives: an optional `+` or `-` sign
/// followed by at least one decimal digit, with a value in range.
pub open spec fn spec_parse_i32(s: Seq<char>) -> Option<i32> {
    let neg = s.len() > 0 && s[0] == '-';
    let body = unsigned_part(s);
    let v = if neg {
        -digits_value(body)
    } else {
        digits_value(body)
    };
    if body.len() == 0 || !all_digits(body) {
        None
    } else if i32::MIN <= v <= i32::MAX {
        Some(v as i32)
    } else {
        None
    }
}

proof fn lemma_digits_nonneg(s: Seq<char>)
    requires
        forall|i: int| 0 <= i < s.len() ==> is_digit(#[trigger] s[i]),
    ensures
        digits_value(s) >= 0,
    decreases s.len(),
{
    if s.len() > 0 {
        lemma_digits_nonneg(s.drop_last());
    }
}

proof fn lemma_digits_mono(s: Seq<char>, i: int)
    requires
        0 <= i <= s.len(),
        forall|j: int| 0 <= j < s.len() ==> is_digit(#[trigger] s[j]),
    ensures
        digits_value(s.subrange(0, i)) <= digits_value(s),
    decreases s.len() - i,
{
    if i < s.len() {
        lemma_digits_mono(s, i + 1);
        let p = s.subrange(0, i + 1);
        assert(p.drop_last() =~= s.subrange(0, i));
        lemma_digits_nonneg(s.subrange(0, i));
    } else {
        assert(s.subrange(0, i) =~= s);
    }
}

/// Decimal parse of a signed 32-bit integer, as `str::parse::<i32>`.
pub fn parse_i32(s: &str) -> (res: Option<i32>)
    ensures
        res == spec_parse_i32(s@),
{
    let cs = chars_of(s);
    let n = cs.len();
    let mut start: usize = 0;
    let mut neg = false;
    if n > 0 && (cs[0] == '-' || cs[0] == '+') {
        start = 1;
        neg = cs[0] == '-';
    }
    let ghost body = unsigned_part(s@);
    assert(body =~= s@.subrange(start as int, n as int));
    if start == n {
        return None;
    }
    let mut acc: i64 = 0;
    let mut i: usize = start;
    while i < n
        invariant
            cs@ == s@,
            n == cs@.len(),
            start <= i <= n,
            start < n,
            body == s@.subrange(start as int, n as int),
            body == unsigned_part(s@),
            neg == (s@.len() > 0 && s@[0] == '-'),
            forall|j: int| start <= j < i ==> is_digit(#[trigger] cs@[j]),
            acc == digits_value(s@.subrange(start as int, i as int)),
            0 <= acc <= 0x8000_0000,
        decreases n - i,
    {
        let c = cs[i];
        if !('0' <= c && c <= '9') {
            assert(body[i - start] == c);
            assert(!is_digit(body[i - start]));
            return None;
        }
        let d = (c as u32 - '0' as u32) as i64;
        assert(s@.subrange(start as int, i + 1).drop_last() =~= s@.subrange(
            start as int,
            i as int,
        ));
        let next = acc * 10 + d;
        if next > 0x8000_0000 {
            // every further digit keeps the value at least this large
            let mut k: usize = i + 1;
            while k < n
                invariant
                    cs@ == s@,
                    n == cs@.len(),
                    start < i + 1 <= k <= n,
                    forall|j: int| start <= j < k ==> is_digit(#[trigger] cs@[j]),
                    digits_value(s@.subrange(start as int, i + 1)) > 0x8000_0000,
                    body == s@.subrange(start as int, n as int),
                    body == unsigned_part(s@),
                decreases n - k,
            {
                if !('0' <= cs[k] && cs[k] <= '9') {
                    assert(body[k - start] == cs@[k as int]);
                    assert(!is_digit(body[k - start]));
                    return None;
                }
                k += 1;
            }
            proof {
                assert forall|j: int| 0 <= j < body.len() implies is_digit(#[trigger] body[j]) by {
                    assert(body[j] == cs@[start + j]);
                }
                lemma_digits_mono(body, i + 1 - start);
                assert(body.subrange(0, i + 1 - start) =~= s@.subrange(start as int, i + 1));
                assert(digits_value(body) > 0x8000_0000);
            }
            return None;
        }
        acc = next;
        i += 1;
    }
    proof {
        assert forall|j: int| 0 <= j < body.len() implies is_digit(#[trigger] body[j]) by {
            assert(body[j] == cs@[start + j]);
        }
    }
    assert(acc == digits_value(body));
    if neg {
        Some((0 - acc) as i32)
    } else if acc <= 0x7fff_ffff {
        Some(acc as i32)
    } else {
        None
    }
}

} // verus!
