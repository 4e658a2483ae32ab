//! Character-level helpers shared by the parsers and renderers of the library.
//!
//! Strings are reasoned about through their character view (`Seq<char>`).

use vstd::prelude::*;

verus! {

broadcast use vstd::string::group_string_axioms;

/// Unicode `White_Space` property, as `char::is_whitespace` documents it.
pub open spec fn spec_is_whitespace(c: char) -> bool {
    let v = c as u32;
    (0x09 <= v && v <= 0x0d) || v == 0x20 || v == 0x85 || v == 0xa0 || v == 0x1680 || (0x2000
        <= v && v <= 0x200a) || v == 0x2028 || v == 0x2029 || v == 0x202f || v == 0x205f || v
        == 0x3000
}

/// Executable form of the Unicode `White_Space` test.
pub fn is_whitespace(c: char) -> (r: bool)
    ensures
        r == spec_is_whitespace(c),
{
    let v = c as u32;
    (0x09 <= v && v <= 0x0d) || v == 0x20 || v == 0x85 || v == 0xa0 || v == 0x1680 || (0x2000
        <= v && v <= 0x200a) || v == 0x2028 || v == 0x2029 || v == 0x202f || v == 0x205f || v
        == 0x3000
}

/// ASCII letters and digits.
pub open spec fn spec_is_ascii_alphanumeric(c: char) -> bool {
    ('a' <= c && c <= 'z') || ('A' <= c && c <= 'Z') || ('0' <= c && c <= '9')
}

pub fn is_ascii_alphanumeric(c: char) -> (r: bool)
    ensures
        r == spec_is_ascii_alphanumeric(c),
{
    ('a' <= c && c <= 'z') || ('A' <= c && c <= 'Z') || ('0' <= c && c <= '9')
}

/// ASCII lower-casing of one character; other characters are unchanged.
pub open spec fn spec_ascii_lower(c: char) -> char {
    if 'A' <= c && c <= 'Z' {
        ((c as u32) + 32) as char
    } else {
        c
    }
}

pub fn ascii_lower(c: char) -> (r: char)
    ensures
        r == spec_ascii_lower(c),
{
    if 'A' <= c && c <= 'Z' {
        let v: u8 = (c as u8) + 32;
        v as char
    } else {
        c
    }
}

/// ASCII lower-casing of a character sequence.
pub open spec fn spec_lower(s: Seq<char>) -> Seq<char> {
    Seq::new(s.len(), |i: int| spec_ascii_lower(s[i]))
}

pub fn lower_chars(s: &[char]) -> (r: Vec<char>)
    ensures
        r@ == spec_lower(s@),
{
    let mut r: Vec<char> = Vec::new();
    let mut i: usize = 0;
    while i < s.len()
        invariant
            i <= s@.len(),
            r@ == spec_lower(s@).take(i as int),
        decreases s@.len() - i,
    {
        r.push(ascii_lower(s[i]));
        i = i + 1;
        assert(r@ == spec_lower(s@).take(i as int));
    }
    assert(spec_lower(s@).take(s@.len() as int) == spec_lower(s@));
    r
}

/// Collects the characters of a string slice, in order.
pub fn chars_of(s: &str) -> (v: Vec<char>)
    ensures
        v@ == s@,
{
    let mut v: Vec<char> = Vec::new();
    for c in iter: s.chars()
        invariant
            v@ == iter.seq().take(iter.index() as int),
    {
        v.push(c);
    }
    v
}

/// Appends one character to a string (`String::push`).
#[verifier::external_body]
pub fn push_char(s: &mut String, c: char)
    ensures
        final(s)@ == old(s)@.push(c),
{
    s.push(c);
}

/// Appends a string slice to a string (`String::push_str`).
#[verifier::external_body]
pub fn push_str(s: &mut String, t: &str)
    ensures
        final(s)@ == old(s)@ + t@,
{
    s.push_str(t);
}

/// Builds a string holding exactly the given characters.
pub fn string_of(chars: &[char]) -> (s: String)
    ensures
        s@ == chars@,
{
    let mut s = String::new();
    let mut i: usize = 0;
    while i < chars.len()
        invariant
            i <= chars@.len(),
            s@ == chars@.take(i as int),
        decreases chars@.len() - i,
    {
        push_char(&mut s, chars[i]);
        i = i + 1;
        assert(s@ == chars@.take(i as int));
    }
    assert(chars@.take(chars@.len() as int) == chars@);
    s
}

/// Copies a string slice into an owned string.
pub fn owned(s: &str) -> (r: String)
    ensures
        r@ == s@,
{
    s.to_owned()
}

/// Concatenation of two strings into a new one.
pub fn concat2(a: &str, b: &str) -> (r: String)
    ensures
        r@ == a@ + b@,
{
    let mut r = a.to_owned();
    push_str(&mut r, b);
    r
}

/// Concatenation of three strings into a new one.
pub fn concat3(a: &str, b: &str, c: &str) -> (r: String)
    ensures
        r@ == a@ + b@ + c@,
{
    let mut r = a.to_owned();
    push_str(&mut r, b);
    push_str(&mut r, c);
    r
}

/// Character-wise equality of two sequences.
pub fn chars_eq(a: &[char], b: &[char]) -> (r: bool)
    ensures
        r == (a@ == b@),
{
    if a.len() != b.len() {
        return false;
    }
    let mut i: usize = 0;
    while i < a.len()
        invariant
            a@.len() == b@.len(),
            i <= a@.len(),
            forall|j: int| 0 <= j < i ==> a@[j] == b@[j],
        decreases a@.len() - i,
    {
        if a[i] != b[i] {
            return false;
        }
        i = i + 1;
    }
    assert(a@ =~= b@);
    true
}

/// Equality of two string slices by their characters.
pub fn str_eq(a: &str, b: &str) -> (r: bool)
    ensures
        r == (a@ == b@),
{
    let x = chars_of(a);
    let y = chars_of(b);
    chars_eq(x.as_slice(), y.as_slice())
}

/// `s` begins with `p`.
pub open spec fn spec_starts_with(s: Seq<char>, p: Seq<char>) -> bool {
    p.len() <= s.len() && s.take(p.len() as int) == p
}

pub fn starts_with(s: &[char], p: &[char]) -> (r: bool)
    ensures
        r == spec_starts_with(s@, p@),
{
    if p.len() > s.len() {
        return false;
    }
    let mut i: usize = 0;
    while i < p.len()
        invariant
            p@.len() <= s@.len(),
            i <= p@.len(),
            forall|j: int| 0 <= j < i ==> s@[j] == p@[j],
        decreases p@.len() - i,
    {
        if s[i] != p[i] {
            assert(s@.take(p@.len() as int)[i as int] != p@[i as int]);
            return false;
        }
        i = i + 1;
    }
    assert(s@.take(p@.len() as int) =~= p@);
    true
}

/// `p` occurs in `s` at position `i`.
pub open spec fn occurs_at(s: Seq<char>, p: Seq<char>, i: int) -> bool {
    0 <= i && i + p.len() <= s.len() && s.subrange(i, i + p.len()) == p
}

/// Occurrence test at one position.
pub fn matches_at(s: &[char], p: &[char], i: usize) -> (r: bool)
    ensures
        r == occurs_at(s@, p@, i as int),
{
    if i > s.len() || p.len() > s.len() - i {
        return false;
    }
    let mut j: usize = 0;
    while j < p.len()
        invariant
            i + p@.len() <= s@.len(),
            s@.len() == s.len(),
            j <= p@.len(),
            forall|k: int| 0 <= k < j ==> s@[i + k] == p@[k],
        decreases p@.len() - j,
    {
        if s[i + j] != p[j] {
            assert(s@.subrange(i as int, i + p@.len())[j as int] != p@[j as int]);
            return false;
        }
        j = j + 1;
    }
    assert(s@.subrange(i as int, i + p@.len()) =~= p@);
    true
}

/// First position at which `p` occurs in `s` (`None` for an empty needle).
pub open spec fn spec_find(s: Seq<char>, p: Seq<char>) -> Option<int> {
    if p.len() > 0 && exists|i: int| occurs_at(s, p, i) {
        Some(choose|i: int| occurs_at(s, p, i) && forall|j: int| 0 <= j < i ==> !occurs_at(s, p, j))
    } else {
        None
    }
}

/// Position of the first occurrence of a non-empty needle.
pub fn find(s: &[char], p: &[char]) -> (r: Option<usize>)
    ensures
        match r {
            Some(i) => p@.len() > 0 && occurs_at(s@, p@, i as int) && forall|j: int|
                0 <= j < i ==> !occurs_at(s@, p@, j),
            None => p@.len() == 0 || forall|j: int| !occurs_at(s@, p@, j),
        },
{
    if p.len() == 0 {
        return None;
    }
    let mut i: usize = 0;
    while i < s.len()
        invariant
            i <= s@.len(),
            p@.len() > 0,
            forall|j: int| 0 <= j < i ==> !occurs_at(s@, p@, j),
        decreases s@.len() - i,
    {
        if matches_at(s, p, i) {
            return Some(i);
        }
        i = i + 1;
    }
    assert forall|j: int| !occurs_at(s@, p@, j) by {
        if 0 <= j && j >= s@.len() {
            assert(!(j + p@.len() <= s@.len()));
        }
    }
    None
}

/// Whether the character `c` occurs in `s`.
pub fn contains_char(s: &[char], c: char) -> (r: bool)
    ensures
        r == s@.contains(c),
{
    let mut i: usize = 0;
    while i < s.len()
        invariant
            i <= s@.len(),
            forall|j: int| 0 <= j < i ==> s@[j] != c,
        decreases s@.len() - i,
    {
        if s[i] == c {
            assert(s@[i as int] == c);
            return true;
        }
        i = i + 1;
    }
    false
}

/// Number of leading whitespace characters.
pub open spec fn leading_ws(s: Seq<char>) -> nat
    decreases s.len(),
{
    if s.len() > 0 && spec_is_whitespace(s[0]) {
        1 + leading_ws(s.drop_first())
    } else {
        0
    }
}

/// Number of trailing whitespace characters.
pub open spec fn trailing_ws(s: Seq<char>) -> nat
    decreases s.len(),
{
    if s.len() > 0 && spec_is_whitespace(s.last()) {
        1 + trailing_ws(s.drop_last())
    } else {
        0
    }
}

/// `s` without its leading whitespace (`str::trim_start`).
pub open spec fn spec_trim_start(s: Seq<char>) -> Seq<char> {
    s.skip(leading_ws(s) as int)
}

/// `s` without its trailing whitespace (`str::trim_end`).
pub open spec fn spec_trim_end(s: Seq<char>) -> Seq<char> {
    s.take(s.len() - trailing_ws(s))
}

/// `s` without leading and trailing whitespace (`str::trim`).
pub open spec fn spec_trim(s: Seq<char>) -> Seq<char> {
    spec_trim_end(spec_trim_start(s))
}

proof fn lemma_leading_ws_bound(s: Seq<char>)
    ensures
        leading_ws(s) <= s.len(),
        forall|i: int| 0 <= i < leading_ws(s) ==> spec_is_whitespace(s[i]),
        leading_ws(s) < s.len() ==> !spec_is_whitespace(s[leading_ws(s) as int]),
    decreases s.len(),
{
    if s.len() > 0 && spec_is_whitespace(s[0]) {
        lemma_leading_ws_bound(s.drop_first());
        assert forall|i: int| 0 <= i < leading_ws(s) implies spec_is_whitespace(s[i]) by {
            if i > 0 {
                assert(s[i] == s.drop_first()[i - 1]);
            }
        }
    }
}

pub(crate) proof fn lemma_leading_ws_char(s: Seq<char>, k: int)
    requires
        0 <= k <= s.len(),
        forall|i: int| 0 <= i < k ==> spec_is_whitespace(s[i]),
        k == s.len() || !spec_is_whitespace(s[k]),
    ensures
        leading_ws(s) == k,
    decreases s.len(),
{
    if k > 0 {
        assert forall|i: int| 0 <= i < k - 1 implies spec_is_whitespace(s.drop_first()[i]) by {
            assert(s.drop_first()[i] == s[i + 1]);
        }
        if k - 1 < s.drop_first().len() {
            assert(s.drop_first()[k - 1] == s[k]);
        }
        lemma_leading_ws_char(s.drop_first(), k - 1);
    }
}

pub(crate) proof fn lemma_trailing_ws_char(s: Seq<char>, k: int)
    requires
        0 <= k <= s.len(),
        forall|i: int| s.len() - k <= i < s.len() ==> spec_is_whitespace(s[i]),
        k == s.len() || !spec_is_whitespace(s[s.len() - k - 1]),
    ensures
        trailing_ws(s) == k,
    decreases s.len(),
{
    if k > 0 {
        assert forall|i: int| s.drop_last().len() - (k - 1) <= i < s.drop_last().len() implies spec_is_whitespace(s.drop_last()[i]) by {
            assert(s.drop_last()[i] == s[i]);
        }
        if k - 1 < s.drop_last().len() {
            assert(s.drop_last()[s.drop_last().len() - (k - 1) - 1] == s[s.len() - k - 1]);
        }
        lemma_trailing_ws_char(s.drop_last(), k - 1);
    } else {
        if s.len() > 0 {
            assert(s.last() == s[s.len() - 1]);
        }
    }
}

/// Bounds of the trimmed part of `s`: characters `start..end`.
pub fn trim_bounds(s: &[char]) -> (r: (usize, usize))
    ensures
        r.0 <= r.1 <= s@.len(),
        r.0 == leading_ws(s@),
        s@.subrange(r.0 as int, r.1 as int) == spec_trim(s@),
        spec_trim_start(s@) == s@.subrange(r.0 as int, s@.len() as int),
        spec_trim_end(s@) == s@.subrange(0, (s@.len() - trailing_ws(s@)) as int),
{
    let mut start: usize = 0;
    while start < s.len() && is_whitespace(s[start])
        invariant
            start <= s@.len(),
            forall|i: int| 0 <= i < start ==> spec_is_whitespace(s@[i]),
        decreases s@.len() - start,
    {
        start = start + 1;
    }
    proof {
        lemma_leading_ws_char(s@, start as int);
    }
    let mut end: usize = s.len();
    while end > start && is_whitespace(s[end - 1])
        invariant
            start <= end <= s@.len(),
            forall|i: int| end <= i < s@.len() ==> spec_is_whitespace(s@[i]),
        decreases end - start,
    {
        end = end - 1;
    }
    proof {
        let t = spec_trim_start(s@);
        assert(t =~= s@.subrange(start as int, s@.len() as int));
        let k = s@.len() - end;
        assert forall|i: int| t.len() - k <= i < t.len() implies spec_is_whitespace(t[i]) by {
            assert(t[i] == s@[start + i]);
        }
        if k < t.len() {
            assert(t[t.len() - k - 1] == s@[end - 1]);
        }
        lemma_trailing_ws_char(t, k);
        assert(spec_trim(s@) =~= s@.subrange(start as int, end as int));
    }
    (start, end)
}

/// Trims leading and trailing whitespace (`str::trim`).
pub fn trim(s: &[char]) -> (r: Vec<char>)
    ensures
        r@ == spec_trim(s@),
{
    let (a, b) = trim_bounds(s);
    let mut r: Vec<char> = Vec::new();
    let mut i = a;
    while i < b
        invariant
            a <= i <= b <= s@.len(),
            r@ == s@.subrange(a as int, i as int),
        decreases b - i,
    {
        r.push(s[i]);
        i = i + 1;
        assert(r@ =~= s@.subrange(a as int, i as int));
    }
    r
}

/// Whether a string is empty once trimmed.
pub fn trim_is_empty(s: &str) -> (r: bool)
    ensures
        r == (spec_trim(s@).len() == 0),
{
    let v = chars_of(s);
    let (a, b) = trim_bounds(v.as_slice());
    a == b
}

/// Copy of a sub-range of characters.
pub fn slice_chars(s: &[char], a: usize, b: usize) -> (r: Vec<char>)
    requires
        a <= b <= s@.len(),
    ensures
        r@ == s@.subrange(a as int, b as int),
{
    let mut r: Vec<char> = Vec::new();
    let mut i = a;
    while i < b
        invariant
            a <= i <= b <= s@.len(),
            r@ == s@.subrange(a as int, i as int),
        decreases b - i,
    {
        r.push(s[i]);
        i = i + 1;
        assert(r@ =~= s@.subrange(a as int, i as int));
    }
    r
}

/// What `String::from_utf8_lossy` yields for a byte sequence.
pub uninterp spec fn utf8_lossy(bytes: Seq<u8>) -> Seq<char>;

/// `String::from_utf8_lossy`: decodes UTF-8, replacing invalid sequences. The standard
/// library documents that valid UTF-8 is returned unchanged.
#[verifier::external_body]
pub fn string_from_utf8_lossy(bytes: &[u8]) -> (r: String)
    ensures
        r@ == utf8_lossy(bytes@),
        vstd::utf8::valid_utf8(bytes@) ==> r@ == vstd::utf8::decode_utf8(bytes@),
{
    String::from_utf8_lossy(bytes).into_owned()
}

/// Value of two hexadecimal digits as `u8::from_str_radix(_, 16)` reads them: two hex
/// digits, or a `+` sign followed by one.
pub open spec fn hex_pair(a: u8, b: u8) -> Option<u8> {
    if a == 43u8 {
        byte_hex_value(b)
    } else {
        match (byte_hex_value(a), byte_hex_value(b)) {
            (Some(x), Some(y)) => Some((x * 16 + y) as u8),
            _ => None,
        }
    }
}

/// Value of one ASCII hexadecimal digit byte.
pub open spec fn byte_hex_value(c: u8) -> Option<u8> {
    if 48 <= c && c <= 57 {
        Some((c - 48) as u8)
    } else if 97 <= c && c <= 102 {
        Some((c - 87) as u8)
    } else if 65 <= c && c <= 70 {
        Some((c - 55) as u8)
    } else {
        None
    }
}

pub fn byte_hex_digit(c: u8) -> (r: Option<u8>)
    ensures
        r == byte_hex_value(c),
{
    if 48 <= c && c <= 57 {
        Some(c - 48)
    } else if 97 <= c && c <= 102 {
        Some(c - 87)
    } else if 65 <= c && c <= 70 {
        Some(c - 55)
    } else {
        None
    }
}

pub fn parse_hex_pair(a: u8, b: u8) -> (r: Option<u8>)
    ensures
        r == hex_pair(a, b),
{
    if a == 43u8 {
        byte_hex_digit(b)
    } else {
        match (byte_hex_digit(a), byte_hex_digit(b)) {
            (Some(x), Some(y)) => Some(x * 16 + y),
            _ => None,
        }
    }
}

/// Decimal digits of a natural number.
pub open spec fn decimal(n: nat) -> Seq<char>
    decreases n,
{
    if n < 10 {
        seq![digit_char(n)]
    } else {
        decimal(n / 10).push(digit_char(n % 10))
    }
}

/// The ASCII digit for a value below ten.
pub open spec fn digit_char(d: nat) -> char {
    ((d + 48) as u32) as char
}

/// Decimal rendering of an unsigned integer (`u64::to_string`).
pub fn u64_decimal(n: u64) -> (r: String)
    ensures
        r@ == decimal(n as nat),
    decreases n,
{
    if n < 10 {
        let mut s = String::new();
        let c = ((n as u8) + 48) as char;
        push_char(&mut s, c);
        assert(s@ =~= seq![digit_char(n as nat)]);
        s
    } else {
        let mut s = u64_decimal(n / 10);
        let d: u8 = (n % 10) as u8;
        let c = (d + 48) as char;
        push_char(&mut s, c);
        s
    }
}

/// Decimal rendering of a `usize`.
pub fn usize_decimal(n: usize) -> (r: String)
    ensures
        r@ == decimal(n as nat),
{
    u64_decimal(n as u64)
}

/// Value of a hexadecimal digit, case-insensitive.
pub open spec fn hex_value(c: char) -> Option<u8> {
    if '0' <= c && c <= '9' {
        Some(((c as u32) - 48) as u8)
    } else if 'a' <= c && c <= 'f' {
        Some(((c as u32) - 87) as u8)
    } else if 'A' <= c && c <= 'F' {
        Some(((c as u32) - 55) as u8)
    } else {
        None
    }
}

pub fn hex_digit_value(c: char) -> (r: Option<u8>)
    ensures
        r == hex_value(c),
{
    if '0' <= c && c <= '9' {
        Some(((c as u32) - 48) as u8)
    } else if 'a' <= c && c <= 'f' {
        Some(((c as u32) - 87) as u8)
    } else if 'A' <= c && c <= 'F' {
        Some(((c as u32) - 55) as u8)
    } else {
        None
    }
}

/// Every occurrence of a character replaced by a text (`str::replace` with a `char` pattern).
pub open spec fn replaced(s: Seq<char>, c: char, with: Seq<char>) -> Seq<char>
    decreases s.len(),
{
    if s.len() == 0 {
        Seq::empty()
    } else {
        (if s[0] == c {
            with
        } else {
            seq![s[0]]
        }) + replaced(s.drop_first(), c, with)
    }
}

proof fn lemma_replaced_snoc(s: Seq<char>, x: char, c: char, with: Seq<char>)
    ensures
        replaced(s.push(x), c, with) == replaced(s, c, with) + (if x == c {
            with
        } else {
            seq![x]
        }),
    decreases s.len(),
{
    let piece = if x == c {
        with
    } else {
        seq![x]
    };
    if s.len() == 0 {
        assert(s.push(x) =~= seq![x]);
        assert(seq![x].drop_first() =~= Seq::<char>::empty());
        assert(seq![x][0] == x);
        assert(replaced(Seq::<char>::empty(), c, with) =~= Seq::<char>::empty());
        assert(piece + Seq::<char>::empty() =~= piece);
        assert(Seq::<char>::empty() + piece =~= piece);
    } else {
        lemma_replaced_snoc(s.drop_first(), x, c, with);
        assert(s.push(x).drop_first() =~= s.drop_first().push(x));
        assert(s.push(x)[0] == s[0]);
        assert(replaced(s.push(x), c, with) =~= replaced(s, c, with) + piece);
    }
}

/// Replaces every occurrence of a character by a text.
pub fn replace_char(s: &str, c: char, with: &str) -> (r: String)
    ensures
        r@ == replaced(s@, c, with@),
{
    let chars = chars_of(s);
    let mut out = String::new();
    let mut i: usize = 0;
    while i < chars.len()
        invariant
            i <= chars@.len(),
            chars@ == s@,
            out@ == replaced(chars@.take(i as int), c, with@),
        decreases chars@.len() - i,
    {
        let x = chars[i];
        if x == c {
            push_str(&mut out, with);
        } else {
            push_char(&mut out, x);
        }
        proof {
            lemma_replaced_snoc(chars@.take(i as int), x, c, with@);
            assert(chars@.take(i as int).push(x) =~= chars@.take(i + 1));
        }
        i = i + 1;
    }
    assert(chars@.take(chars@.len() as int) =~= chars@);
    out
}

/// Every non-overlapping occurrence of a non-empty pattern, left to right, replaced by a text
/// (`str::replace`).
pub open spec fn replace_all(s: Seq<char>, p: Seq<char>, r: Seq<char>) -> Seq<char>
    decreases s.len(),
{
    if p.len() == 0 || s.len() == 0 {
        s
    } else if spec_starts_with(s, p) {
        r + replace_all(s.skip(p.len() as int), p, r)
    } else {
        seq![s[0]] + replace_all(s.drop_first(), p, r)
    }
}

/// Replaces every occurrence of a pattern by a text.
pub fn replace_text(s: &str, p: &str, r: &str) -> (out: String)
    ensures
        out@ == replace_all(s@, p@, r@),
{
    let chars = chars_of(s);
    let pattern = chars_of(p);
    if pattern.len() == 0 {
        return s.to_owned();
    }
    let mut out = String::new();
    let mut i: usize = 0;
    assert(chars@.skip(0) =~= chars@);
    assert(out@ + replace_all(chars@.skip(0), p@, r@) =~= replace_all(s@, p@, r@));
    while i < chars.len()
        invariant
            i <= chars@.len(),
            chars@ == s@,
            pattern@ == p@,
            p@.len() > 0,
            out@ + replace_all(chars@.skip(i as int), p@, r@) == replace_all(s@, p@, r@),
        decreases chars@.len() - i,
    {
        let ghost rest = chars@.skip(i as int);
        if matches_at(chars.as_slice(), pattern.as_slice(), i) {
            assert(spec_starts_with(rest, p@)) by {
                assert(rest.take(p@.len() as int) =~= chars@.subrange(i as int, i + p@.len()));
            }
            assert(rest.skip(p@.len() as int) =~= chars@.skip(i + p@.len()));
            let ghost before = out@;
            push_str(&mut out, r);
            assert(before + (r@ + replace_all(rest.skip(p@.len() as int), p@, r@)) =~= out@
                + replace_all(chars@.skip(i + p@.len()), p@, r@));
            i = i + pattern.len();
        } else {
            assert(!spec_starts_with(rest, p@)) by {
                if spec_starts_with(rest, p@) {
                    assert(chars@.subrange(i as int, i + p@.len()) =~= rest.take(p@.len() as int));
                }
            }
            assert(rest.drop_first() =~= chars@.skip(i + 1));
            let ghost before = out@;
            push_char(&mut out, chars[i]);
            assert(before + (seq![rest[0]] + replace_all(rest.drop_first(), p@, r@)) =~= out@
                + replace_all(chars@.skip(i + 1), p@, r@));
            i = i + 1;
        }
    }
    assert(chars@.skip(i as int) =~= Seq::<char>::empty());
    assert(out@ + Seq::<char>::empty() =~= out@);
    out
}

} // verus!
