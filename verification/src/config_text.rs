//! Source positions in configuration text: where each key is assigned, and the line and
//! column of a byte offset.

use vstd::prelude::*;

use vstd::string::StringSliceAdditionalSpecFns;

use crate::strmap::StrMap;
use crate::text::{
    chars_of, is_whitespace, leading_ws, push_char, spec_is_whitespace, spec_starts_with,
    spec_trim, spec_trim_start, starts_with, string_of, trim,
};

verus! {

broadcast use vstd::string::group_string_axioms;

/// `s` without one trailing carriage return.
pub open spec fn strip_cr(s: Seq<char>) -> Seq<char> {
    if s.len() > 0 && s.last() == '\r' {
        s.drop_last()
    } else {
        s
    }
}

/// Scanning a text: the lines completed so far and the line being read.
pub open spec fn lines_scan(t: Seq<char>) -> (Seq<Seq<char>>, Seq<char>)
    decreases t.len(),
{
    if t.len() == 0 {
        (Seq::empty(), Seq::empty())
    } else {
        let prev = lines_scan(t.drop_last());
        if t.last() == '\n' {
            (prev.0.push(strip_cr(prev.1)), Seq::empty())
        } else {
            (prev.0, prev.1.push(t.last()))
        }
    }
}

/// The lines of a text as `str::lines` gives them: split at each `\n`, a `\r` before it
/// dropped, and no empty line after a final `\n`.
pub open spec fn text_lines(t: Seq<char>) -> Seq<Seq<char>> {
    let s = lines_scan(t);
    if s.1.len() > 0 {
        s.0.push(s.1)
    } else {
        s.0
    }
}

/// Number of UTF-8 bytes of a character.
pub open spec fn char_utf8_len(c: char) -> nat {
    let v = c as u32;
    if v < 0x80 {
        1
    } else if v < 0x800 {
        2
    } else if v < 0x10000 {
        3
    } else {
        4
    }
}

/// Number of UTF-8 bytes of a sequence of characters.
pub open spec fn utf8_len(s: Seq<char>) -> nat
    decreases s.len(),
{
    if s.len() == 0 {
        0
    } else {
        utf8_len(s.drop_last()) + char_utf8_len(s.last())
    }
}

/// Number of leading copies of `c`.
pub open spec fn leading_count(s: Seq<char>, c: char) -> nat
    decreases s.len(),
{
    if s.len() > 0 && s[0] == c {
        1 + leading_count(s.drop_first(), c)
    } else {
        0
    }
}

/// Number of trailing copies of `c`.
pub open spec fn trailing_count(s: Seq<char>, c: char) -> nat
    decreases s.len(),
{
    if s.len() > 0 && s.last() == c {
        1 + trailing_count(s.drop_last(), c)
    } else {
        0
    }
}

/// `s` without its leading and trailing double quotes (`str::trim_matches('"')`).
pub open spec fn strip_quotes(s: Seq<char>) -> Seq<char> {
    let a = leading_count(s, '"');
    if a == s.len() {
        Seq::empty()
    } else {
        s.subrange(a as int, s.len() - trailing_count(s, '"'))
    }
}

/// Index of the first `c` in `s`.
pub open spec fn first_index(s: Seq<char>, c: char) -> Option<int>
    decreases s.len(),
{
    if s.len() == 0 {
        None
    } else if s[0] == c {
        Some(0)
    } else {
        match first_index(s.drop_first(), c) {
            Some(i) => Some(i + 1),
            None => None,
        }
    }
}

pub open spec fn spec_ends_with(s: Seq<char>, p: Seq<char>) -> bool {
    p.len() <= s.len() && s.skip(s.len() - p.len()) == p
}

/// What reading one line does to the positions and the current section.
pub open spec fn line_step(
    m: Map<Seq<char>, (usize, usize)>,
    section: Seq<char>,
    line: Seq<char>,
    index: int,
) -> (Map<Seq<char>, (usize, usize)>, Seq<char>) {
    let trimmed = spec_trim_start(line);
    let pos = ((index + 1) as usize, (utf8_len(line.take(leading_ws(line) as int)) + 1) as usize);
    if spec_starts_with(trimmed, seq!['[', '[']) && spec_ends_with(trimmed, seq![']', ']']) {
        let s = spec_trim(trimmed.subrange(2, trimmed.len() - 2));
        (if m.contains_key(s) { m } else { m.insert(s, pos) }, s)
    } else if spec_starts_with(trimmed, seq!['[']) && spec_ends_with(trimmed, seq![']']) {
        let s = spec_trim(trimmed.subrange(1, trimmed.len() - 1));
        (if m.contains_key(s) { m } else { m.insert(s, pos) }, s)
    } else {
        match first_index(trimmed, '=') {
            Some(e) => {
                let key = strip_quotes(spec_trim(trimmed.take(e)));
                if key.len() == 0 {
                    (m, section)
                } else {
                    let path = if section.len() == 0 {
                        key
                    } else {
                        section + seq!['.'] + key
                    };
                    (m.insert(path, pos), section)
                }
            },
            None => (m, section),
        }
    }
}

/// Positions and section after reading lines in order.
pub open spec fn positions_scan(lines: Seq<Seq<char>>) -> (Map<Seq<char>, (usize, usize)>, Seq<char>)
    decreases lines.len(),
{
    if lines.len() == 0 {
        (Map::empty(), Seq::empty())
    } else {
        let prev = positions_scan(lines.drop_last());
        line_step(prev.0, prev.1, lines.last(), lines.len() - 1)
    }
}

/// Where each key of a TOML text is assigned: the first header of a table, the last
/// assignment of a key, as one-based line and byte column.
pub open spec fn spec_assignment_positions(t: Seq<char>) -> Map<Seq<char>, (usize, usize)> {
    positions_scan(text_lines(t)).0
}

/// The lines of a text, as `str::lines` gives them.
pub(crate) fn lines_of(text: &str) -> (r: Vec<Vec<char>>)
    ensures
        r@.map_values(|l: Vec<char>| l@) == text_lines(text@),
{
    let chars = chars_of(text);
    let mut lines: Vec<Vec<char>> = Vec::new();
    let mut current: Vec<char> = Vec::new();
    let mut i: usize = 0;
    while i < chars.len()
        invariant
            i <= chars@.len(),
            chars@ == text@,
            (lines@.map_values(|l: Vec<char>| l@), current@) == lines_scan(chars@.take(i as int)),
        decreases chars@.len() - i,
    {
        assert(chars@.take(i + 1).drop_last() =~= chars@.take(i as int));
        let c = chars[i];
        if c == '\n' {
            let mut line = current;
            let n = line.len();
            if n > 0 && line[n - 1] == '\r' {
                line.pop();
            }
            let ghost before = lines@;
            lines.push(line);
            assert(lines@.map_values(|l: Vec<char>| l@) =~= before.map_values(|l: Vec<char>| l@).push(line@));
            current = Vec::new();
        } else {
            current.push(c);
        }
        i = i + 1;
    }
    assert(chars@.take(i as int) =~= chars@);
    if current.len() > 0 {
        let ghost before = lines@;
        let ghost cur = current@;
        lines.push(current);
        assert(lines@.map_values(|l: Vec<char>| l@) =~= before.map_values(|l: Vec<char>| l@).push(cur));
    }
    lines
}

fn utf8_len_of(c: char) -> (r: usize)
    ensures
        r == char_utf8_len(c),
{
    let v = c as u32;
    if v < 0x80 {
        1
    } else if v < 0x800 {
        2
    } else if v < 0x10000 {
        3
    } else {
        4
    }
}

pub(crate) fn first_index_of(s: &[char], c: char) -> (r: Option<usize>)
    ensures
        match r {
            Some(i) => first_index(s@, c) == Some(i as int) && i < s@.len(),
            None => first_index(s@, c) is None,
        },
{
    let mut i: usize = 0;
    assert(s@.skip(0) =~= s@);
    while i < s.len()
        invariant
            i <= s@.len(),
            first_index(s@, c) == match first_index(s@.skip(i as int), c) {
                Some(j) => Some(j + i),
                None => None,
            },
        decreases s@.len() - i,
    {
        assert(s@.skip(i as int).drop_first() =~= s@.skip(i + 1));
        if s[i] == c {
            return Some(i);
        }
        i = i + 1;
    }
    None
}

pub(crate) fn ends_with(s: &[char], p: &[char]) -> (r: bool)
    ensures
        r == spec_ends_with(s@, p@),
{
    if p.len() > s.len() {
        return false;
    }
    let total = s.len();
    let off = s.len() - p.len();
    let mut i: usize = 0;
    while i < p.len()
        invariant
            i <= p@.len(),
            total == s@.len(),
            off + p@.len() == s@.len(),
            forall|j: int| 0 <= j < i ==> s@[off + j] == p@[j],
        decreases p@.len() - i,
    {
        if s[off + i] != p[i] {
            assert(s@.skip(off as int)[i as int] != p@[i as int]);
            return false;
        }
        i = i + 1;
    }
    assert(s@.skip(off as int) =~= p@);
    true
}

pub(crate) fn strip_quotes_of(s: &[char]) -> (r: Vec<char>)
    ensures
        r@ == strip_quotes(s@),
{
    let mut a: usize = 0;
    assert(s@.skip(0) =~= s@);
    while a < s.len() && s[a] == '"'
        invariant
            a <= s@.len(),
            leading_count(s@, '"') == a + leading_count(s@.skip(a as int), '"'),
        decreases s@.len() - a,
    {
        assert(s@.skip(a as int).drop_first() =~= s@.skip(a + 1));
        a = a + 1;
    }
    proof {
        if a < s@.len() {
            assert(s@.skip(a as int)[0] == s@[a as int]);
        }
    }
    assert(leading_count(s@, '"') == a);
    if a == s.len() {
        return Vec::new();
    }
    let mut b: usize = s.len();
    assert(s@.take(b as int) =~= s@);
    while b > a && s[b - 1] == '"'
        invariant
            a < s@.len(),
            a <= b <= s@.len(),
            trailing_count(s@, '"') == (s@.len() - b) + trailing_count(s@.take(b as int), '"'),
            forall|j: int| b <= j < s@.len() ==> s@[j] == '"',
            s@[a as int] != '"',
        decreases b - a,
    {
        assert(s@.take(b as int).drop_last() =~= s@.take(b - 1));
        b = b - 1;
    }
    proof {
        if b > a {
            assert(s@.take(b as int).last() == s@[b - 1]);
        } else {
            assert(false);
        }
    }
    crate::text::slice_chars(s, a, b)
}

/// One line's contribution to the positions.
fn apply_line(
    positions: &mut StrMap<(usize, usize)>,
    section: &mut Vec<char>,
    line: &[char],
    index: usize,
)
    requires
        index < usize::MAX,
        utf8_len(line@) < usize::MAX,
    ensures
        (final(positions).map(), final(section)@) == line_step(old(positions).map(), old(section)@, line@, index as int),
{
    let mut lead: usize = 0;
    let mut width: usize = 0;
    assert(line@.skip(0) =~= line@);
    assert(line@.take(0) =~= Seq::<char>::empty());
    while lead < line.len() && is_whitespace(line[lead])
        invariant
            lead <= line@.len(),
            leading_ws(line@) == lead + leading_ws(line@.skip(lead as int)),
            width == utf8_len(line@.take(lead as int)),
            utf8_len(line@) < usize::MAX,
        decreases line@.len() - lead,
    {
        assert(line@.skip(lead as int).drop_first() =~= line@.skip(lead + 1));
        assert(line@.take(lead + 1).drop_last() =~= line@.take(lead as int));
        proof {
            lemma_utf8_len_prefix(line@, lead + 1);
        }
        width = width + utf8_len_of(line[lead]);
        lead = lead + 1;
    }
    proof {
        if lead < line@.len() {
            assert(line@.skip(lead as int)[0] == line@[lead as int]);
        }
    }
    assert(leading_ws(line@) == lead);
    proof {
        if lead > 0 {
            lemma_utf8_len_prefix(line@, lead as int);
        }
    }
    let trimmed = crate::text::slice_chars(line, lead, line.len());
    assert(trimmed@ =~= spec_trim_start(line@));
    let pos = (index + 1, width + 1);
    let double_open = ['[', '['];
    let double_close = [']', ']'];
    let open = ['['];
    let close = [']'];
    assert(double_open@ =~= seq!['[', '[']);
    assert(double_close@ =~= seq![']', ']']);
    assert(open@ =~= seq!['[']);
    assert(close@ =~= seq![']']);
    let n = trimmed.len();
    let header = if starts_with(trimmed.as_slice(), &double_open) && ends_with(trimmed.as_slice(), &double_close) {
        assert(n >= 4) by {
            if n < 4 {
                assert(trimmed@.take(2)[1] == '[');
                assert(trimmed@.skip(n - 2)[0] == ']');
            }
        }
        Some(crate::text::slice_chars(trimmed.as_slice(), 2, n - 2))
    } else if starts_with(trimmed.as_slice(), &open) && ends_with(trimmed.as_slice(), &close) {
        assert(n >= 2) by {
            if n < 2 {
                assert(trimmed@.take(1)[0] == '[');
                assert(trimmed@.skip(n - 1)[0] == ']');
            }
        }
        Some(crate::text::slice_chars(trimmed.as_slice(), 1, n - 1))
    } else {
        None
    };
    match header {
        Some(inner) => {
            let name = trim(inner.as_slice());
            let key = string_of(name.as_slice());
            if !positions.contains_key(key.as_str()) {
                positions.insert(key, pos);
            }
            *section = name;
        },
        None => {
            match first_index_of(trimmed.as_slice(), '=') {
                None => {},
                Some(e) => {
                    let head = crate::text::slice_chars(trimmed.as_slice(), 0, e);
                    assert(head@ =~= trimmed@.take(e as int));
                    let bare = trim(head.as_slice());
                    let key = strip_quotes_of(bare.as_slice());
                    if key.len() > 0 {
                        let mut path: Vec<char> = Vec::new();
                        if section.len() > 0 {
                            let mut j: usize = 0;
                            while j < section.len()
                                invariant
                                    j <= section@.len(),
                                    path@ == section@.take(j as int),
                                decreases section@.len() - j,
                            {
                                path.push(section[j]);
                                j = j + 1;
                                assert(path@ =~= section@.take(j as int));
                            }
                            assert(section@.take(j as int) =~= section@);
                            path.push('.');
                        }
                        let ghost prefix = path@;
                        let mut j: usize = 0;
                        while j < key.len()
                            invariant
                                j <= key@.len(),
                                path@ == prefix + key@.take(j as int),
                            decreases key@.len() - j,
                        {
                            path.push(key[j]);
                            j = j + 1;
                            assert(path@ =~= prefix + key@.take(j as int));
                        }
                        assert(key@.take(j as int) =~= key@);
                        proof {
                            if section@.len() == 0 {
                                assert(path@ =~= key@);
                            } else {
                                assert(path@ =~= section@ + seq!['.'] + key@);
                            }
                        }
                        let text = string_of(path.as_slice());
                        positions.insert(text, pos);
                    }
                },
            }
        },
    }
}

proof fn lemma_utf8_len_prefix(s: Seq<char>, k: int)
    requires
        0 < k <= s.len(),
    ensures
        utf8_len(s.take(k)) == utf8_len(s.take(k - 1)) + char_utf8_len(s[k - 1]),
        utf8_len(s.take(k)) <= utf8_len(s),
    decreases s.len() - k,
{
    assert(s.take(k).drop_last() =~= s.take(k - 1));
    if k < s.len() {
        lemma_utf8_len_prefix(s, k + 1);
    } else {
        assert(s.take(k) =~= s);
    }
}

/// Where each key of a TOML text is assigned, by path.
pub fn assignment_positions(text: &str) -> (r: StrMap<(usize, usize)>)
    requires
        utf8_len(text@) < usize::MAX,
    ensures
        r.map() == spec_assignment_positions(text@),
{
    let lines = lines_of(text);
    let ghost ls = lines@.map_values(|l: Vec<char>| l@);
    let mut positions: StrMap<(usize, usize)> = StrMap::new();
    let mut section: Vec<char> = Vec::new();
    let mut i: usize = 0;
    assert(positions.map() =~= Map::<Seq<char>, (usize, usize)>::empty());
    assert(ls.take(0) =~= Seq::<Seq<char>>::empty());
    while i < lines.len()
        invariant
            i <= lines@.len(),
            ls == lines@.map_values(|l: Vec<char>| l@),
            ls == text_lines(text@),
            utf8_len(text@) < usize::MAX,
            (positions.map(), section@) == positions_scan(ls.take(i as int)),
        decreases lines@.len() - i,
    {
        proof {
            lemma_line_within_text(text@, i as int);
        }
        apply_line(&mut positions, &mut section, lines[i].as_slice(), i);
        assert(ls.take(i + 1).drop_last() =~= ls.take(i as int));
        i = i + 1;
    }
    assert(ls.take(i as int) =~= ls);
    positions
}

/// Each line is no longer than its text, in bytes and in number.
proof fn lemma_line_within_text(t: Seq<char>, i: int)
    requires
        0 <= i < text_lines(t).len(),
    ensures
        utf8_len(text_lines(t)[i]) <= utf8_len(t),
        i < t.len(),
{
    lemma_scan_bounds(t);
    let s = lines_scan(t);
    if s.1.len() > 0 && i == s.0.len() {
        assert(text_lines(t)[i] == s.1);
    } else {
        assert(text_lines(t)[i] == s.0[i]);
    }
}

proof fn lemma_scan_bounds(t: Seq<char>)
    ensures
        utf8_len(lines_scan(t).1) <= utf8_len(t),
        forall|i: int| 0 <= i < lines_scan(t).0.len() ==> utf8_len(#[trigger] lines_scan(t).0[i]) <= utf8_len(t),
        lines_scan(t).0.len() + lines_scan(t).1.len() <= t.len(),
        lines_scan(t).1.len() > 0 ==> lines_scan(t).0.len() < t.len(),
    decreases t.len(),
{
    if t.len() > 0 {
        lemma_scan_bounds(t.drop_last());
        let prev = lines_scan(t.drop_last());
        if t.last() == '\n' {
            let line = strip_cr(prev.1);
            if prev.1.len() > 0 && prev.1.last() == '\r' {
                assert(utf8_len(line) <= utf8_len(prev.1));
            }
        } else {
            assert(prev.1.push(t.last()).drop_last() =~= prev.1);
        }
    }
}

/// Number of `\n` bytes in a byte sequence.
pub open spec fn newline_count(b: Seq<u8>) -> nat
    decreases b.len(),
{
    if b.len() == 0 {
        0
    } else {
        newline_count(b.drop_last()) + if b.last() == 10 {
            1nat
        } else {
            0nat
        }
    }
}

/// Index of the last `\n` byte.
pub open spec fn last_newline(b: Seq<u8>) -> Option<int>
    decreases b.len(),
{
    if b.len() == 0 {
        None
    } else if b.last() == 10 {
        Some(b.len() - 1)
    } else {
        last_newline(b.drop_last())
    }
}

/// One-based line and byte column of a byte offset, clamped to the text.
pub open spec fn spec_line_column(bytes: Seq<u8>, byte: int) -> (int, int) {
    let prefix = bytes.take(if byte < bytes.len() { byte } else { bytes.len() as int });
    (
        newline_count(prefix) as int + 1,
        match last_newline(prefix) {
            Some(p) => prefix.len() - p,
            None => prefix.len() as int + 1,
        },
    )
}

/// The line and column of a byte offset into a text.
pub fn line_column(text: &str, byte: usize) -> (r: (usize, usize))
    requires
        text.spec_bytes().len() < usize::MAX,
    ensures
        r.0 as int == spec_line_column(text.spec_bytes(), byte as int).0,
        r.1 as int == spec_line_column(text.spec_bytes(), byte as int).1,
{
    let bytes = text.as_bytes();
    let end = if byte < bytes.len() {
        byte
    } else {
        bytes.len()
    };
    let ghost prefix = bytes@.take(end as int);
    let mut lines: usize = 0;
    let mut last: Option<usize> = None;
    let mut i: usize = 0;
    while i < end
        invariant
            end <= bytes@.len(),
            i <= end,
            lines as int == newline_count(bytes@.take(i as int)),
            lines <= i,
            match last {
                Some(p) => last_newline(bytes@.take(i as int)) == Some(p as int) && p < i,
                None => last_newline(bytes@.take(i as int)) is None,
            },
        decreases end - i,
    {
        assert(bytes@.take(i + 1).drop_last() =~= bytes@.take(i as int));
        if bytes[i] == 10u8 {
            lines = lines + 1;
            last = Some(i);
        }
        i = i + 1;
    }
    let column = match last {
        Some(p) => end - p,
        None => end + 1,
    };
    (lines + 1, column)
}

} // verus!
