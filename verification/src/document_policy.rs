//! Viewer and editor policy documents, and the text encodings the viewer reads and writes:
//! detection, decoding, encoding, and byte positions of lines and columns.

use vstd::prelude::*;

use crate::local_fs::{le_bytes, utf16_encoded, utf16_units};
use crate::config::{entries_view, find_key, toml_document, ConfigValue, ValueView};
use crate::navigation::ViewerStateEntry;
use crate::text::{chars_of, decimal, push_str, spec_is_whitespace, spec_lower, spec_trim, utf8_lossy};

verus! {

broadcast use vstd::string::group_string_axioms;

/// How a resource is opened.
#[derive(Clone, Copy, Debug, PartialEq, Eq, Structural)]
pub enum ResourceOpenPolicy {
    Internal,
    External,
    Association,
}

impl Default for ResourceOpenPolicy {
    fn default() -> (r: Self)
        ensures
            r == ResourceOpenPolicy::Internal,
    {
        ResourceOpenPolicy::Internal
    }
}

/// The text encoding the viewer uses for a resource.
#[derive(Clone, Copy, Debug, PartialEq, Eq, Structural)]
pub enum ViewerEncoding {
    Auto,
    Utf8Lossy,
    Utf16Le,
    Utf16Be,
    Latin1,
}

impl Default for ViewerEncoding {
    fn default() -> (r: Self)
        ensures
            r == ViewerEncoding::Auto,
    {
        ViewerEncoding::Auto
    }
}

/// The name of an encoding in configuration.
pub open spec fn config_name_text(e: ViewerEncoding) -> Seq<char> {
    match e {
        ViewerEncoding::Auto => "auto"@,
        ViewerEncoding::Utf8Lossy => "utf8-lossy"@,
        ViewerEncoding::Utf16Le => "utf16le"@,
        ViewerEncoding::Utf16Be => "utf16be"@,
        ViewerEncoding::Latin1 => "latin1"@,
    }
}

/// The label of an encoding shown to the user.
pub open spec fn label_text(e: ViewerEncoding) -> Seq<char> {
    match e {
        ViewerEncoding::Auto => "auto"@,
        ViewerEncoding::Utf8Lossy => "utf-8"@,
        ViewerEncoding::Utf16Le => "utf-16le"@,
        ViewerEncoding::Utf16Be => "utf-16be"@,
        ViewerEncoding::Latin1 => "latin-1"@,
    }
}

/// The encoding a name selects, trimmed and compared case-insensitively.
pub open spec fn encoding_named(value: Seq<char>) -> Option<ViewerEncoding> {
    let v = spec_lower(spec_trim(value));
    if v == "auto"@ {
        Some(ViewerEncoding::Auto)
    } else if v == "utf8-lossy"@ || v == "utf-8"@ || v == "utf8"@ {
        Some(ViewerEncoding::Utf8Lossy)
    } else if v == "utf16le"@ || v == "utf-16le"@ {
        Some(ViewerEncoding::Utf16Le)
    } else if v == "utf16be"@ || v == "utf-16be"@ {
        Some(ViewerEncoding::Utf16Be)
    } else if v == "latin1"@ || v == "latin-1"@ {
        Some(ViewerEncoding::Latin1)
    } else {
        None
    }
}

/// A name of lowercase ASCII letters, digits and `-` reads as itself once trimmed and
/// lowered.
proof fn lemma_plain_name(s: Seq<char>)
    requires
        s.len() > 0,
        forall|i: int|
            0 <= i < s.len() ==> ('a' <= #[trigger] s[i] <= 'z' || '0' <= s[i] <= '9' || s[i] == '-'),
    ensures
        spec_lower(spec_trim(s)) == s,
{
    assert(!spec_is_whitespace(s[0]));
    assert(!spec_is_whitespace(s[s.len() - 1]));
    crate::text::lemma_leading_ws_char(s, 0);
    assert(s.skip(0) =~= s);
    crate::text::lemma_trailing_ws_char(s, 0);
    assert(s.take(s.len() as int) =~= s);
    assert(spec_lower(s) =~= s);
}

/// The configuration name and the shown label of every encoding select that encoding again.
pub proof fn law_encoding_names_round_trip(e: ViewerEncoding)
    ensures
        encoding_named(config_name_text(e)) == Some(e),
        encoding_named(label_text(e)) == Some(e),
{
    reveal_strlit("auto");
    reveal_strlit("utf8-lossy");
    reveal_strlit("utf-8");
    reveal_strlit("utf16le");
    reveal_strlit("utf-16le");
    reveal_strlit("utf16be");
    reveal_strlit("utf-16be");
    reveal_strlit("latin1");
    reveal_strlit("latin-1");
    reveal_strlit("utf8");
    assert("auto"@[0] != "utf8"@[0]);
    assert("utf16le"@[5] != "utf16be"@[5]);
    assert("latin-1"@[0] != "utf16le"@[0]);
    assert("latin-1"@[0] != "utf16be"@[0]);
    assert("utf-16le"@[6] != "utf-16be"@[6]);
    lemma_plain_name(config_name_text(e));
    lemma_plain_name(label_text(e));
}

/// The line break of an encoding.
pub open spec fn newline_of(e: ViewerEncoding) -> Seq<u8> {
    match e {
        ViewerEncoding::Utf16Le => seq![10u8, 0u8],
        ViewerEncoding::Utf16Be => seq![0u8, 10u8],
        _ => seq![10u8],
    }
}

/// Number of zero bytes at even (or odd) positions among the first `n` bytes.
pub open spec fn nul_count(b: Seq<u8>, n: int, odd: bool) -> nat
    decreases n,
{
    if n <= 0 {
        0
    } else {
        nul_count(b, n - 1, odd) + (if b[n - 1] == 0 && ((n - 1) % 2 == 1) == odd {
            1nat
        } else {
            0nat
        })
    }
}

/// The encoding that bytes look like: a UTF-16 byte order mark, or zero bytes concentrated on
/// odd (little-endian) or even (big-endian) positions of the first 256 bytes; UTF-8 otherwise.
pub open spec fn detected(b: Seq<u8>) -> ViewerEncoding {
    let n = if b.len() < 256 {
        b.len() as int
    } else {
        256
    };
    let even = nul_count(b, n, false);
    let odd = nul_count(b, n, true);
    if b.len() >= 2 && b[0] == 0xff && b[1] == 0xfe {
        ViewerEncoding::Utf16Le
    } else if b.len() >= 2 && b[0] == 0xfe && b[1] == 0xff {
        ViewerEncoding::Utf16Be
    } else if odd >= 2 && odd > even * 2 {
        ViewerEncoding::Utf16Le
    } else if even >= 2 && even > odd * 2 {
        ViewerEncoding::Utf16Be
    } else {
        ViewerEncoding::Utf8Lossy
    }
}

/// The encoding actually used for some bytes: `Auto` becomes the detected one.
pub open spec fn resolved_for(e: ViewerEncoding, b: Seq<u8>) -> ViewerEncoding {
    if e == ViewerEncoding::Auto {
        detected(b)
    } else {
        e
    }
}

/// Bytes without a given prefix, when they start with it.
pub open spec fn without_prefix(b: Seq<u8>, p: Seq<u8>) -> Seq<u8> {
    if p.len() <= b.len() && b.take(p.len() as int) == p {
        b.skip(p.len() as int)
    } else {
        b
    }
}

/// Byte pairs as UTF-16 code units, little- or big-endian; a final odd byte is dropped.
pub open spec fn utf16_pairs(b: Seq<u8>, little: bool) -> Seq<u16> {
    Seq::new(
        b.len() / 2,
        |i: int|
            if little {
                (b[2 * i] + 256 * b[2 * i + 1]) as u16
            } else {
                (256 * b[2 * i] + b[2 * i + 1]) as u16
            },
    )
}

/// The text that `String::from_utf16_lossy` decodes from UTF-16 code units.
pub uninterp spec fn utf16_lossy(units: Seq<u16>) -> Seq<char>;

/// The text of bytes in an encoding. Byte order marks are dropped; invalid sequences decode
/// to replacement characters.
pub open spec fn decoded_text(e: ViewerEncoding, b: Seq<u8>) -> Seq<char> {
    match resolved_for(e, b) {
        ViewerEncoding::Utf16Le => utf16_lossy(
            utf16_pairs(without_prefix(b, seq![0xffu8, 0xfeu8]), true),
        ),
        ViewerEncoding::Utf16Be => utf16_lossy(
            utf16_pairs(without_prefix(b, seq![0xfeu8, 0xffu8]), false),
        ),
        ViewerEncoding::Latin1 => Seq::new(b.len(), |i: int| b[i] as char),
        _ => utf8_lossy(without_prefix(b, seq![0xefu8, 0xbbu8, 0xbfu8])),
    }
}

/// UTF-16 code units as big-endian byte pairs.
pub open spec fn be_bytes(units: Seq<u16>) -> Seq<u8> {
    Seq::new(
        2 * units.len(),
        |j: int|
            if j % 2 == 0 {
                (units[j / 2] / 256) as u8
            } else {
                (units[j / 2] % 256) as u8
            },
    )
}

/// The characters that Latin-1 can hold, as bytes; others are left out.
pub open spec fn latin1_bytes(t: Seq<char>) -> Seq<u8>
    decreases t.len(),
{
    if t.len() == 0 {
        Seq::empty()
    } else {
        latin1_bytes(t.drop_last()) + (if (t.last() as u32) <= 0xff {
            seq![(t.last() as u32) as u8]
        } else {
            Seq::empty()
        })
    }
}

/// The bytes of a text in an encoding (`Auto` writes UTF-8), without a byte order mark.
pub open spec fn encoded_text(e: ViewerEncoding, t: Seq<char>) -> Seq<u8> {
    match e {
        ViewerEncoding::Utf16Le => le_bytes(utf16_encoded(t)),
        ViewerEncoding::Utf16Be => be_bytes(utf16_encoded(t)),
        ViewerEncoding::Latin1 => latin1_bytes(t),
        _ => vstd::utf8::encode_utf8(t),
    }
}

/// The length of the byte order mark that an encoding skips over when it reads the bytes.
pub open spec fn bom_length(e: ViewerEncoding, b: Seq<u8>) -> nat {
    match e {
        ViewerEncoding::Utf8Lossy => if b.len() >= 3 && b[0] == 0xef && b[1] == 0xbb && b[2]
            == 0xbf {
            3
        } else {
            0
        },
        ViewerEncoding::Utf16Le => if b.len() >= 2 && b[0] == 0xff && b[1] == 0xfe {
            2
        } else {
            0
        },
        ViewerEncoding::Utf16Be => if b.len() >= 2 && b[0] == 0xfe && b[1] == 0xff {
            2
        } else {
            0
        },
        _ => 0,
    }
}

/// The byte offset of a character column: the byte order mark and the encoding of the
/// decoded characters before the column.
pub open spec fn byte_column_of(e: ViewerEncoding, b: Seq<u8>, column: nat) -> int {
    let d = decoded_text(e, b);
    let shown = if column <= d.len() {
        d.take(column as int)
    } else {
        d
    };
    (bom_length(e, b) + encoded_text(e, shown).len()) as int
}

/// First position of a non-empty needle in a haystack.
pub open spec fn first_occurrence(h: Seq<u8>, n: Seq<u8>) -> Option<int>
    decreases h.len(),
{
    if n.len() == 0 || h.len() < n.len() {
        None
    } else if h.take(n.len() as int) == n {
        Some(0)
    } else {
        match first_occurrence(h.drop_first(), n) {
            Some(i) => Some(i + 1),
            None => None,
        }
    }
}

/// Last position of a non-empty needle in a haystack.
pub open spec fn last_occurrence(h: Seq<u8>, n: Seq<u8>) -> Option<int>
    decreases h.len(),
{
    if n.len() == 0 || h.len() < n.len() {
        None
    } else if h.skip(h.len() - n.len()) == n {
        Some(h.len() - n.len())
    } else {
        last_occurrence(h.drop_last(), n)
    }
}

/// An offset clamped to the length of the bytes.
pub open spec fn clamp(offset: u64, len: nat) -> int {
    if offset < len {
        offset as int
    } else {
        len as int
    }
}

/// The bytes of the line that starts at an offset, without its line break.
pub open spec fn line_bytes_at(e: ViewerEncoding, b: Seq<u8>, offset: u64) -> Seq<u8> {
    let tail = b.skip(clamp(offset, b.len()));
    match first_occurrence(tail, newline_of(e)) {
        Some(i) => tail.take(i),
        None => tail,
    }
}

/// The offset of the line after the one at an offset; the offset itself on the last line.
pub open spec fn next_line_at(e: ViewerEncoding, b: Seq<u8>, offset: u64) -> int {
    match first_occurrence(b.skip(clamp(offset, b.len())), newline_of(e)) {
        Some(i) => if offset + i + newline_of(e).len() <= u64::MAX {
            offset + i + newline_of(e).len()
        } else {
            u64::MAX as int
        },
        None => offset as int,
    }
}

/// The offset of the line before the one at an offset; zero from the first two lines.
pub open spec fn previous_line_at(e: ViewerEncoding, b: Seq<u8>, offset: u64) -> int {
    let n = newline_of(e);
    let end = clamp(offset, b.len());
    let cut = if end >= n.len() {
        end - n.len()
    } else {
        0
    };
    match last_occurrence(b.take(cut), n) {
        Some(p) => p + n.len(),
        None => 0,
    }
}

/// The offset reached after passing `k` more line breaks from `rel`.
pub open spec fn advance_lines(b: Seq<u8>, n: Seq<u8>, rel: int, k: nat) -> Option<int>
    decreases k,
{
    if k == 0 {
        Some(rel)
    } else {
        match first_occurrence(b.skip(rel), n) {
            Some(i) => advance_lines(b, n, rel + i + n.len(), (k - 1) as nat),
            None => None,
        }
    }
}

/// The offset where a one-based line starts; `None` past the last line.
pub open spec fn line_offset_of(e: ViewerEncoding, b: Seq<u8>, line: u64) -> Option<int> {
    if line <= 1 {
        Some(0)
    } else {
        advance_lines(b, newline_of(e), 0, (line - 1) as nat)
    }
}

/// `String::from_utf16_lossy`: decodes UTF-16, replacing unpaired surrogates. The standard
/// library documents that valid UTF-16 decodes to the text it encodes.
#[verifier::external_body]
pub(crate) fn string_from_utf16_lossy(units: &[u16]) -> (r: String)
    ensures
        r@ == utf16_lossy(units@),
        (exists|c: Seq<char>| utf16_encoded(c) == units@) ==> utf16_encoded(r@) == units@,
{
    String::from_utf16_lossy(units)
}

/// First position of a non-empty needle (`windows(..).position(..)`).
pub fn find_bytes(h: &[u8], n: &[u8]) -> (r: Option<usize>)
    ensures
        match first_occurrence(h@, n@) {
            Some(i) => r == Some(i as usize),
            None => r is None,
        },
{
    if n.len() == 0 {
        return None;
    }
    let mut i: usize = 0;
    assert(h@.skip(0) =~= h@);
    while i < h.len() && h.len() - i >= n.len()
        invariant
            i <= h@.len(),
            n@.len() > 0,
            first_occurrence(h@, n@) == (match first_occurrence(h@.skip(i as int), n@) {
                Some(j) => Some(j + i),
                None => None,
            }),
        decreases h@.len() - i,
    {
        let ghost rest = h@.skip(i as int);
        let mut same = true;
        let mut k: usize = 0;
        let hl = h.len();
        while k < n.len()
            invariant
                k <= n@.len(),
                hl == h@.len(),
                i + n@.len() <= h@.len(),
                rest == h@.skip(i as int),
                same == forall|j: int| 0 <= j < k ==> h@[i + j] == n@[j],
            decreases n@.len() - k,
        {
            if h[i + k] != n[k] {
                same = false;
            }
            k = k + 1;
        }
        if same {
            assert(rest.take(n@.len() as int) =~= n@);
            return Some(i);
        }
        assert(rest.take(n@.len() as int) != n@) by {
            let j = choose|j: int| 0 <= j < n@.len() && h@[i + j] != n@[j];
            assert(rest.take(n@.len() as int)[j] == h@[i + j]);
        }
        assert(rest.drop_first() =~= h@.skip(i + 1));
        i = i + 1;
    }
    assert(h@.skip(i as int).len() < n@.len());
    None
}

/// Last position of a non-empty needle (`windows(..).rposition(..)`).
pub fn rfind_bytes(h: &[u8], n: &[u8]) -> (r: Option<usize>)
    ensures
        match last_occurrence(h@, n@) {
            Some(i) => r == Some(i as usize),
            None => r is None,
        },
{
    if n.len() == 0 || h.len() < n.len() {
        return None;
    }
    let mut end = h.len();
    assert(h@.take(end as int) =~= h@);
    while end >= n.len()
        invariant
            end <= h@.len(),
            n@.len() > 0,
            last_occurrence(h@, n@) == last_occurrence(h@.take(end as int), n@),
        decreases end,
    {
        let ghost t = h@.take(end as int);
        let start = end - n.len();
        let mut same = true;
        let mut k: usize = 0;
        while k < n.len()
            invariant
                k <= n@.len(),
                start + n@.len() == end,
                end <= h@.len(),
                same == forall|j: int| 0 <= j < k ==> h@[start + j] == n@[j],
            decreases n@.len() - k,
        {
            if h[start + k] != n[k] {
                same = false;
            }
            k = k + 1;
        }
        if same {
            assert(t.skip(t.len() - n@.len()) =~= n@);
            return Some(start);
        }
        assert(t.skip(t.len() - n@.len()) != n@) by {
            let j = choose|j: int| 0 <= j < n@.len() && h@[start + j] != n@[j];
            assert(t.skip(t.len() - n@.len())[j] == h@[start + j]);
        }
        assert(t.drop_last() =~= h@.take(end - 1));
        end = end - 1;
    }
    None
}

impl ViewerEncoding {
    pub fn config_name(self) -> (r: &'static str)
        ensures
            r@ == config_name_text(self),
    {
        match self {
            ViewerEncoding::Auto => "auto",
            ViewerEncoding::Utf8Lossy => "utf8-lossy",
            ViewerEncoding::Utf16Le => "utf16le",
            ViewerEncoding::Utf16Be => "utf16be",
            ViewerEncoding::Latin1 => "latin1",
        }
    }

    pub fn label(self) -> (r: &'static str)
        ensures
            r@ == label_text(self),
    {
        match self {
            ViewerEncoding::Auto => "auto",
            ViewerEncoding::Utf8Lossy => "utf-8",
            ViewerEncoding::Utf16Le => "utf-16le",
            ViewerEncoding::Utf16Be => "utf-16be",
            ViewerEncoding::Latin1 => "latin-1",
        }
    }

    /// The encoding a configured or typed name selects.
    pub fn parse(value: &str) -> (r: Option<Self>)
        ensures
            r == encoding_named(value@),
    {
        let raw = chars_of(value);
        let trimmed = crate::text::trim(raw.as_slice());
        let lowered = crate::text::lower_chars(trimmed.as_slice());
        let v = crate::text::string_of(lowered.as_slice());
        let v = v.as_str();
        if crate::text::str_eq(v, "auto") {
            Some(ViewerEncoding::Auto)
        } else if crate::text::str_eq(v, "utf8-lossy") || crate::text::str_eq(v, "utf-8")
            || crate::text::str_eq(v, "utf8") {
            Some(ViewerEncoding::Utf8Lossy)
        } else if crate::text::str_eq(v, "utf16le") || crate::text::str_eq(v, "utf-16le") {
            Some(ViewerEncoding::Utf16Le)
        } else if crate::text::str_eq(v, "utf16be") || crate::text::str_eq(v, "utf-16be") {
            Some(ViewerEncoding::Utf16Be)
        } else if crate::text::str_eq(v, "latin1") || crate::text::str_eq(v, "latin-1") {
            Some(ViewerEncoding::Latin1)
        } else {
            None
        }
    }

    /// Guesses the encoding of bytes.
    pub fn detect(bytes: &[u8]) -> (r: Self)
        ensures
            r == detected(bytes@),
    {
        if bytes.len() >= 2 && bytes[0] == 0xff && bytes[1] == 0xfe {
            return ViewerEncoding::Utf16Le;
        }
        if bytes.len() >= 2 && bytes[0] == 0xfe && bytes[1] == 0xff {
            return ViewerEncoding::Utf16Be;
        }
        let n: usize = if bytes.len() < 256 {
            bytes.len()
        } else {
            256
        };
        let mut even: usize = 0;
        let mut odd: usize = 0;
        let mut i: usize = 0;
        while i < n
            invariant
                i <= n <= 256,
                n <= bytes@.len(),
                even == nul_count(bytes@, i as int, false),
                odd == nul_count(bytes@, i as int, true),
                even + odd <= i,
            decreases n - i,
        {
            if bytes[i] == 0 {
                if i % 2 == 0 {
                    even = even + 1;
                } else {
                    odd = odd + 1;
                }
            }
            i = i + 1;
        }
        if odd >= 2 && odd > even * 2 {
            ViewerEncoding::Utf16Le
        } else if even >= 2 && even > odd * 2 {
            ViewerEncoding::Utf16Be
        } else {
            ViewerEncoding::Utf8Lossy
        }
    }

    /// The encoding to use for bytes: the detected one when this is `Auto`.
    pub fn resolved(self, bytes: &[u8]) -> (r: Self)
        ensures
            r == resolved_for(self, bytes@),
    {
        if self == ViewerEncoding::Auto {
            Self::detect(bytes)
        } else {
            self
        }
    }

    /// The line break of the encoding.
    pub fn newline_bytes(self) -> (r: Vec<u8>)
        ensures
            r@ == newline_of(self),
    {
        let r = match self {
            ViewerEncoding::Utf16Le => vec![10u8, 0u8],
            ViewerEncoding::Utf16Be => vec![0u8, 10u8],
            _ => vec![10u8],
        };
        assert(r@ =~= newline_of(self));
        r
    }

    /// Decodes bytes as text.
    pub fn decode(self, bytes: &[u8]) -> (r: String)
        ensures
            r@ == decoded_text(self, bytes@),
    {
        let e = self.resolved(bytes);
        match e {
            ViewerEncoding::Utf16Le | ViewerEncoding::Utf16Be => {
                let little = e == ViewerEncoding::Utf16Le;
                let start: usize = if bytes.len() >= 2 && ((little && bytes[0] == 0xff && bytes[1]
                    == 0xfe) || (!little && bytes[0] == 0xfe && bytes[1] == 0xff)) {
                    2
                } else {
                    0
                };
                let ghost body = if little {
                    without_prefix(bytes@, seq![0xffu8, 0xfeu8])
                } else {
                    without_prefix(bytes@, seq![0xfeu8, 0xffu8])
                };
                assert(body =~= bytes@.skip(start as int)) by {
                    if bytes@.len() >= 2 {
                        let p = if little {
                            seq![0xffu8, 0xfeu8]
                        } else {
                            seq![0xfeu8, 0xffu8]
                        };
                        if bytes@.take(2) == p {
                            assert(bytes@.take(2)[0] == bytes@[0]);
                            assert(bytes@.take(2)[1] == bytes@[1]);
                        }
                        if start == 2 {
                            assert(bytes@.take(2) =~= p);
                        }
                    }
                }
                let mut units: Vec<u16> = Vec::new();
                let count = (bytes.len() - start) / 2;
                let blen = bytes.len();
                let mut i: usize = 0;
                while i < count
                    invariant
                        blen == bytes@.len(),
                        i <= count,
                        count == (bytes@.len() - start) / 2,
                        start <= bytes@.len(),
                        body == bytes@.skip(start as int),
                        units@ =~= utf16_pairs(body, little).take(i as int),
                    decreases count - i,
                {
                    let a = bytes[start + 2 * i] as u16;
                    let b = bytes[start + 2 * i + 1] as u16;
                    if little {
                        units.push(a + 256 * b);
                    } else {
                        units.push(256 * a + b);
                    }
                    i = i + 1;
                }
                assert(utf16_pairs(body, little).take(count as int) =~= utf16_pairs(body, little));
                string_from_utf16_lossy(units.as_slice())
            },
            ViewerEncoding::Latin1 => {
                let mut text = String::new();
                let mut i: usize = 0;
                while i < bytes.len()
                    invariant
                        i <= bytes@.len(),
                        text@ =~= Seq::new(i as nat, |k: int| bytes@[k] as char),
                    decreases bytes@.len() - i,
                {
                    crate::text::push_char(&mut text, bytes[i] as char);
                    i = i + 1;
                }
                text
            },
            _ => {
                let has_bom = bytes.len() >= 3 && bytes[0] == 0xef && bytes[1] == 0xbb && bytes[2]
                    == 0xbf;
                let start: usize = if has_bom {
                    3
                } else {
                    0
                };
                let body = vstd::slice::slice_subrange(bytes, start, bytes.len());
                assert(body@ =~= without_prefix(bytes@, seq![0xefu8, 0xbbu8, 0xbfu8])) by {
                    let p = seq![0xefu8, 0xbbu8, 0xbfu8];
                    if bytes@.len() >= 3 && bytes@.take(3) == p {
                        assert(bytes@.take(3)[0] == bytes@[0]);
                        assert(bytes@.take(3)[1] == bytes@[1]);
                        assert(bytes@.take(3)[2] == bytes@[2]);
                    }
                    if has_bom {
                        assert(bytes@.take(3) =~= p);
                    }
                }
                crate::text::string_from_utf8_lossy(body)
            },
        }
    }
}

impl ViewerEncoding {
    /// Encodes text in this encoding, without a byte order mark.
    pub fn encode(self, text: &str) -> (r: Vec<u8>)
        ensures
            r@ == encoded_text(self, text@),
    {
        match self {
            ViewerEncoding::Utf16Le | ViewerEncoding::Utf16Be => {
                let units = utf16_units(text);
                let little = self == ViewerEncoding::Utf16Le;
                let mut out: Vec<u8> = Vec::new();
                let mut i: usize = 0;
                while i < units.len()
                    invariant
                        i <= units@.len(),
                        little == (self == ViewerEncoding::Utf16Le),
                        self == ViewerEncoding::Utf16Le || self == ViewerEncoding::Utf16Be,
                        out@.len() == 2 * i,
                        forall|j: int|
                            0 <= j < 2 * i ==> #[trigger] out@[j] == encoded_text(self, text@)[j],
                        units@ == utf16_encoded(text@),
                    decreases units@.len() - i,
                {
                    let u = units[i];
                    if little {
                        out.push((u % 256) as u8);
                        out.push((u / 256) as u8);
                    } else {
                        out.push((u / 256) as u8);
                        out.push((u % 256) as u8);
                    }
                    proof {
                        assert forall|j: int| 0 <= j < 2 * (i + 1) implies #[trigger] out@[j]
                            == encoded_text(self, text@)[j] by {
                            if j >= 2 * i {
                                assert(j / 2 == i);
                                if j == 2 * i {
                                    assert(j % 2 == 0);
                                } else {
                                    assert(j % 2 == 1);
                                }
                            }
                        }
                    }
                    i = i + 1;
                }
                assert(out@ =~= encoded_text(self, text@));
                out
            },
            ViewerEncoding::Latin1 => {
                let chars = chars_of(text);
                let mut out: Vec<u8> = Vec::new();
                let mut i: usize = 0;
                while i < chars.len()
                    invariant
                        i <= chars@.len(),
                        chars@ == text@,
                        out@ == latin1_bytes(chars@.take(i as int)),
                    decreases chars@.len() - i,
                {
                    let c = chars[i];
                    assert(chars@.take(i + 1).drop_last() =~= chars@.take(i as int));
                    if (c as u32) <= 0xff {
                        out.push((c as u32) as u8);
                    }
                    proof {
                        let t = chars@.take(i + 1);
                        assert(t.last() == c);
                        if (c as u32) <= 0xff {
                            assert(out@ =~= latin1_bytes(t));
                        } else {
                            assert(out@ =~= latin1_bytes(t.drop_last()) + Seq::<u8>::empty());
                        }
                    }
                    i = i + 1;
                }
                assert(chars@.take(chars@.len() as int) =~= chars@);
                out
            },
            _ => vstd::slice::slice_to_vec(text.as_bytes()),
        }
    }

    /// The byte offset of a character column in bytes of this encoding, counting the byte
    /// order mark; saturated at `usize::MAX`.
    pub fn byte_column(self, bytes: &[u8], column: usize) -> (r: usize)
        ensures
            r as int == if byte_column_of(self, bytes@, column as nat) <= usize::MAX {
                byte_column_of(self, bytes@, column as nat)
            } else {
                usize::MAX as int
            },
    {
        let bom: usize = match self {
            ViewerEncoding::Utf8Lossy => if bytes.len() >= 3 && bytes[0] == 0xef && bytes[1]
                == 0xbb && bytes[2] == 0xbf {
                3
            } else {
                0
            },
            ViewerEncoding::Utf16Le => if bytes.len() >= 2 && bytes[0] == 0xff && bytes[1]
                == 0xfe {
                2
            } else {
                0
            },
            ViewerEncoding::Utf16Be => if bytes.len() >= 2 && bytes[0] == 0xfe && bytes[1]
                == 0xff {
                2
            } else {
                0
            },
            _ => 0,
        };
        let decoded = self.decode(bytes);
        let chars = chars_of(decoded.as_str());
        let n = if column <= chars.len() {
            column
        } else {
            chars.len()
        };
        let shown = crate::text::slice_chars(chars.as_slice(), 0, n);
        let shown_text = crate::text::string_of(shown.as_slice());
        assert(shown@ =~= (if (column as nat) <= chars@.len() {
            chars@.take(column as int)
        } else {
            chars@
        }));
        let encoded = self.encode(shown_text.as_str());
        bom.saturating_add(encoded.len())
    }

    /// The bytes of the line that starts at an offset, without its line break.
    pub fn line_bytes(self, bytes: &[u8], offset: u64) -> (r: Vec<u8>)
        ensures
            r@ == line_bytes_at(self, bytes@, offset),
    {
        let start: usize = if offset < bytes.len() as u64 {
            offset as usize
        } else {
            bytes.len()
        };
        let tail = vstd::slice::slice_subrange(bytes, start, bytes.len());
        assert(tail@ =~= bytes@.skip(clamp(offset, bytes@.len())));
        let newline = self.newline_bytes();
        proof {
            lemma_occurrence_fits(tail@, newline@);
        }
        let end = match find_bytes(tail, newline.as_slice()) {
            Some(i) => i,
            None => tail.len(),
        };
        let line = vstd::slice::slice_subrange(tail, 0, end);
        let r = vstd::slice::slice_to_vec(line);
        assert(r@ =~= line_bytes_at(self, bytes@, offset));
        r
    }

    /// The offset of the next line; the same offset on the last line.
    pub fn next_line(self, bytes: &[u8], offset: u64) -> (r: u64)
        ensures
            r as int == next_line_at(self, bytes@, offset),
    {
        let start: usize = if offset < bytes.len() as u64 {
            offset as usize
        } else {
            bytes.len()
        };
        let tail = vstd::slice::slice_subrange(bytes, start, bytes.len());
        assert(tail@ =~= bytes@.skip(clamp(offset, bytes@.len())));
        let newline = self.newline_bytes();
        proof {
            lemma_occurrence_fits(tail@, newline@);
        }
        let tl = tail.len();
        match find_bytes(tail, newline.as_slice()) {
            Some(i) => {
                assert(i + newline@.len() <= tl);
                let step = (i + newline.len()) as u64;
                offset.saturating_add(step)
            },
            None => offset,
        }
    }

    /// The offset of the previous line; zero from the first lines.
    pub fn previous_line(self, bytes: &[u8], offset: u64) -> (r: u64)
        ensures
            r as int == previous_line_at(self, bytes@, offset),
    {
        let newline = self.newline_bytes();
        let end: usize = if offset < bytes.len() as u64 {
            offset as usize
        } else {
            bytes.len()
        };
        let cut = end.saturating_sub(newline.len());
        let slice = vstd::slice::slice_subrange(bytes, 0, cut);
        assert(slice@ =~= bytes@.take(cut as int));
        proof {
            lemma_last_occurrence_fits(slice@, newline@);
        }
        let sl = slice.len();
        match rfind_bytes(slice, newline.as_slice()) {
            Some(position) => {
                assert(position + newline@.len() <= sl);
                (position + newline.len()) as u64
            },
            None => 0,
        }
    }

    /// The offset where a one-based line starts, `None` past the last line.
    pub fn line_offset(self, bytes: &[u8], line: u64) -> (r: Option<u64>)
        ensures
            match line_offset_of(self, bytes@, line) {
                Some(o) => r == Some(o as u64),
                None => r is None,
            },
    {
        if line <= 1 {
            return Some(0);
        }
        let newline = self.newline_bytes();
        let mut current: u64 = 1;
        let mut relative: usize = 0;
        while relative <= bytes.len()
            invariant
                1 <= current < line,
                relative <= bytes@.len(),
                newline@ == newline_of(self),
                newline@.len() > 0,
                advance_lines(bytes@, newline@, 0, (line - 1) as nat) == advance_lines(
                    bytes@,
                    newline@,
                    relative as int,
                    (line - current) as nat,
                ),
            decreases bytes@.len() - relative,
        {
            let tail = vstd::slice::slice_subrange(bytes, relative, bytes.len());
            assert(tail@ =~= bytes@.skip(relative as int));
            match find_bytes(tail, newline.as_slice()) {
                Some(index) => {
                    proof {
                        lemma_occurrence_fits(tail@, newline@);
                    }
                    current = current + 1;
                    relative = relative + index + newline.len();
                    if current == line {
                        return Some(relative as u64);
                    }
                },
                None => {
                    return None;
                },
            }
        }
        None
    }
}

proof fn lemma_last_occurrence_fits(h: Seq<u8>, n: Seq<u8>)
    ensures
        last_occurrence(h, n) matches Some(i) ==> 0 <= i && i + n.len() <= h.len(),
    decreases h.len(),
{
    if n.len() > 0 && h.len() >= n.len() && h.skip(h.len() - n.len()) != n {
        lemma_last_occurrence_fits(h.drop_last(), n);
    }
}

proof fn lemma_occurrence_fits(h: Seq<u8>, n: Seq<u8>)
    ensures
        first_occurrence(h, n) matches Some(i) ==> 0 <= i && i + n.len() <= h.len(),
    decreases h.len(),
{
    if n.len() > 0 && h.len() >= n.len() && h.take(n.len() as int) != n {
        lemma_occurrence_fits(h.drop_first(), n);
    }
}

/// The value of a key of a table's entries.
pub open spec fn field_value(es: Seq<(Seq<char>, ValueView)>, key: Seq<char>) -> Option<ValueView> {
    match find_key(es, key) {
        Some(i) => Some(es[i].1),
        None => None,
    }
}

/// The refusal of a value of the wrong type.
pub open spec fn invalid_type(key: Seq<char>, expected: Seq<char>) -> Seq<char> {
    "invalid type for `"@ + key + "`: expected "@ + expected
}

/// A boolean field, or its default when absent.
pub open spec fn bool_field(es: Seq<(Seq<char>, ValueView)>, key: Seq<char>, default: bool) -> Result<
    bool,
    Seq<char>,
> {
    match field_value(es, key) {
        None => Ok(default),
        Some(ValueView::Boolean(b)) => Ok(b),
        Some(_) => Err(invalid_type(key, "a boolean"@)),
    }
}

/// An unsigned integer field below a bound; absent fields take the default, or are refused
/// as missing when there is none.
pub open spec fn integer_field(
    es: Seq<(Seq<char>, ValueView)>,
    key: Seq<char>,
    default: Option<int>,
    max: int,
) -> Result<int, Seq<char>> {
    match field_value(es, key) {
        None => match default {
            Some(d) => Ok(d),
            None => Err("missing field `"@ + key + "`"@),
        },
        Some(ValueView::Integer(i)) => if 0 <= i && i <= max {
            Ok(i as int)
        } else {
            Err("invalid value for `"@ + key + "`"@)
        },
        Some(_) => Err(invalid_type(key, "an integer"@)),
    }
}

/// The refusal of an unknown variant name.
pub open spec fn unknown_variant(key: Seq<char>, value: Seq<char>) -> Seq<char> {
    "unknown variant `"@ + value + "` for `"@ + key + "`"@
}

/// An open-policy field by its kebab-case name; `internal` when absent.
pub open spec fn policy_field(es: Seq<(Seq<char>, ValueView)>, key: Seq<char>) -> Result<
    ResourceOpenPolicy,
    Seq<char>,
> {
    match field_value(es, key) {
        None => Ok(ResourceOpenPolicy::Internal),
        Some(ValueView::String(v)) => if v == "internal"@ {
            Ok(ResourceOpenPolicy::Internal)
        } else if v == "external"@ {
            Ok(ResourceOpenPolicy::External)
        } else if v == "association"@ {
            Ok(ResourceOpenPolicy::Association)
        } else {
            Err(unknown_variant(key, v))
        },
        Some(_) => Err(invalid_type(key, "a string"@)),
    }
}

/// An encoding field by its kebab-case name; `auto` when absent.
pub open spec fn encoding_field(es: Seq<(Seq<char>, ValueView)>, key: Seq<char>) -> Result<
    ViewerEncoding,
    Seq<char>,
> {
    match field_value(es, key) {
        None => Ok(ViewerEncoding::Auto),
        Some(ValueView::String(v)) => if v == "auto"@ {
            Ok(ViewerEncoding::Auto)
        } else if v == "utf8-lossy"@ {
            Ok(ViewerEncoding::Utf8Lossy)
        } else if v == "utf16-le"@ {
            Ok(ViewerEncoding::Utf16Le)
        } else if v == "utf16-be"@ {
            Ok(ViewerEncoding::Utf16Be)
        } else if v == "latin1"@ {
            Ok(ViewerEncoding::Latin1)
        } else {
            Err(unknown_variant(key, v))
        },
        Some(_) => Err(invalid_type(key, "a string"@)),
    }
}

fn entry_value<'a>(es: &'a Vec<(String, ConfigValue)>, key: &str) -> (r: Option<&'a ConfigValue>)
    ensures
        match field_value(entries_view(es@), key@) {
            Some(v) => r matches Some(x) && x@ == v,
            None => r is None,
        },
{
    match crate::config::find_entry(es, key) {
        Some(i) => Some(&es[i].1),
        None => None,
    }
}

#[verifier::spinoff_prover]
fn read_bool(es: &Vec<(String, ConfigValue)>, key: &str, fallback: bool) -> (r: Result<bool, String>)
    ensures
        r matches Ok(x) ==> bool_field(entries_view(es@), key@, fallback) == Ok::<bool, Seq<char>>(x),
        r matches Err(e) ==> bool_field(entries_view(es@), key@, fallback) == Err::<bool, Seq<char>>(
            e@,
        ),
{
    let found = entry_value(es, key);
    match found {
        None => {
            assert(field_value(entries_view(es@), key@) is None);
            assert(bool_field(entries_view(es@), key@, fallback) == Ok::<bool, Seq<char>>(fallback));
            Ok(fallback)
        },
        Some(ConfigValue::Boolean(b)) => {
            assert(found->Some_0@ == ValueView::Boolean(*b));
            Ok(*b)
        },
        Some(_) => {
            assert(!(found->Some_0@ is Boolean));
            let mut m = "invalid type for `".to_owned();
            push_str(&mut m, key);
            push_str(&mut m, "`: expected ");
            push_str(&mut m, "a boolean");
            Err(m)
        },
    }
}

#[verifier::spinoff_prover]
fn read_integer(es: &Vec<(String, ConfigValue)>, key: &str, fallback: Option<u32>, max: u32) -> (r:
    Result<u32, String>)
    ensures
        r matches Ok(x) ==> integer_field(
            entries_view(es@),
            key@,
            match fallback {
                Some(d) => Some(d as int),
                None => None,
            },
            max as int,
        ) == Ok::<int, Seq<char>>(x as int),
        r matches Err(e) ==> integer_field(
            entries_view(es@),
            key@,
            match fallback {
                Some(d) => Some(d as int),
                None => None,
            },
            max as int,
        ) == Err::<int, Seq<char>>(e@),
{
    let found = entry_value(es, key);
    proof {
        if found is None {
            assert(field_value(entries_view(es@), key@) is None);
        }
    }
    match found {
        None => match fallback {
            Some(d) => Ok(d),
            None => {
                let mut m = "missing field `".to_owned();
                push_str(&mut m, key);
                push_str(&mut m, "`");
                Err(m)
            },
        },
        Some(ConfigValue::Integer(i)) => {
            assert(found->Some_0@ == ValueView::Integer(*i));
            if 0 <= *i && *i <= max as i64 {
                Ok(*i as u32)
            } else {
                let mut m = "invalid value for `".to_owned();
                push_str(&mut m, key);
                push_str(&mut m, "`");
                Err(m)
            }
        },
        Some(_) => {
            assert(!(found->Some_0@ is Integer));
            let mut m = "invalid type for `".to_owned();
            push_str(&mut m, key);
            push_str(&mut m, "`: expected ");
            push_str(&mut m, "an integer");
            Err(m)
        },
    }
}

fn variant_refusal(key: &str, value: &str) -> (r: String)
    ensures
        r@ == unknown_variant(key@, value@),
{
    let mut m = "unknown variant `".to_owned();
    push_str(&mut m, value);
    push_str(&mut m, "` for `");
    push_str(&mut m, key);
    push_str(&mut m, "`");
    m
}

#[verifier::spinoff_prover]
fn read_policy(es: &Vec<(String, ConfigValue)>, key: &str) -> (r: Result<ResourceOpenPolicy, String>)
    ensures
        r matches Ok(x) ==> policy_field(entries_view(es@), key@) == Ok::<
            ResourceOpenPolicy,
            Seq<char>,
        >(x),
        r matches Err(e) ==> policy_field(entries_view(es@), key@) == Err::<
            ResourceOpenPolicy,
            Seq<char>,
        >(e@),
{
    let found = entry_value(es, key);
    match found {
        None => {
            assert(field_value(entries_view(es@), key@) is None);
            assert(policy_field(entries_view(es@), key@) == Ok::<ResourceOpenPolicy, Seq<char>>(
                ResourceOpenPolicy::Internal,
            ));
            Ok(ResourceOpenPolicy::Internal)
        },
        Some(ConfigValue::String(v)) => {
            assert(found->Some_0@ == ValueView::String(v@));
            if crate::text::str_eq(v.as_str(), "internal") {
                Ok(ResourceOpenPolicy::Internal)
            } else if crate::text::str_eq(v.as_str(), "external") {
                Ok(ResourceOpenPolicy::External)
            } else if crate::text::str_eq(v.as_str(), "association") {
                Ok(ResourceOpenPolicy::Association)
            } else {
                Err(variant_refusal(key, v.as_str()))
            }
        },
        Some(_) => {
            assert(!(found->Some_0@ is String));
            let mut m = "invalid type for `".to_owned();
            push_str(&mut m, key);
            push_str(&mut m, "`: expected ");
            push_str(&mut m, "a string");
            Err(m)
        },
    }
}

#[verifier::spinoff_prover]
fn read_encoding(es: &Vec<(String, ConfigValue)>, key: &str) -> (r: Result<ViewerEncoding, String>)
    ensures
        r matches Ok(x) ==> encoding_field(entries_view(es@), key@) == Ok::<
            ViewerEncoding,
            Seq<char>,
        >(x),
        r matches Err(e) ==> encoding_field(entries_view(es@), key@) == Err::<
            ViewerEncoding,
            Seq<char>,
        >(e@),
{
    let found = entry_value(es, key);
    match found {
        None => {
            assert(field_value(entries_view(es@), key@) is None);
            assert(encoding_field(entries_view(es@), key@) == Ok::<ViewerEncoding, Seq<char>>(
                ViewerEncoding::Auto,
            ));
            Ok(ViewerEncoding::Auto)
        },
        Some(ConfigValue::String(v)) => {
            assert(found->Some_0@ == ValueView::String(v@));
            let v = v.as_str();
            if crate::text::str_eq(v, "auto") {
                Ok(ViewerEncoding::Auto)
            } else if crate::text::str_eq(v, "utf8-lossy") {
                Ok(ViewerEncoding::Utf8Lossy)
            } else if crate::text::str_eq(v, "utf16-le") {
                Ok(ViewerEncoding::Utf16Le)
            } else if crate::text::str_eq(v, "utf16-be") {
                Ok(ViewerEncoding::Utf16Be)
            } else if crate::text::str_eq(v, "latin1") {
                Ok(ViewerEncoding::Latin1)
            } else {
                Err(variant_refusal(key, v))
            }
        },
        Some(_) => {
            assert(!(found->Some_0@ is String));
            let mut m = "invalid type for `".to_owned();
            push_str(&mut m, key);
            push_str(&mut m, "`: expected ");
            push_str(&mut m, "a string");
            Err(m)
        },
    }
}

/// How the viewer shows resources and what it remembers of them.
#[derive(Clone, Copy, Debug, PartialEq, Eq, Structural)]
pub struct ViewerSettings {
    pub schema: u32,
    pub wrap: bool,
    pub hex: bool,
    pub detect_binary: bool,
    pub encoding: ViewerEncoding,
    pub open_policy: ResourceOpenPolicy,
    pub remember_per_resource: bool,
    pub remember_position: bool,
    pub remember_bookmarks: bool,
    pub remember_encoding: bool,
    pub remember_view_mode: bool,
}

impl Default for ViewerSettings {
    fn default() -> (r: Self)
        ensures
            r == (ViewerSettings {
                schema: 1,
                wrap: false,
                hex: false,
                detect_binary: true,
                encoding: ViewerEncoding::Auto,
                open_policy: ResourceOpenPolicy::Internal,
                remember_per_resource: true,
                remember_position: true,
                remember_bookmarks: true,
                remember_encoding: true,
                remember_view_mode: true,
            }),
    {
        ViewerSettings {
            schema: 1,
            wrap: false,
            hex: false,
            detect_binary: true,
            encoding: ViewerEncoding::Auto,
            open_policy: ResourceOpenPolicy::Internal,
            remember_per_resource: true,
            remember_position: true,
            remember_bookmarks: true,
            remember_encoding: true,
            remember_view_mode: true,
        }
    }
}

/// Viewer settings read from a table's entries; the first refused field, in declaration
/// order, is reported; a schema other than 1 is refused.
pub open spec fn viewer_settings_of(es: Seq<(Seq<char>, ValueView)>) -> Result<ViewerSettings, Seq<char>> {
    let schema = integer_field(es, "schema"@, None, u32::MAX as int);
    let wrap = bool_field(es, "wrap"@, false);
    let hex = bool_field(es, "hex"@, false);
    let detect_binary = bool_field(es, "detect_binary"@, true);
    let encoding = encoding_field(es, "encoding"@);
    let open_policy = policy_field(es, "open_policy"@);
    let per_resource = bool_field(es, "remember_per_resource"@, true);
    let position = bool_field(es, "remember_position"@, true);
    let bookmarks = bool_field(es, "remember_bookmarks"@, true);
    let remember_encoding = bool_field(es, "remember_encoding"@, true);
    let view_mode = bool_field(es, "remember_view_mode"@, true);
    if schema is Err {
        Err(schema->Err_0)
    } else if wrap is Err {
        Err(wrap->Err_0)
    } else if hex is Err {
        Err(hex->Err_0)
    } else if detect_binary is Err {
        Err(detect_binary->Err_0)
    } else if encoding is Err {
        Err(encoding->Err_0)
    } else if open_policy is Err {
        Err(open_policy->Err_0)
    } else if per_resource is Err {
        Err(per_resource->Err_0)
    } else if position is Err {
        Err(position->Err_0)
    } else if bookmarks is Err {
        Err(bookmarks->Err_0)
    } else if remember_encoding is Err {
        Err(remember_encoding->Err_0)
    } else if view_mode is Err {
        Err(view_mode->Err_0)
    } else if schema->Ok_0 != 1 {
        Err("unsupported viewer settings schema "@ + decimal(schema->Ok_0 as nat))
    } else {
        Ok(
            ViewerSettings {
                schema: 1,
                wrap: wrap->Ok_0,
                hex: hex->Ok_0,
                detect_binary: detect_binary->Ok_0,
                encoding: encoding->Ok_0,
                open_policy: open_policy->Ok_0,
                remember_per_resource: per_resource->Ok_0,
                remember_position: position->Ok_0,
                remember_bookmarks: bookmarks->Ok_0,
                remember_encoding: remember_encoding->Ok_0,
                remember_view_mode: view_mode->Ok_0,
            },
        )
    }
}

/// A policy document: the TOML parser's message when the text is not TOML, otherwise what
/// the fields of its top-level table give.
pub open spec fn settings_document<T>(
    text: Seq<char>,
    read: spec_fn(Seq<(Seq<char>, ValueView)>) -> Result<T, Seq<char>>,
) -> Result<T, Seq<char>> {
    match toml_document(text) {
        Err((m, _)) => Err(m),
        Ok(ValueView::Table(es)) => read(es),
        Ok(_) => Err("invalid type: expected a table"@),
    }
}

fn document_entries(source: &str) -> (r: Result<Vec<(String, ConfigValue)>, String>)
    ensures
        match toml_document(source@) {
            Err((m, _)) => r matches Err(e) && e@ == m,
            Ok(ValueView::Table(es)) => r matches Ok(v) && entries_view(v@) == es,
            Ok(_) => r matches Err(e) && e@ == "invalid type: expected a table"@,
        },
{
    match crate::config::parse_toml(source) {
        Err(failure) => Err(failure.message),
        Ok(value) => match value {
            ConfigValue::Table(entries) => {
                proof {
                    crate::config::lemma_table_view(ConfigValue::Table(entries));
                }
                Ok(entries)
            },
            _ => Err("invalid type: expected a table".to_owned()),
        },
    }
}

fn schema_refusal(prefix: &str, schema: u32) -> (r: String)
    ensures
        r@ == prefix@ + decimal(schema as nat),
{
    let mut m = prefix.to_owned();
    let n = crate::text::u64_decimal(schema as u64);
    push_str(&mut m, n.as_str());
    m
}

/// Bytes among the first `n` that are control characters other than tab, line breaks and
/// form feed.
pub open spec fn control_count(b: Seq<u8>, n: int) -> nat
    decreases n,
{
    if n <= 0 {
        0
    } else {
        control_count(b, n - 1) + (if b[n - 1] < 0x09 || (0x0e <= b[n - 1] && b[n - 1] < 0x20) {
            1nat
        } else {
            0nat
        })
    }
}

/// Whether bytes look binary: the first 4096 hold a zero byte, or more than one in eight of
/// them are control bytes.
pub open spec fn looks_binary(b: Seq<u8>) -> bool {
    let n = if b.len() < 4096 {
        b.len() as int
    } else {
        4096
    };
    (exists|i: int| 0 <= i < n && b[i] == 0) || (n > 0 && control_count(b, n) * 8 > n)
}

/// What a viewer state keeps under the settings: nothing when nothing is remembered per
/// resource; otherwise the state with the parts the settings do not remember reset.
pub open spec fn filtered_state(settings: ViewerSettings, s: ViewerStateEntry, r: ViewerStateEntry) -> bool {
    &&& r.provider == s.provider
    &&& r.location == s.location
    &&& r.offset == (if settings.remember_position {
        s.offset
    } else {
        0
    })
    &&& r.navigation_history@ == (if settings.remember_position {
        s.navigation_history@
    } else {
        seq![0u64]
    })
    &&& r.navigation_index == (if settings.remember_position {
        s.navigation_index
    } else {
        0
    })
    &&& r.bookmarks@ == (if settings.remember_bookmarks {
        s.bookmarks@
    } else {
        Map::<u8, u64>::empty()
    })
    &&& r.encoding == (if settings.remember_encoding {
        s.encoding
    } else {
        None
    })
    &&& r.wrap == (if settings.remember_view_mode {
        s.wrap
    } else {
        None
    })
    &&& r.hex == (if settings.remember_view_mode {
        s.hex
    } else {
        None
    })
}

impl ViewerSettings {
    /// Reads and validates a versioned viewer policy document.
    pub fn from_toml(source: &str) -> (r: Result<Self, String>)
        ensures
            match settings_document(source@, |es| viewer_settings_of(es)) {
                Ok(v) => r == Ok::<ViewerSettings, String>(v),
                Err(m) => r matches Err(e) && e@ == m,
            },
    {
        let es = document_entries(source)?;
        let schema = read_integer(&es, "schema", None, u32::MAX)?;
        let wrap = read_bool(&es, "wrap", false)?;
        let hex = read_bool(&es, "hex", false)?;
        let detect_binary = read_bool(&es, "detect_binary", true)?;
        let encoding = read_encoding(&es, "encoding")?;
        let open_policy = read_policy(&es, "open_policy")?;
        let remember_per_resource = read_bool(&es, "remember_per_resource", true)?;
        let remember_position = read_bool(&es, "remember_position", true)?;
        let remember_bookmarks = read_bool(&es, "remember_bookmarks", true)?;
        let remember_encoding = read_bool(&es, "remember_encoding", true)?;
        let remember_view_mode = read_bool(&es, "remember_view_mode", true)?;
        if schema != 1 {
            return Err(schema_refusal("unsupported viewer settings schema ", schema));
        }
        Ok(
            ViewerSettings {
                schema,
                wrap,
                hex,
                detect_binary,
                encoding,
                open_policy,
                remember_per_resource,
                remember_position,
                remember_bookmarks,
                remember_encoding,
                remember_view_mode,
            },
        )
    }

    /// The remembered state of a resource that these settings keep.
    pub fn filter_state(self, state: ViewerStateEntry) -> (r: Option<ViewerStateEntry>)
        ensures
            self.remember_per_resource <==> r is Some,
            r matches Some(f) ==> filtered_state(self, state, f),
    {
        if !self.remember_per_resource {
            return None;
        }
        let ghost old_history = state.navigation_history@;
        let mut state = state;
        if !self.remember_position {
            state.offset = 0;
            state.navigation_history = vec![0];
            state.navigation_index = 0;
        }
        if !self.remember_bookmarks {
            state.bookmarks.clear();
        }
        if !self.remember_encoding {
            state.encoding = None;
        }
        if !self.remember_view_mode {
            state.wrap = None;
            state.hex = None;
        }
        assert(state.navigation_history@ == (if self.remember_position {
            old_history
        } else {
            seq![0u64]
        }));
        Some(state)
    }

    /// Whether bytes look like binary data.
    pub fn is_binary(bytes: &[u8]) -> (r: bool)
        ensures
            r == looks_binary(bytes@),
    {
        let n: usize = if bytes.len() < 4096 {
            bytes.len()
        } else {
            4096
        };
        let mut zero = false;
        let mut controls: usize = 0;
        let mut i: usize = 0;
        while i < n
            invariant
                i <= n <= 4096,
                n <= bytes@.len(),
                zero == exists|j: int| 0 <= j < i && bytes@[j] == 0,
                controls == control_count(bytes@, i as int),
                controls <= i,
            decreases n - i,
        {
            let b = bytes[i];
            if b == 0 {
                zero = true;
            }
            if b < 0x09 || (0x0e <= b && b < 0x20) {
                controls = controls + 1;
            }
            i = i + 1;
        }
        zero || (n > 0 && controls * 8 > n)
    }
}

/// How the editor edits resources.
#[derive(Clone, Copy, Debug, PartialEq, Eq, Structural)]
pub struct EditorSettings {
    pub schema: u32,
    pub persistent_blocks: bool,
    pub open_policy: ResourceOpenPolicy,
    pub tab_size: u8,
    pub expand_tabs: bool,
}

impl Default for EditorSettings {
    fn default() -> (r: Self)
        ensures
            r == (EditorSettings {
                schema: 1,
                persistent_blocks: false,
                open_policy: ResourceOpenPolicy::Internal,
                tab_size: 4,
                expand_tabs: false,
            }),
    {
        EditorSettings {
            schema: 1,
            persistent_blocks: false,
            open_policy: ResourceOpenPolicy::Internal,
            tab_size: 4,
            expand_tabs: false,
        }
    }
}

/// Editor settings read from a table's entries; a schema other than 1 and a tab size outside
/// 1 to 16 are refused.
pub open spec fn editor_settings_of(es: Seq<(Seq<char>, ValueView)>) -> Result<EditorSettings, Seq<char>> {
    let schema = integer_field(es, "schema"@, None, u32::MAX as int);
    let blocks = bool_field(es, "persistent_blocks"@, false);
    let open_policy = policy_field(es, "open_policy"@);
    let tab_size = integer_field(es, "tab_size"@, Some(4), 255);
    let expand = bool_field(es, "expand_tabs"@, false);
    if schema is Err {
        Err(schema->Err_0)
    } else if blocks is Err {
        Err(blocks->Err_0)
    } else if open_policy is Err {
        Err(open_policy->Err_0)
    } else if tab_size is Err {
        Err(tab_size->Err_0)
    } else if expand is Err {
        Err(expand->Err_0)
    } else if schema->Ok_0 != 1 {
        Err("unsupported editor settings schema "@ + decimal(schema->Ok_0 as nat))
    } else if !(1 <= tab_size->Ok_0 && tab_size->Ok_0 <= 16) {
        Err("editor tab_size must be between 1 and 16"@)
    } else {
        Ok(
            EditorSettings {
                schema: 1,
                persistent_blocks: blocks->Ok_0,
                open_policy: open_policy->Ok_0,
                tab_size: tab_size->Ok_0 as u8,
                expand_tabs: expand->Ok_0,
            },
        )
    }
}

impl EditorSettings {
    /// Reads and validates a versioned editor policy document.
    pub fn from_toml(source: &str) -> (r: Result<Self, String>)
        ensures
            match settings_document(source@, |es| editor_settings_of(es)) {
                Ok(v) => r == Ok::<EditorSettings, String>(v),
                Err(m) => r matches Err(e) && e@ == m,
            },
    {
        let es = document_entries(source)?;
        let schema = read_integer(&es, "schema", None, u32::MAX)?;
        let persistent_blocks = read_bool(&es, "persistent_blocks", false)?;
        let open_policy = read_policy(&es, "open_policy")?;
        let tab_size = read_integer(&es, "tab_size", Some(4), 255)?;
        let expand_tabs = read_bool(&es, "expand_tabs", false)?;
        if schema != 1 {
            return Err(schema_refusal("unsupported editor settings schema ", schema));
        }
        if !(1 <= tab_size && tab_size <= 16) {
            return Err("editor tab_size must be between 1 and 16".to_owned());
        }
        Ok(
            EditorSettings {
                schema,
                persistent_blocks,
                open_policy,
                tab_size: tab_size as u8,
                expand_tabs,
            },
        )
    }
}


/// The line break of an encoding is the encoding of a line feed in it: one byte 10 in UTF-8
/// and Latin-1, 10 then 0 in UTF-16LE, 0 then 10 in UTF-16BE; in both UTF-16 encodings it is
/// one whole code unit.
pub proof fn law_newline_is_encoded_line_feed(e: ViewerEncoding)
    ensures
        newline_of(e) == encoded_text(e, seq!['\n']),
        (e == ViewerEncoding::Utf16Le || e == ViewerEncoding::Utf16Be) ==> newline_of(e).len() == 2,
{
    let t = seq!['\n'];
    assert(t.drop_first() =~= Seq::<char>::empty());
    assert(utf16_encoded(t) =~= seq![10u16]) by {
        assert(utf16_encoded(t.drop_first()) =~= Seq::<u16>::empty());
        assert(crate::local_fs::utf16_of_char('\n') =~= seq![10u16]);
    }
    assert(le_bytes(seq![10u16]) =~= seq![10u8, 0u8]);
    assert(be_bytes(seq![10u16]) =~= seq![0u8, 10u8]);
    assert(latin1_bytes(t) =~= seq![10u8]) by {
        assert(t.drop_last() =~= Seq::<char>::empty());
        assert(latin1_bytes(t.drop_last()) =~= Seq::<u8>::empty());
    }
    assert(vstd::utf8::encode_utf8(t) =~= seq![10u8]) by {
        assert(vstd::utf8::is_ascii_chars(t));
        vstd::utf8::is_ascii_chars_encode_utf8(t);
        assert(('\n' as u8) == 10u8);
    }
}

} // verus!
