//! Resource descriptions kept in catalog files beside the resources (`descript.ion`,
//! `files.bbs`): settings, the byte encodings of a catalog, and its line format.

use vstd::prelude::*;

use crate::local_fs::{utf8_text, PathStyle};
use crate::provider::ProviderError;
use crate::strmap::StrMap;
use crate::text::{
    push_char, push_str, replaced, spec_is_whitespace, spec_trim,
};

verus! {

broadcast use vstd::string::group_string_axioms;

/// How the bytes of a catalog file are decoded and written.
#[derive(Clone, Copy, Debug, PartialEq, Eq, Structural)]
pub enum DescriptionEncoding {
    Utf8,
    Utf8Bom,
    Latin1,
}

impl Default for DescriptionEncoding {
    fn default() -> (r: Self)
        ensures
            r == DescriptionEncoding::Utf8,
    {
        DescriptionEncoding::Utf8
    }
}

/// Whether descriptions may be edited.
#[derive(Clone, Copy, Debug, PartialEq, Eq, Structural)]
pub enum DescriptionUpdatePolicy {
    Disabled,
    Always,
}

impl Default for DescriptionUpdatePolicy {
    fn default() -> (r: Self)
        ensures
            r == DescriptionUpdatePolicy::Always,
    {
        DescriptionUpdatePolicy::Always
    }
}

/// Where descriptions live and how their catalogs are written.
#[derive(Clone, Debug, PartialEq, Eq)]
pub struct DescriptionSettings {
    pub schema: u16,
    pub description_files: Vec<String>,
    pub folder_description_files: Vec<String>,
    pub encoding: DescriptionEncoding,
    pub update_policy: DescriptionUpdatePolicy,
    pub show_description_files: bool,
}

/// The catalog file names used when none are configured.
pub open spec fn default_description_names() -> Seq<Seq<char>> {
    seq!["descript.ion"@, "files.bbs"@]
}

/// The folder description file names used when none are configured.
pub open spec fn default_folder_description_names() -> Seq<Seq<char>> {
    seq!["README.md"@, "README.txt"@, "files.bbs"@]
}

/// The text of each string of a list.
pub open spec fn texts(v: Seq<String>) -> Seq<Seq<char>> {
    Seq::new(v.len(), |i: int| v[i]@)
}

pub fn default_description_files() -> (r: Vec<String>)
    ensures
        texts(r@) == default_description_names(),
{
    let r = vec!["descript.ion".to_owned(), "files.bbs".to_owned()];
    assert(texts(r@) =~= default_description_names());
    r
}

pub fn default_folder_description_files() -> (r: Vec<String>)
    ensures
        texts(r@) == default_folder_description_names(),
{
    let r = vec!["README.md".to_owned(), "README.txt".to_owned(), "files.bbs".to_owned()];
    assert(texts(r@) =~= default_folder_description_names());
    r
}

impl Default for DescriptionSettings {
    fn default() -> (r: Self)
        ensures
            r.schema == 1,
            texts(r.description_files@) == default_description_names(),
            texts(r.folder_description_files@) == default_folder_description_names(),
            r.encoding == DescriptionEncoding::Utf8,
            r.update_policy == DescriptionUpdatePolicy::Always,
            !r.show_description_files,
    {
        DescriptionSettings {
            schema: 1,
            description_files: default_description_files(),
            folder_description_files: default_folder_description_files(),
            encoding: DescriptionEncoding::Utf8,
            update_policy: DescriptionUpdatePolicy::Always,
            show_description_files: false,
        }
    }
}

/// A path separator of a style.
pub open spec fn separator(style: PathStyle, c: char) -> bool {
    c == '/' || (style == PathStyle::Windows && c == '\\')
}

/// Index of the first separator, or the length when there is none.
pub open spec fn first_separator(style: PathStyle, s: Seq<char>) -> int
    decreases s.len(),
{
    if s.len() == 0 {
        0
    } else if separator(style, s[0]) {
        0
    } else {
        1 + first_separator(style, s.drop_first())
    }
}

/// After the first component, only separators and `.` components remain.
pub open spec fn trivial_remainder(style: PathStyle, r: Seq<char>) -> bool {
    forall|i: int|
        0 <= i < r.len() && !separator(style, #[trigger] r[i]) ==> r[i] == '.' && (i == 0
            || separator(style, r[i - 1])) && (i + 1 == r.len() || separator(style, r[i + 1]))
}

/// Whether a name is exactly one ordinary path component (`Path::components`): not rooted,
/// not `.` or `..`, no drive prefix on Windows, and nothing but separators and `.` after it.
pub open spec fn single_normal_component(style: PathStyle, s: Seq<char>) -> bool {
    let i = first_separator(style, s);
    let first = s.take(i);
    &&& first.len() > 0
    &&& first != seq!['.']
    &&& first != seq!['.', '.']
    &&& !(style == PathStyle::Windows && s.len() >= 2 && s[1] == ':' && (('a' <= s[0] && s[0]
        <= 'z') || ('A' <= s[0] && s[0] <= 'Z')))
    &&& trivial_remainder(style, s.skip(i))
}

/// A usable catalog file name: not blank, and exactly one ordinary component.
pub open spec fn valid_description_name(style: PathStyle, name: Seq<char>) -> bool {
    spec_trim(name).len() > 0 && single_normal_component(style, name)
}

/// The first name of a list that is not usable.
pub open spec fn first_invalid_name(style: PathStyle, names: Seq<Seq<char>>) -> Option<Seq<char>>
    decreases names.len(),
{
    if names.len() == 0 {
        None
    } else if !valid_description_name(style, names[0]) {
        Some(names[0])
    } else {
        first_invalid_name(style, names.drop_first())
    }
}

/// The first refusal of description settings, in the order they are checked.
pub open spec fn settings_refusal(style: PathStyle, s: DescriptionSettings) -> Option<Seq<char>> {
    if s.schema != 1 {
        Some("unsupported description schema "@ + crate::text::decimal(s.schema as nat))
    } else if s.description_files@.len() == 0 || s.folder_description_files@.len() == 0 {
        Some("description filename lists cannot be empty"@)
    } else {
        match first_invalid_name(
            style,
            texts(s.description_files@) + texts(s.folder_description_files@),
        ) {
            Some(name) => Some("invalid description filename "@ + name),
            None => None,
        }
    }
}

proof fn lemma_first_invalid_concat(style: PathStyle, a: Seq<Seq<char>>, b: Seq<Seq<char>>)
    ensures
        first_invalid_name(style, a + b) == (match first_invalid_name(style, a) {
            Some(n) => Some(n),
            None => first_invalid_name(style, b),
        }),
    decreases a.len(),
{
    if a.len() == 0 {
        assert(a + b =~= b);
    } else {
        lemma_first_invalid_concat(style, a.drop_first(), b);
        assert((a + b).drop_first() =~= a.drop_first() + b);
        assert((a + b)[0] == a[0]);
    }
}

/// Finds the first unusable name of a list.
fn find_invalid_name(style: PathStyle, names: &Vec<String>) -> (r: Option<usize>)
    ensures
        match first_invalid_name(style, texts(names@)) {
            Some(n) => r matches Some(i) && i < names@.len() && names@[i as int]@ == n,
            None => r is None,
        },
{
    let mut i: usize = 0;
    assert(texts(names@).skip(0) =~= texts(names@));
    while i < names.len()
        invariant
            i <= names@.len(),
            first_invalid_name(style, texts(names@)) == first_invalid_name(
                style,
                texts(names@).skip(i as int),
            ),
        decreases names@.len() - i,
    {
        let t = Ghost(texts(names@).skip(i as int));
        assert(t@[0] == names@[i as int]@);
        if !is_valid_description_name(style, names[i].as_str()) {
            return Some(i);
        }
        assert(t@.drop_first() =~= texts(names@).skip(i + 1));
        i = i + 1;
    }
    None
}

fn first_separator_at(style: PathStyle, s: &[char], start: usize) -> (r: usize)
    requires
        start <= s@.len(),
    ensures
        r == start + first_separator(style, s@.skip(start as int)),
        start <= r <= s@.len(),
    decreases s@.len() - start,
{
    if start == s.len() {
        assert(s@.skip(start as int).len() == 0);
        start
    } else if s[start] == '/' || (style == PathStyle::Windows && s[start] == '\\') {
        start
    } else {
        assert(s@.skip(start as int).drop_first() =~= s@.skip(start + 1));
        first_separator_at(style, s, start + 1)
    }
}

fn is_separator(style: PathStyle, c: char) -> (r: bool)
    ensures
        r == separator(style, c),
{
    c == '/' || (style == PathStyle::Windows && c == '\\')
}

/// Whether a catalog file name is usable in a style.
pub fn is_valid_description_name(style: PathStyle, name: &str) -> (r: bool)
    ensures
        r == valid_description_name(style, name@),
{
    if crate::text::trim_is_empty(name) {
        return false;
    }
    let s = crate::text::chars_of(name);
    if style == PathStyle::Windows && s.len() >= 2 && s[1] == ':' && (('a' <= s[0] && s[0] <= 'z')
        || ('A' <= s[0] && s[0] <= 'Z')) {
        return false;
    }
    let i = first_separator_at(style, s.as_slice(), 0);
    assert(s@.skip(0) =~= s@);
    if i == 0 {
        return false;
    }
    if i == 1 && s[0] == '.' {
        assert(s@.take(1) =~= seq!['.']);
        return false;
    }
    if i == 2 && s[0] == '.' && s[1] == '.' {
        assert(s@.take(2) =~= seq!['.', '.']);
        return false;
    }
    proof {
        if s@.take(i as int) == seq!['.'] {
            assert(s@.take(i as int).len() == 1);
            assert(s@.take(i as int)[0] == s@[0]);
            assert(false);
        }
        if s@.take(i as int) == seq!['.', '.'] {
            assert(s@.take(i as int).len() == 2);
            assert(s@.take(i as int)[0] == s@[0] && s@.take(i as int)[1] == s@[1]);
            assert(false);
        }
    }
    let ghost r = s@.skip(i as int);
    let mut j = i;
    while j < s.len()
        invariant
            i <= j <= s@.len(),
            r == s@.skip(i as int),
            s@ == name@,
            i == first_separator(style, s@),
            spec_trim(name@).len() > 0,
            s@.take(i as int).len() > 0,
            s@.take(i as int) != seq!['.'],
            s@.take(i as int) != seq!['.', '.'],
            !(style == PathStyle::Windows && s@.len() >= 2 && s@[1] == ':' && (('a' <= s@[0]
                && s@[0] <= 'z') || ('A' <= s@[0] && s@[0] <= 'Z'))),
            forall|k: int|
                0 <= k < j - i && !separator(style, #[trigger] r[k]) ==> r[k] == '.' && (k == 0
                    || separator(style, r[k - 1])) && (k + 1 == r.len() || separator(
                    style,
                    r[k + 1],
                )),
        decreases s@.len() - j,
    {
        let c = s[j];
        if !is_separator(style, c) {
            let before_ok = j == i || is_separator(style, s[j - 1]);
            let after_ok = j + 1 == s.len() || is_separator(style, s[j + 1]);
            if !(c == '.' && before_ok && after_ok) {
                proof {
                    let k = (j - i) as int;
                    assert(r[k] == c);
                    assert(k > 0 ==> r[k - 1] == s@[j - 1]);
                    assert(k + 1 < r.len() ==> r[k + 1] == s@[j + 1]);
                    assert(!(r[k] == '.' && (k == 0 || separator(style, r[k - 1])) && (k + 1
                        == r.len() || separator(style, r[k + 1]))));
                    assert(!trivial_remainder(style, r));
                }
                return false;
            }
            assert(j - i > 0 ==> r[j - i - 1] == s@[j - 1]);
            assert(j - i + 1 < r.len() ==> r[j - i + 1] == s@[j + 1]);
        }
        j = j + 1;
    }
    true
}

impl DescriptionSettings {
    /// Checks the settings: schema 1, non-empty name lists, and usable names.
    pub fn validate(&self, style: PathStyle) -> (r: Result<(), String>)
        ensures
            match settings_refusal(style, *self) {
                None => r is Ok,
                Some(m) => r matches Err(e) && e@ == m,
            },
    {
        if self.schema != 1 {
            let mut message = "unsupported description schema ".to_owned();
            let number = crate::text::u64_decimal(self.schema as u64);
            push_str(&mut message, number.as_str());
            return Err(message);
        }
        if self.description_files.len() == 0 || self.folder_description_files.len() == 0 {
            return Err("description filename lists cannot be empty".to_owned());
        }
        proof {
            lemma_first_invalid_concat(
                style,
                texts(self.description_files@),
                texts(self.folder_description_files@),
            );
        }
        let bad = match find_invalid_name(style, &self.description_files) {
            Some(i) => Some(&self.description_files[i]),
            None => match find_invalid_name(style, &self.folder_description_files) {
                Some(i) => Some(&self.folder_description_files[i]),
                None => None,
            },
        };
        if let Some(name) = bad {
            let mut message = "invalid description filename ".to_owned();
            push_str(&mut message, name.as_str());
            return Err(message);
        }
        Ok(())
    }
}

/// The UTF-8 byte order mark.
pub open spec fn bom() -> Seq<u8> {
    seq![0xefu8, 0xbbu8, 0xbfu8]
}

/// Bytes read as Latin-1: each byte is the character of the same number.
pub open spec fn latin1_text(b: Seq<u8>) -> Seq<char> {
    Seq::new(b.len(), |i: int| b[i] as char)
}

/// Text of valid UTF-8 bytes.
pub open spec fn utf8_opt(b: Seq<u8>) -> Option<Seq<char>> {
    if vstd::utf8::valid_utf8(b) {
        Some(vstd::utf8::decode_utf8(b))
    } else {
        None
    }
}

/// The text of a catalog file: a byte order mark selects UTF-8 whatever the encoding;
/// otherwise the configured encoding decodes. `None` for invalid UTF-8.
pub open spec fn decoded_description(b: Seq<u8>, encoding: DescriptionEncoding) -> Option<Seq<char>> {
    if b.len() >= 3 && b.take(3) == bom() {
        utf8_opt(b.skip(3))
    } else {
        match encoding {
            DescriptionEncoding::Latin1 => Some(latin1_text(b)),
            _ => utf8_opt(b),
        }
    }
}

/// Decodes the bytes of a catalog file.
pub fn decode_description_bytes(bytes: &[u8], encoding: DescriptionEncoding) -> (r: Result<
    String,
    ProviderError,
>)
    ensures
        match decoded_description(bytes@, encoding) {
            Some(t) => r matches Ok(s) && s@ == t,
            None => r matches Err(e) && e is Failed,
        },
{
    let has_bom = bytes.len() >= 3 && bytes[0] == 0xef && bytes[1] == 0xbb && bytes[2] == 0xbf;
    assert(has_bom == (bytes@.len() >= 3 && bytes@.take(3) == bom())) by {
        if bytes@.len() >= 3 && bytes@.take(3) == bom() {
            assert(bytes@.take(3)[0] == bytes@[0]);
            assert(bytes@.take(3)[1] == bytes@[1]);
            assert(bytes@.take(3)[2] == bytes@[2]);
        }
        if has_bom {
            assert(bytes@.take(3) =~= bom());
        }
    }
    if has_bom {
        let rest = vstd::slice::slice_subrange(bytes, 3, bytes.len());
        assert(rest@ =~= bytes@.skip(3));
        return match utf8_text(rest) {
            Ok(text) => Ok(text),
            Err(message) => Err(ProviderError::Failed(message)),
        };
    }
    match encoding {
        DescriptionEncoding::Latin1 => {
            let mut text = String::new();
            let mut i: usize = 0;
            while i < bytes.len()
                invariant
                    i <= bytes@.len(),
                    text@ =~= latin1_text(bytes@.take(i as int)),
                decreases bytes@.len() - i,
            {
                push_char(&mut text, bytes[i] as char);
                i = i + 1;
            }
            assert(bytes@.take(bytes@.len() as int) =~= bytes@);
            Ok(text)
        },
        _ => match utf8_text(bytes) {
            Ok(text) => Ok(text),
            Err(message) => Err(ProviderError::Failed(message)),
        },
    }
}

/// The `Debug` text of a character (`format!("{c:?}")`).
pub uninterp spec fn char_debug(c: char) -> Seq<char>;

/// `<char as Debug>::fmt`, through `format!`: the quoted, escaped form of a character.
#[verifier::external_body]
fn debug_char(c: char) -> (r: String)
    ensures
        r@ == char_debug(c),
{
    format!("{c:?}")
}

/// The first character that Latin-1 cannot hold, if any.
pub open spec fn first_non_latin1(t: Seq<char>) -> Option<char>
    decreases t.len(),
{
    if t.len() == 0 {
        None
    } else if (t[0] as u32) > 0xff {
        Some(t[0])
    } else {
        first_non_latin1(t.drop_first())
    }
}

/// The bytes a catalog text is written as, or the first character the encoding cannot hold.
pub open spec fn encoded_description(t: Seq<char>, encoding: DescriptionEncoding) -> Result<
    Seq<u8>,
    char,
> {
    match encoding {
        DescriptionEncoding::Utf8 => Ok(vstd::utf8::encode_utf8(t)),
        DescriptionEncoding::Utf8Bom => Ok(bom() + vstd::utf8::encode_utf8(t)),
        DescriptionEncoding::Latin1 => match first_non_latin1(t) {
            Some(c) => Err(c),
            None => Ok(Seq::new(t.len(), |i: int| (t[i] as u32) as u8)),
        },
    }
}

/// The message for a character that Latin-1 cannot hold.
pub open spec fn latin1_refusal(c: char) -> Seq<char> {
    "character "@ + char_debug(c) + " cannot be represented as Latin-1"@
}

/// Encodes a catalog text for writing.
pub fn encode_description_text(text: &str, encoding: DescriptionEncoding) -> (r: Result<
    Vec<u8>,
    ProviderError,
>)
    ensures
        match encoded_description(text@, encoding) {
            Ok(b) => r matches Ok(v) && v@ == b,
            Err(c) => r matches Err(e) && crate::local_fs::failed_with(e, latin1_refusal(c)),
        },
{
    match encoding {
        DescriptionEncoding::Utf8 => Ok(vstd::slice::slice_to_vec(text.as_bytes())),
        DescriptionEncoding::Utf8Bom => {
            let mut bytes: Vec<u8> = vec![0xef, 0xbb, 0xbf];
            let body = text.as_bytes();
            let mut i: usize = 0;
            while i < body.len()
                invariant
                    i <= body@.len(),
                    bytes@ =~= bom() + body@.take(i as int),
                decreases body@.len() - i,
            {
                bytes.push(body[i]);
                i = i + 1;
            }
            assert(body@.take(body@.len() as int) =~= body@);
            Ok(bytes)
        },
        DescriptionEncoding::Latin1 => {
            let chars = crate::text::chars_of(text);
            let mut bytes: Vec<u8> = Vec::new();
            let mut i: usize = 0;
            assert(chars@.skip(0) =~= chars@);
            while i < chars.len()
                invariant
                    i <= chars@.len(),
                    chars@ == text@,
                    encoding == DescriptionEncoding::Latin1,
                    first_non_latin1(text@) == first_non_latin1(chars@.skip(i as int)),
                    bytes@ =~= Seq::new(i as nat, |k: int| (chars@[k] as u32) as u8),
                decreases chars@.len() - i,
            {
                let c = chars[i];
                let ghost rest = chars@.skip(i as int);
                assert(rest[0] == c);
                if (c as u32) > 0xff {
                    assert(first_non_latin1(rest) == Some(c));
                    let mut message = "character ".to_owned();
                    let shown = debug_char(c);
                    push_str(&mut message, shown.as_str());
                    push_str(&mut message, " cannot be represented as Latin-1");
                    assert(message@ == latin1_refusal(c));
                    assert(first_non_latin1(text@) == Some(c));
                    return Err(ProviderError::Failed(message));
                }
                assert(rest.drop_first() =~= chars@.skip(i + 1));
                bytes.push((c as u32) as u8);
                i = i + 1;
            }
            assert(chars@.skip(i as int).len() == 0);
            Ok(bytes)
        },
    }
}

proof fn lemma_first_non_latin1_none(t: Seq<char>)
    requires
        first_non_latin1(t) is None,
    ensures
        forall|i: int| 0 <= i < t.len() ==> (#[trigger] t[i] as u32) <= 0xff,
    decreases t.len(),
{
    if t.len() > 0 {
        lemma_first_non_latin1_none(t.drop_first());
        assert forall|i: int| 0 <= i < t.len() implies (#[trigger] t[i] as u32) <= 0xff by {
            if i > 0 {
                assert(t[i] == t.drop_first()[i - 1]);
            }
        }
    }
}

proof fn lemma_scalar_lead_ef(v: u32)
    requires
        vstd::utf8::is_scalar(v),
        vstd::utf8::encode_scalar(v)[0] == 0xefu8,
    ensures
        vstd::utf8::has_width_3_encoding(v),
{
    if vstd::utf8::has_width_1_encoding(v) {
        assert(((v & 0x7f) as u8) != 0xefu8) by (bit_vector)
            requires
                v <= 0x7f,
        ;
    } else if vstd::utf8::has_width_2_encoding(v) {
        assert((0xC0 | ((v >> 6) & 0x1F) as u8) != 0xefu8) by (bit_vector)
            requires
                0x80 <= v <= 0x7ff,
        ;
    } else if !vstd::utf8::has_width_3_encoding(v) {
        assert((0xF0 | ((v >> 18) & 0x7) as u8) != 0xefu8) by (bit_vector);
    }
}

proof fn lemma_scalar_bom(v: u32)
    requires
        vstd::utf8::has_width_3_encoding(v),
        vstd::utf8::encode_scalar(v) == bom(),
    ensures
        v == 0xfeff,
{
    let e = vstd::utf8::encode_scalar(v);
    assert(e[0] == 0xefu8 && e[1] == 0xbbu8 && e[2] == 0xbfu8);
    assert(v == 0xfeff) by (bit_vector)
        requires
            (0xE0 | ((v >> 12) & 0x0F) as u8) == 0xefu8,
            (0x80 | ((v >> 6) & 0x3F) as u8) == 0xbbu8,
            (0x80 | (v & 0x3F) as u8) == 0xbfu8,
            v <= 0xffff,
    ;
}

proof fn lemma_bom_start(t: Seq<char>)
    requires
        t.len() > 0,
        vstd::utf8::encode_utf8(t).len() >= 3,
        vstd::utf8::encode_utf8(t).take(3) == bom(),
    ensures
        t[0] == '\u{feff}',
{
    let v = t[0] as u32;
    vstd::utf8::char_is_scalar(t[0]);
    let e = vstd::utf8::encode_scalar(v);
    let all = vstd::utf8::encode_utf8(t);
    assert(all == e + vstd::utf8::encode_utf8(t.drop_first()));
    assert(all.take(3)[0] == all[0]);
    assert(e.len() >= 1) by {
        assert(vstd::utf8::is_scalar(v));
    }
    assert(all[0] == e[0]);
    lemma_scalar_lead_ef(v);
    assert(e.len() == 3);
    assert(all.take(3) =~= e);
    lemma_scalar_bom(v);
    vstd::utf8::char_u32_cast(t[0], v);
}

/// A catalog text reads back as itself from the bytes it is written as, in every encoding,
/// except where those bytes begin with a byte order mark that the text did not carry: UTF-8
/// text that starts with U+FEFF, or Latin-1 text that starts with `ï»¿`.
pub proof fn law_description_encoding_round_trip(t: Seq<char>, encoding: DescriptionEncoding)
    requires
        encoded_description(t, encoding) is Ok,
        encoding == DescriptionEncoding::Utf8 ==> !(t.len() > 0 && t[0] == '\u{feff}'),
        encoding == DescriptionEncoding::Latin1 ==> !(t.len() >= 3 && t[0] == '\u{ef}' && t[1]
            == '\u{bb}' && t[2] == '\u{bf}'),
    ensures
        decoded_description(encoded_description(t, encoding)->Ok_0, encoding) == Some(t),
{
    vstd::utf8::encode_utf8_valid_utf8(t);
    vstd::utf8::encode_utf8_decode_utf8(t);
    let e = vstd::utf8::encode_utf8(t);
    match encoding {
        DescriptionEncoding::Utf8 => {
            if e.len() >= 3 && e.take(3) == bom() {
                if t.len() == 0 {
                    assert(e.len() == 0);
                }
                lemma_bom_start(t);
            }
        },
        DescriptionEncoding::Utf8Bom => {
            let b = bom() + e;
            assert(b.take(3) =~= bom());
            assert(b.skip(3) =~= e);
        },
        DescriptionEncoding::Latin1 => {
            lemma_first_non_latin1_none(t);
            let b = Seq::new(t.len(), |i: int| (t[i] as u32) as u8);
            assert forall|i: int| 0 <= i < t.len() implies (b[i] as char) == #[trigger] t[i] by {
                let v = t[i] as u32;
                assert(v <= 0xff);
                vstd::utf8::char_u32_cast(t[i], v);
            }
            assert(latin1_text(b) =~= t);
            if b.len() >= 3 && b.take(3) == bom() {
                assert(b.take(3)[0] == b[0] && b.take(3)[1] == b[1] && b.take(3)[2] == b[2]);
                assert(t[0] == (b[0] as char));
                assert(t[1] == (b[1] as char));
                assert(t[2] == (b[2] as char));
            }
        },
    }
}

/// Index of the first whitespace character.
pub open spec fn first_whitespace(s: Seq<char>) -> Option<int>
    decreases s.len(),
{
    if s.len() == 0 {
        None
    } else if spec_is_whitespace(s[0]) {
        Some(0)
    } else {
        match first_whitespace(s.drop_first()) {
            Some(k) => Some(k + 1),
            None => None,
        }
    }
}

/// A quoted name after its opening quote: `\` takes the next character literally, `"` ends
/// the name. The name and what follows the closing quote, or `None` when it is not closed.
pub open spec fn scan_quoted(r: Seq<char>) -> Option<(Seq<char>, Seq<char>)>
    decreases r.len(),
{
    if r.len() == 0 {
        None
    } else if r[0] == '\\' {
        if r.len() < 2 {
            None
        } else {
            match scan_quoted(r.skip(2)) {
                Some((n, after)) => Some((seq![r[1]] + n, after)),
                None => None,
            }
        }
    } else if r[0] == '"' {
        Some((Seq::empty(), r.skip(1)))
    } else {
        match scan_quoted(r.skip(1)) {
            Some((n, after)) => Some((seq![r[0]] + n, after)),
            None => None,
        }
    }
}

/// One catalog line as a name and its description. Blank lines and lines starting with `#`
/// or `;` carry none; a name is quoted or ends at the first whitespace; the description is
/// the trimmed rest.
pub open spec fn parsed_description_line(line: Seq<char>) -> Option<(Seq<char>, Seq<char>)> {
    let t = spec_trim(line);
    if t.len() == 0 || t[0] == '#' || t[0] == ';' {
        None
    } else if t[0] == '"' {
        match scan_quoted(t.drop_first()) {
            Some((n, after)) => Some((n, spec_trim(after))),
            None => None,
        }
    } else {
        match first_whitespace(t) {
            Some(k) => Some((t.take(k), spec_trim(t.skip(k)))),
            None => None,
        }
    }
}

fn scan_quoted_from(t: &[char], start: usize) -> (r: Option<(Vec<char>, usize)>)
    requires
        start <= t@.len(),
    ensures
        match scan_quoted(t@.skip(start as int)) {
            Some((n, after)) => r matches Some((v, j)) && v@ == n && j <= t@.len() && t@.skip(
                j as int,
            ) == after,
            None => r is None,
        },
    decreases t@.len() - start,
{
    let ghost r = t@.skip(start as int);
    if start == t.len() {
        return None;
    }
    assert(r[0] == t@[start as int]);
    if t[start] == '\\' {
        if t.len() - start < 2 {
            return None;
        }
        assert(r.skip(2) =~= t@.skip(start + 2));
        assert(r[1] == t@[start + 1]);
        match scan_quoted_from(t, start + 2) {
            Some((rest, j)) => {
                let mut name: Vec<char> = vec![t[start + 1]];
                let mut k: usize = 0;
                while k < rest.len()
                    invariant
                        k <= rest@.len(),
                        name@ =~= seq![t@[start + 1]] + rest@.take(k as int),
                    decreases rest@.len() - k,
                {
                    name.push(rest[k]);
                    k = k + 1;
                }
                assert(rest@.take(rest@.len() as int) =~= rest@);
                Some((name, j))
            },
            None => None,
        }
    } else if t[start] == '"' {
        assert(r.skip(1) =~= t@.skip(start + 1));
        let empty: Vec<char> = Vec::new();
        assert(empty@ =~= Seq::<char>::empty());
        Some((empty, start + 1))
    } else {
        assert(r.skip(1) =~= t@.skip(start + 1));
        match scan_quoted_from(t, start + 1) {
            Some((rest, j)) => {
                let mut name: Vec<char> = vec![t[start]];
                let mut k: usize = 0;
                while k < rest.len()
                    invariant
                        k <= rest@.len(),
                        name@ =~= seq![t@[start as int]] + rest@.take(k as int),
                    decreases rest@.len() - k,
                {
                    name.push(rest[k]);
                    k = k + 1;
                }
                assert(rest@.take(rest@.len() as int) =~= rest@);
                Some((name, j))
            },
            None => None,
        }
    }
}

fn first_whitespace_index(s: &[char]) -> (r: Option<usize>)
    ensures
        match first_whitespace(s@) {
            Some(k) => r == Some(k as usize) && 0 <= k < s@.len(),
            None => r is None,
        },
{
    let mut i: usize = 0;
    assert(s@.skip(0) =~= s@);
    while i < s.len()
        invariant
            i <= s@.len(),
            first_whitespace(s@) == (match first_whitespace(s@.skip(i as int)) {
                Some(k) => Some(k + i),
                None => None,
            }),
        decreases s@.len() - i,
    {
        let ghost r = s@.skip(i as int);
        assert(r[0] == s@[i as int]);
        if crate::text::is_whitespace(s[i]) {
            return Some(i);
        }
        assert(r.drop_first() =~= s@.skip(i + 1));
        i = i + 1;
    }
    assert(s@.skip(i as int).len() == 0);
    None
}

/// Reads one catalog line.
pub fn parse_description_line(line: &str) -> (r: Option<(String, String)>)
    ensures
        match parsed_description_line(line@) {
            Some((n, d)) => r matches Some((a, b)) && a@ == n && b@ == d,
            None => r is None,
        },
{
    let raw = crate::text::chars_of(line);
    let t = crate::text::trim(raw.as_slice());
    if t.len() == 0 || t[0] == '#' || t[0] == ';' {
        return None;
    }
    if t[0] == '"' {
        assert(t@.skip(1) =~= t@.drop_first());
        match scan_quoted_from(t.as_slice(), 1) {
            Some((name, j)) => {
                let after = crate::text::slice_chars(t.as_slice(), j, t.len());
                assert(after@ =~= t@.skip(j as int));
                let description = crate::text::trim(after.as_slice());
                Some(
                    (
                        crate::text::string_of(name.as_slice()),
                        crate::text::string_of(description.as_slice()),
                    ),
                )
            },
            None => None,
        }
    } else {
        match first_whitespace_index(t.as_slice()) {
            Some(k) => {
                let name = crate::text::slice_chars(t.as_slice(), 0, k);
                let after = crate::text::slice_chars(t.as_slice(), k, t.len());
                assert(name@ =~= t@.take(k as int));
                assert(after@ =~= t@.skip(k as int));
                let description = crate::text::trim(after.as_slice());
                Some(
                    (
                        crate::text::string_of(name.as_slice()),
                        crate::text::string_of(description.as_slice()),
                    ),
                )
            },
            None => None,
        }
    }
}

/// Whether a catalog name must be quoted: it holds whitespace or a double quote.
pub open spec fn needs_quotes(name: Seq<char>) -> bool {
    exists|i: int| 0 <= i < name.len() && (spec_is_whitespace(#[trigger] name[i]) || name[i] == '"')
}

/// A name as a catalog writes it: quoted, with `\"` for each quote, when it must be.
pub open spec fn rendered_name(name: Seq<char>) -> Seq<char> {
    if needs_quotes(name) {
        seq!['"'] + replaced(name, '"', seq!['\\', '"']) + seq!['"']
    } else {
        name
    }
}

proof fn lemma_first_whitespace_after(name: Seq<char>, rest: Seq<char>)
    requires
        forall|i: int| 0 <= i < name.len() ==> !spec_is_whitespace(#[trigger] name[i]),
        rest.len() > 0,
        spec_is_whitespace(rest[0]),
    ensures
        first_whitespace(name + rest) == Some(name.len() as int),
    decreases name.len(),
{
    let s = name + rest;
    if name.len() == 0 {
        assert(s =~= rest);
    } else {
        assert(s[0] == name[0]);
        assert(s.drop_first() =~= name.drop_first() + rest);
        assert forall|i: int| 0 <= i < name.drop_first().len() implies !spec_is_whitespace(
            #[trigger] name.drop_first()[i],
        ) by {
            assert(name.drop_first()[i] == name[i + 1]);
        }
        lemma_first_whitespace_after(name.drop_first(), rest);
    }
}

/// A catalog line written for a plain name (one that needs no quotes and does not start a
/// comment) and a description with no surrounding whitespace reads back as that name and
/// description.
pub proof fn law_description_line_round_trip(name: Seq<char>, description: Seq<char>)
    requires
        name.len() > 0,
        !needs_quotes(name),
        name[0] != '#' && name[0] != ';',
        description.len() > 0,
        !spec_is_whitespace(description[0]),
        !spec_is_whitespace(description.last()),
    ensures
        parsed_description_line(catalog_line(name, description)) == Some((name, description)),
{
    let line = catalog_line(name, description);
    assert(rendered_name(name) == name);
    assert(line =~= name + (seq![' '] + description));
    assert forall|i: int| 0 <= i < name.len() implies !spec_is_whitespace(#[trigger] name[i]) by {
        if spec_is_whitespace(name[i]) {
            assert(needs_quotes(name));
        }
    }
    assert(line[0] == name[0]);
    crate::text::lemma_leading_ws_char(line, 0);
    assert(line.skip(0) =~= line);
    assert(line.last() == description.last());
    crate::text::lemma_trailing_ws_char(line, 0);
    assert(line.take(line.len() as int) =~= line);
    assert(spec_trim(line) == line);
    assert(spec_is_whitespace(' ')) by {
        assert((' ' as u32) == 0x20);
    }
    lemma_first_whitespace_after(name, seq![' '] + description);
    assert(line.take(name.len() as int) =~= name);
    let after = line.skip(name.len() as int);
    assert(after =~= seq![' '] + description);
    crate::text::lemma_leading_ws_char(after, 1);
    assert(after.skip(1) =~= description);
    crate::text::lemma_trailing_ws_char(description, 0);
    assert(description.take(description.len() as int) =~= description);
}

/// One catalog line, without its line break.
pub open spec fn catalog_line(name: Seq<char>, description: Seq<char>) -> Seq<char> {
    rendered_name(name) + seq![' '] + description
}

/// A catalog written entry by entry, one line each.
pub open spec fn catalog_text(names: Seq<Seq<char>>, descriptions: Seq<Seq<char>>) -> Seq<char>
    decreases names.len(),
{
    if names.len() == 0 {
        Seq::empty()
    } else {
        catalog_text(names.drop_last(), descriptions.drop_last()) + catalog_line(
            names.last(),
            descriptions.last(),
        ) + seq!['\n']
    }
}

/// The texts of a catalog's descriptions, in key order.
pub open spec fn catalog_descriptions(catalog: &StrMap<String>) -> Seq<Seq<char>> {
    texts(catalog.values())
}

fn render_name(name: &str) -> (r: String)
    ensures
        r@ == rendered_name(name@),
{
    let chars = crate::text::chars_of(name);
    let mut quote = false;
    let mut i: usize = 0;
    while i < chars.len()
        invariant
            i <= chars@.len(),
            chars@ == name@,
            quote == exists|j: int|
                0 <= j < i && (spec_is_whitespace(#[trigger] chars@[j]) || chars@[j] == '"'),
        decreases chars@.len() - i,
    {
        if crate::text::is_whitespace(chars[i]) || chars[i] == '"' {
            quote = true;
        }
        i = i + 1;
    }
    if quote {
        proof {
            reveal_strlit("\\\"");
        }
        let mut out = String::new();
        push_char(&mut out, '"');
        let inner = crate::text::replace_char(name, '"', "\\\"");
        assert("\\\""@ =~= seq!['\\', '"']);
        push_str(&mut out, inner.as_str());
        push_char(&mut out, '"');
        assert(out@ =~= rendered_name(name@));
        out
    } else {
        name.to_owned()
    }
}

/// Writes a catalog, one `name description` line per entry in name order.
pub fn render_description_catalog(catalog: &StrMap<String>) -> (r: String)
    ensures
        r@ == catalog_text(catalog.keys(), catalog_descriptions(catalog)),
{
    let mut body = String::new();
    let mut i: usize = 0;
    let n = catalog.len();
    while i < n
        invariant
            n == catalog.keys().len(),
            n == catalog.values().len(),
            i <= n,
            body@ == catalog_text(
                catalog.keys().take(i as int),
                catalog_descriptions(catalog).take(i as int),
            ),
        decreases n - i,
    {
        let name = catalog.key_at(i);
        let description = catalog.value_at(i);
        let shown = render_name(name.as_str());
        push_str(&mut body, shown.as_str());
        push_char(&mut body, ' ');
        push_str(&mut body, description.as_str());
        push_char(&mut body, '\n');
        proof {
            let ks = catalog.keys().take(i + 1);
            let ds = catalog_descriptions(catalog).take(i + 1);
            assert(ks.drop_last() =~= catalog.keys().take(i as int));
            assert(ds.drop_last() =~= catalog_descriptions(catalog).take(i as int));
            assert(ks.last() == name@);
            assert(ds.last() == description@);
        }
        i = i + 1;
    }
    proof {
        assert(catalog.keys().take(n as int) =~= catalog.keys());
        assert(catalog_descriptions(catalog).take(n as int) =~= catalog_descriptions(catalog));
    }
    body
}

/// A description update: a non-blank description is recorded for the name, anything else
/// removes the name's entry.
pub open spec fn updated_catalog(
    catalog: Map<Seq<char>, String>,
    name: Seq<char>,
    description: Option<String>,
) -> Map<Seq<char>, String> {
    match description {
        Some(d) => if spec_trim(d@).len() > 0 {
            catalog.insert(name, d)
        } else {
            catalog.remove(name)
        },
        None => catalog.remove(name),
    }
}

/// Records or removes the description of one name in a catalog.
pub fn apply_description_update(
    catalog: &mut StrMap<String>,
    name: &str,
    description: Option<String>,
)
    ensures
        final(catalog).map() == updated_catalog(old(catalog).map(), name@, description),
{
    match description {
        Some(d) => {
            if crate::text::trim_is_empty(d.as_str()) {
                catalog.remove(name);
            } else {
                catalog.insert(name.to_owned(), d);
            }
        },
        None => {
            catalog.remove(name);
        },
    }
}

/// Description edits are refused when the settings disable them.
pub fn description_update_allowed(policy: DescriptionUpdatePolicy) -> (r: Result<(), ProviderError>)
    ensures
        r is Ok <==> policy == DescriptionUpdatePolicy::Always,
        r matches Err(e) ==> e matches ProviderError::Unsupported(m) && m@
            == "description updates are disabled"@,
{
    match policy {
        DescriptionUpdatePolicy::Disabled => Err(
            ProviderError::Unsupported("description updates are disabled".to_owned()),
        ),
        DescriptionUpdatePolicy::Always => Ok(()),
    }
}

/// Index of the first configured catalog name that exists as a file.
pub open spec fn first_present(present: Seq<bool>) -> Option<int>
    decreases present.len(),
{
    if present.len() == 0 {
        None
    } else if present[0] {
        Some(0)
    } else {
        match first_present(present.drop_first()) {
            Some(i) => Some(i + 1),
            None => None,
        }
    }
}

/// The catalog file of a folder: the first configured name that exists as a file there,
/// otherwise the first configured name.
pub open spec fn chosen_catalog_index(present: Seq<bool>) -> int {
    match first_present(present) {
        Some(i) => i,
        None => 0,
    }
}

/// Picks the catalog file among the configured names, given which of them exist as files.
pub fn choose_catalog_file<'a>(settings: &'a DescriptionSettings, present: &[bool]) -> (r: &'a String)
    requires
        settings.description_files@.len() > 0,
        present@.len() == settings.description_files@.len(),
    ensures
        *r == settings.description_files@[chosen_catalog_index(present@)],
{
    let mut i: usize = 0;
    while i < present.len()
        invariant
            i <= present@.len(),
            present@.len() == settings.description_files@.len(),
            forall|j: int| 0 <= j < i ==> !present@[j],
        decreases present@.len() - i,
    {
        if present[i] {
            proof {
                lemma_chosen_first(present@, i as int);
            }
            return &settings.description_files[i];
        }
        i = i + 1;
    }
    proof {
        lemma_chosen_none(present@);
    }
    &settings.description_files[0]
}

proof fn lemma_chosen_first(present: Seq<bool>, i: int)
    requires
        0 <= i < present.len(),
        present[i],
        forall|j: int| 0 <= j < i ==> !present[j],
    ensures
        first_present(present) == Some(i),
    decreases i,
{
    if i > 0 {
        assert forall|j: int| 0 <= j < i - 1 implies !present.drop_first()[j] by {
            assert(present.drop_first()[j] == present[j + 1]);
        }
        lemma_chosen_first(present.drop_first(), i - 1);
    }
}

proof fn lemma_chosen_none(present: Seq<bool>)
    requires
        forall|j: int| 0 <= j < present.len() ==> !present[j],
    ensures
        first_present(present) is None,
    decreases present.len(),
{
    if present.len() > 0 {
        assert forall|j: int| 0 <= j < present.len() - 1 implies !present.drop_first()[j] by {
            assert(present.drop_first()[j] == present[j + 1]);
        }
        lemma_chosen_none(present.drop_first());
    }
}

/// The local provider together with its description settings.
#[derive(Clone, Debug)]
pub struct DescribedLocalFileProvider {
    settings: DescriptionSettings,
}

impl DescribedLocalFileProvider {
    pub fn new(settings: DescriptionSettings) -> (r: Self)
        ensures
            r.spec_settings() == settings,
    {
        DescribedLocalFileProvider { settings }
    }

    pub closed spec fn spec_settings(&self) -> DescriptionSettings {
        self.settings
    }

    pub fn settings(&self) -> (r: &DescriptionSettings)
        ensures
            *r == self.spec_settings(),
    {
        &self.settings
    }
}

} // verus!
