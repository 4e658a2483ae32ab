//! The local filesystem provider: reversible `file://` identities for native paths,
//! display names, native references and mutation policy.
//!
//! A native path is held as its exact platform representation: the bytes of a Unix path or
//! the UTF-16 code units of a Windows path. Its location is `file://` followed by the
//! percent-encoded native bytes (UTF-16LE on Windows), so every path has a location and every
//! location decodes back to exactly the path it was made from.

use vstd::prelude::*;

use crate::ids::ProviderId;
use crate::provider::ProviderError;
use crate::resource::{
    file_scheme_bytes, Location, MutationAlternative, MutationDenial, MutationEligibility,
    MutationKind, ResourceClassification, ResourceRef,
};
use crate::provider::provider_error_text;
use crate::resource::ResourceKind;
use crate::execution::{ConflictDecision, ConflictResolver};
use crate::ops::{OperationPlan, PlannedItem};
use crate::text::{hex_pair, push_char, push_str, replaced};

verus! {

broadcast use vstd::string::group_string_axioms;

/// The identifier of the local filesystem provider.
pub open spec fn local_provider_id() -> Seq<char> {
    seq!['n', 'e', 'a', 'r', '.', 'l', 'o', 'c', 'a', 'l', '-', 'f', 's']
}

/// `file://` as characters.
pub open spec fn file_prefix() -> Seq<char> {
    seq!['f', 'i', 'l', 'e', ':', '/', '/']
}

/// The path conventions of a platform.
#[derive(Clone, Copy, Debug, PartialEq, Eq, Structural)]
pub enum PathStyle {
    Unix,
    Windows,
}

/// A native path in its exact platform representation.
#[derive(Debug, PartialEq, Eq)]
pub enum NativePath {
    /// The bytes of a Unix path.
    Unix(Vec<u8>),
    /// The UTF-16 code units of a Windows path.
    Windows(Vec<u16>),
}

/// The mathematical value of a native path.
pub enum NativePathView {
    Unix(Seq<u8>),
    Windows(Seq<u16>),
}

impl View for NativePath {
    type V = NativePathView;

    open spec fn view(&self) -> NativePathView {
        match self {
            NativePath::Unix(b) => NativePathView::Unix(b@),
            NativePath::Windows(u) => NativePathView::Windows(u@),
        }
    }
}

impl Clone for NativePath {
    fn clone(&self) -> (r: Self)
        ensures
            r@ == self@,
    {
        match self {
            NativePath::Unix(b) => NativePath::Unix(b.clone()),
            NativePath::Windows(u) => NativePath::Windows(u.clone()),
        }
    }
}

/// The style a native path belongs to.
pub open spec fn view_style(p: NativePathView) -> PathStyle {
    match p {
        NativePathView::Unix(_) => PathStyle::Unix,
        NativePathView::Windows(_) => PathStyle::Windows,
    }
}

/// UTF-16 code units written as little-endian byte pairs.
pub open spec fn le_bytes(units: Seq<u16>) -> Seq<u8> {
    Seq::new(
        2 * units.len(),
        |j: int|
            if j % 2 == 0 {
                (units[j / 2] % 256) as u8
            } else {
                (units[j / 2] / 256) as u8
            },
    )
}

/// Little-endian byte pairs read back as UTF-16 code units.
pub open spec fn le_units(bytes: Seq<u8>) -> Seq<u16> {
    Seq::new(bytes.len() / 2, |i: int| (bytes[2 * i] + 256 * bytes[2 * i + 1]) as u16)
}

/// The bytes a native path is encoded from in its location.
pub open spec fn native_bytes_of(p: NativePathView) -> Seq<u8> {
    match p {
        NativePathView::Unix(b) => b,
        NativePathView::Windows(u) => le_bytes(u),
    }
}

/// What can be wrong with a location that should name a local path.
#[derive(Clone, Copy, Debug, PartialEq, Eq, Structural)]
pub enum PathFault {
    NotFileUri,
    TruncatedEscape,
    InvalidEscape,
    OddWideLength,
}

/// The message of a path fault.
pub open spec fn path_fault_message(f: PathFault) -> Seq<char> {
    match f {
        PathFault::NotFileUri => "location is not a file URI"@,
        PathFault::TruncatedEscape => "truncated file URI escape"@,
        PathFault::InvalidEscape => "invalid file URI escape"@,
        PathFault::OddWideLength => "Windows path encoding has an odd byte length"@,
    }
}

/// The native path of a style that the given bytes stand for.
pub open spec fn native_from_bytes(style: PathStyle, bytes: Seq<u8>) -> Result<
    NativePathView,
    PathFault,
> {
    match style {
        PathStyle::Unix => Ok(NativePathView::Unix(bytes)),
        PathStyle::Windows => if bytes.len() % 2 != 0 {
            Err(PathFault::OddWideLength)
        } else {
            Ok(NativePathView::Windows(le_units(bytes)))
        },
    }
}

/// Bytes that appear in a location as themselves: ASCII letters and digits and `-._~/`.
pub open spec fn unreserved_byte(b: u8) -> bool {
    (48 <= b && b <= 57) || (65 <= b && b <= 90) || (97 <= b && b <= 122) || b == 45 || b == 46
        || b == 95 || b == 126 || b == 47
}

/// An upper-case hexadecimal digit.
pub open spec fn upper_hex(d: int) -> char {
    if d < 10 {
        (48 + d) as char
    } else {
        (55 + d) as char
    }
}

/// One byte in a location: itself when unreserved, otherwise `%` and two upper-case digits.
pub open spec fn percent_escape(b: u8) -> Seq<char> {
    if unreserved_byte(b) {
        seq![b as char]
    } else {
        seq!['%', upper_hex((b / 16) as int), upper_hex((b % 16) as int)]
    }
}

/// Percent-encoding of a byte sequence.
pub open spec fn percent_encoded(bytes: Seq<u8>) -> Seq<char>
    decreases bytes.len(),
{
    if bytes.len() == 0 {
        Seq::empty()
    } else {
        percent_escape(bytes[0]) + percent_encoded(bytes.drop_first())
    }
}

/// Decoding of the UTF-8 bytes of an encoded location path. A `%` must be followed by two
/// characters that read as a hexadecimal byte; the escape is truncated when fewer than two
/// bytes follow or the second of them does not end a character.
pub open spec fn percent_decoded(b: Seq<u8>) -> Result<Seq<u8>, PathFault>
    decreases b.len(),
{
    if b.len() == 0 {
        Ok(Seq::empty())
    } else if b[0] == 37u8 {
        if b.len() < 3 || (b.len() > 3 && vstd::utf8::is_continuation_byte(b[3])) {
            Err(PathFault::TruncatedEscape)
        } else {
            match hex_pair(b[1], b[2]) {
                None => Err(PathFault::InvalidEscape),
                Some(v) => match percent_decoded(b.skip(3)) {
                    Ok(rest) => Ok(seq![v] + rest),
                    Err(f) => Err(f),
                },
            }
        }
    } else {
        match percent_decoded(b.skip(1)) {
            Ok(rest) => Ok(seq![b[0]] + rest),
            Err(f) => Err(f),
        }
    }
}

/// The location of a native path.
pub open spec fn location_of(p: NativePathView) -> Seq<char> {
    file_prefix() + percent_encoded(native_bytes_of(p))
}

/// The native path of a given style that a location names.
pub open spec fn path_of(location: Seq<char>, style: PathStyle) -> Result<NativePathView, PathFault> {
    let b = vstd::utf8::encode_utf8(location);
    if !(b.len() >= 7 && b.take(7) == file_scheme_bytes()) {
        Err(PathFault::NotFileUri)
    } else {
        match percent_decoded(b.skip(7)) {
            Err(f) => Err(f),
            Ok(bytes) => native_from_bytes(style, bytes),
        }
    }
}

/// `ProviderError::Failed` carrying exactly the given message.
pub open spec fn failed_with(e: ProviderError, message: Seq<char>) -> bool {
    e matches ProviderError::Failed(m) && m@ == message
}

/// The error a path fault is reported as.
pub open spec fn reports_fault(e: ProviderError, f: PathFault) -> bool {
    failed_with(e, path_fault_message(f))
}

proof fn lemma_percent_encoded_concat(a: Seq<u8>, b: Seq<u8>)
    ensures
        percent_encoded(a + b) == percent_encoded(a) + percent_encoded(b),
    decreases a.len(),
{
    if a.len() == 0 {
        assert(a + b =~= b);
    } else {
        lemma_percent_encoded_concat(a.drop_first(), b);
        assert((a + b).drop_first() =~= a.drop_first() + b);
    }
}

/// The bytes of a percent-encoded sequence: every character is ASCII.
pub open spec fn ascii_bytes(chars: Seq<char>) -> Seq<u8> {
    Seq::new(chars.len(), |i: int| chars[i] as u8)
}

proof fn lemma_escape_ascii(b: u8)
    ensures
        vstd::utf8::is_ascii_chars(percent_escape(b)),
        percent_escape(b).len() == 1 || percent_escape(b).len() == 3,
{
}

proof fn lemma_encoded_ascii(bytes: Seq<u8>)
    ensures
        vstd::utf8::is_ascii_chars(percent_encoded(bytes)),
    decreases bytes.len(),
{
    if bytes.len() > 0 {
        lemma_encoded_ascii(bytes.drop_first());
        lemma_escape_ascii(bytes[0]);
        let e = percent_escape(bytes[0]);
        let r = percent_encoded(bytes.drop_first());
        assert forall|i: int| 0 <= i < (e + r).len() implies '\0' <= #[trigger] (e + r)[i] <= '\u{7f}' by {
            if i < e.len() {
                assert((e + r)[i] == e[i]);
            } else {
                assert((e + r)[i] == r[i - e.len()]);
            }
        }
    }
}

proof fn lemma_decode_encoded(bytes: Seq<u8>, tail: Seq<u8>)
    requires
        tail.len() == 0 || tail[0] < 128,
    ensures
        percent_decoded(ascii_bytes(percent_encoded(bytes)) + tail) == (match percent_decoded(tail) {
            Ok(t) => Ok(bytes + t),
            Err(f) => Err(f),
        }),
    decreases bytes.len(),
{
    if bytes.len() == 0 {
        assert(ascii_bytes(percent_encoded(bytes)) + tail =~= tail);
        assert(bytes + Seq::<u8>::empty() =~= Seq::<u8>::empty());
        match percent_decoded(tail) {
            Ok(t) => {
                assert(bytes + t =~= t);
            },
            Err(_) => {},
        }
    } else {
        let x = bytes[0];
        let rest = bytes.drop_first();
        lemma_encoded_ascii(rest);
        let er = percent_encoded(rest);
        let tail2 = ascii_bytes(er) + tail;
        assert(tail2.len() == 0 || tail2[0] < 128) by {
            if er.len() > 0 {
                assert(tail2[0] == er[0] as u8);
                assert('\0' <= er[0] <= '\u{7f}');
            }
        }
        lemma_decode_encoded(rest, tail);
        let e = percent_escape(x);
        assert(ascii_bytes(e + er) =~= ascii_bytes(e) + ascii_bytes(er));
        let whole = ascii_bytes(percent_encoded(bytes)) + tail;
        assert(whole =~= ascii_bytes(e) + tail2);
        if unreserved_byte(x) {
            assert(whole[0] == x);
            assert(whole.skip(1) =~= tail2);
        } else {
            let hi = x / 16;
            let lo = x % 16;
            assert(whole[0] == 37u8);
            assert(whole[1] == upper_hex(hi as int) as u8);
            assert(whole[2] == upper_hex(lo as int) as u8);
            assert(whole.skip(3) =~= tail2);
            assert(whole.len() > 3 ==> whole[3] < 128);
            assert(hex_pair(whole[1], whole[2]) == Some(x));
        }
        match percent_decoded(tail) {
            Ok(t) => {
                assert(seq![x] + (rest + t) =~= bytes + t);
            },
            Err(_) => {},
        }
    }
}

proof fn lemma_le_round_trip(units: Seq<u16>)
    ensures
        le_units(le_bytes(units)) == units,
        le_bytes(units).len() % 2 == 0,
{
    let b = le_bytes(units);
    assert forall|i: int| 0 <= i < units.len() implies #[trigger] le_units(b)[i] == units[i] by {
        assert((2 * i) % 2 == 0);
        assert((2 * i + 1) % 2 == 1);
        assert((2 * i) / 2 == i);
        assert((2 * i + 1) / 2 == i);
        let u = units[i];
        assert(b[2 * i] == (u % 256) as u8);
        assert(b[2 * i + 1] == (u / 256) as u8);
        assert((u % 256) + 256 * (u / 256) == u);
    }
    assert(le_units(b) =~= units);
}

/// A location names exactly the path it was made from: decoding the location of a path, in
/// the path's own style, gives the path back.
pub proof fn law_location_round_trip(p: NativePathView)
    ensures
        path_of(location_of(p), view_style(p)) == Ok::<NativePathView, PathFault>(p),
{
    let bytes = native_bytes_of(p);
    let enc = percent_encoded(bytes);
    let loc = file_prefix() + enc;
    lemma_encoded_ascii(bytes);
    assert(vstd::utf8::is_ascii_chars(loc)) by {
        assert forall|i: int| 0 <= i < loc.len() implies '\0' <= #[trigger] loc[i] <= '\u{7f}' by {
            if i >= 7 {
                assert(loc[i] == enc[i - 7]);
            }
        }
    }
    vstd::utf8::is_ascii_chars_encode_utf8(loc);
    let b = vstd::utf8::encode_utf8(loc);
    assert(b =~= ascii_bytes(loc));
    assert(b.take(7) =~= file_scheme_bytes());
    assert(b.skip(7) =~= ascii_bytes(enc) + Seq::<u8>::empty());
    lemma_decode_encoded(bytes, Seq::<u8>::empty());
    assert(bytes + Seq::<u8>::empty() =~= bytes);
    match p {
        NativePathView::Unix(_) => {},
        NativePathView::Windows(u) => {
            lemma_le_round_trip(u);
        },
    }
}

/// The style of a native path.
pub fn path_style(path: &NativePath) -> (r: PathStyle)
    ensures
        r == view_style(path@),
{
    match path {
        NativePath::Unix(_) => PathStyle::Unix,
        NativePath::Windows(_) => PathStyle::Windows,
    }
}

/// The bytes a native path is encoded from: a Unix path's own bytes, a Windows path's code
/// units as little-endian pairs.
pub fn native_bytes(path: &NativePath) -> (r: Vec<u8>)
    ensures
        r@ == native_bytes_of(path@),
{
    match path {
        NativePath::Unix(b) => b.clone(),
        NativePath::Windows(units) => {
            let mut out: Vec<u8> = Vec::new();
            let mut i: usize = 0;
            while i < units.len()
                invariant
                    i <= units@.len(),
                    out@ =~= le_bytes(units@.take(i as int)),
                decreases units@.len() - i,
            {
                let u = units[i];
                out.push((u % 256) as u8);
                out.push((u / 256) as u8);
                i = i + 1;
                proof {
                    let t = units@.take(i as int);
                    assert forall|j: int| 0 <= j < 2 * t.len() implies #[trigger] out@[j] == le_bytes(t)[j] by {
                        if j < 2 * (i - 1) {
                            assert(units@.take(i - 1)[j / 2] == t[j / 2]);
                        }
                    }
                }
            }
            assert(units@.take(units@.len() as int) =~= units@);
            out
        },
    }
}

/// The native path of a style that bytes stand for (`OsString` from native bytes).
pub fn native_string(style: PathStyle, bytes: &[u8]) -> (r: Result<NativePath, ProviderError>)
    ensures
        match native_from_bytes(style, bytes@) {
            Ok(v) => r matches Ok(p) && p@ == v,
            Err(f) => r matches Err(e) && reports_fault(e, f),
        },
{
    match style {
        PathStyle::Unix => {
            let v = vstd::slice::slice_to_vec(bytes);
            assert(NativePath::Unix(v)@ == NativePathView::Unix(bytes@));
            Ok(NativePath::Unix(v))
        },
        PathStyle::Windows => {
            if bytes.len() % 2 != 0 {
                return Err(
                    ProviderError::Failed(
                        "Windows path encoding has an odd byte length".to_owned(),
                    ),
                );
            }
            let mut units: Vec<u16> = Vec::new();
            let mut i: usize = 0;
            while i < bytes.len() / 2
                invariant
                    bytes@.len() % 2 == 0,
                    i <= bytes@.len() / 2,
                    units@ =~= le_units(bytes@).take(i as int),
                decreases bytes@.len() / 2 - i,
            {
                let lo = bytes[2 * i] as u16;
                let hi = bytes[2 * i + 1] as u16;
                units.push(lo + 256 * hi);
                i = i + 1;
            }
            assert(le_units(bytes@).take(i as int) =~= le_units(bytes@));
            Ok(NativePath::Windows(units))
        },
    }
}

/// An upper-case hexadecimal digit.
fn upper_hex_char(d: u8) -> (r: char)
    requires
        d < 16,
    ensures
        r == upper_hex(d as int),
{
    if d < 10 {
        (48 + d) as char
    } else {
        (55 + d) as char
    }
}

/// Percent-encodes bytes for a location: unreserved bytes stay, others become `%XX`.
pub fn percent_encode(bytes: &[u8]) -> (r: String)
    ensures
        r@ == percent_encoded(bytes@),
{
    let mut encoded = String::new();
    let mut i: usize = 0;
    while i < bytes.len()
        invariant
            i <= bytes@.len(),
            encoded@ == percent_encoded(bytes@.take(i as int)),
        decreases bytes@.len() - i,
    {
        let b = bytes[i];
        if (48 <= b && b <= 57) || (65 <= b && b <= 90) || (97 <= b && b <= 122) || b == 45 || b
            == 46 || b == 95 || b == 126 || b == 47 {
            push_char(&mut encoded, b as char);
        } else {
            push_char(&mut encoded, '%');
            push_char(&mut encoded, upper_hex_char(b / 16));
            push_char(&mut encoded, upper_hex_char(b % 16));
        }
        proof {
            lemma_percent_encoded_concat(bytes@.take(i as int), seq![b]);
            assert(bytes@.take(i as int) + seq![b] =~= bytes@.take(i + 1));
            assert(percent_encoded(seq![b]) =~= percent_escape(b)) by {
                assert(seq![b].drop_first() =~= Seq::<u8>::empty());
                assert(percent_encoded(Seq::<u8>::empty()) =~= Seq::<char>::empty());
                assert(percent_escape(b) + Seq::<char>::empty() =~= percent_escape(b));
            }
        }
        i = i + 1;
    }
    assert(bytes@.take(bytes@.len() as int) =~= bytes@);
    encoded
}

/// Decodes the bytes of an encoded location path from `start` on.
pub fn percent_decode(bytes: &[u8], start: usize) -> (r: Result<Vec<u8>, PathFault>)
    requires
        start <= bytes@.len(),
    ensures
        r matches Ok(v) ==> percent_decoded(bytes@.skip(start as int)) == Ok::<Seq<u8>, PathFault>(v@),
        r matches Err(f) ==> percent_decoded(bytes@.skip(start as int)) == Err::<Seq<u8>, PathFault>(f)
            && (f == PathFault::TruncatedEscape || f == PathFault::InvalidEscape),
{
    let mut decoded: Vec<u8> = Vec::new();
    let mut index = start;
    while index < bytes.len()
        invariant
            start <= index <= bytes@.len(),
            percent_decoded(bytes@.skip(start as int)) == (match percent_decoded(
                bytes@.skip(index as int),
            ) {
                Ok(t) => Ok(decoded@ + t),
                Err(f) => Err(f),
            }),
        decreases bytes@.len() - index,
    {
        let rest = Ghost(bytes@.skip(index as int));
        if bytes[index] == 37u8 {
            if bytes.len() - index < 3 || (bytes.len() - index > 3 && bytes[index + 3] >= 128
                && bytes[index + 3] < 192) {
                assert(rest@.len() > 3 ==> rest@[3] == bytes@[index + 3]);
                return Err(PathFault::TruncatedEscape);
            }
            match crate::text::parse_hex_pair(bytes[index + 1], bytes[index + 2]) {
                None => {
                    return Err(PathFault::InvalidEscape);
                },
                Some(v) => {
                    proof {
                        assert(rest@.skip(3) =~= bytes@.skip(index + 3));
                        match percent_decoded(rest@.skip(3)) {
                            Ok(t) => {
                                assert(decoded@ + (seq![v] + t) =~= decoded@.push(v) + t);
                            },
                            Err(_) => {},
                        }
                    }
                    decoded.push(v);
                    index = index + 3;
                },
            }
        } else {
            proof {
                assert(rest@.skip(1) =~= bytes@.skip(index + 1));
                match percent_decoded(rest@.skip(1)) {
                    Ok(t) => {
                        assert(decoded@ + (seq![rest@[0]] + t) =~= decoded@.push(rest@[0]) + t);
                    },
                    Err(_) => {},
                }
            }
            decoded.push(bytes[index]);
            index = index + 1;
        }
    }
    assert(bytes@.skip(index as int) =~= Seq::<u8>::empty());
    assert(decoded@ + Seq::<u8>::empty() =~= decoded@);
    Ok(decoded)
}

/// The local filesystem provider of one platform's path conventions.
#[derive(Clone, Copy, Debug, PartialEq, Eq)]
pub struct LocalFileProvider {
    pub style: PathStyle,
}

/// A reference to a resource of the local provider.
pub open spec fn is_local_resource(r: ResourceRef, p: NativePathView) -> bool {
    r.provider@ == local_provider_id() && r.location@ == location_of(p)
}

impl LocalFileProvider {
    /// The provider for the given path conventions.
    pub fn new(style: PathStyle) -> (r: Self)
        ensures
            r.style == style,
    {
        LocalFileProvider { style }
    }

    /// The provider identifier, `near.local-fs`.
    pub fn id() -> (r: ProviderId)
        ensures
            r@ == local_provider_id(),
    {
        proof {
            reveal_strlit("near.local-fs");
        }
        ProviderId::new("near.local-fs")
    }

    /// The location of a native path: `file://` and its percent-encoded native bytes.
    pub fn location(path: &NativePath) -> (r: Location)
        ensures
            r@ == location_of(path@),
    {
        let bytes = native_bytes(path);
        let encoded = percent_encode(bytes.as_slice());
        let mut text = "file://".to_owned();
        proof {
            reveal_strlit("file://");
        }
        push_str(&mut text, encoded.as_str());
        Location::from_string(text)
    }

    /// Decodes a location into the exact native path it names.
    pub fn path(&self, location: &Location) -> (r: Result<NativePath, ProviderError>)
        ensures
            match path_of(location@, self.style) {
                Ok(v) => r matches Ok(p) && p@ == v,
                Err(f) => r matches Err(e) && reports_fault(e, f),
            },
    {
        local_path(location, self.style)
    }

    /// The local resource of a native path.
    pub fn resource_for_path(path: &NativePath) -> (r: ResourceRef)
        ensures
            is_local_resource(r, path@),
    {
        ResourceRef { provider: Self::id(), location: Self::location(path) }
    }
}

/// Encodes a native path as a local provider location.
pub fn local_location(path: &NativePath) -> (r: Location)
    ensures
        r@ == location_of(path@),
{
    LocalFileProvider::location(path)
}

/// Decodes a local file location into the native path of a style.
pub fn local_path(location: &Location, style: PathStyle) -> (r: Result<NativePath, ProviderError>)
    ensures
        match path_of(location@, style) {
            Ok(v) => r matches Ok(p) && p@ == v,
            Err(f) => r matches Err(e) && reports_fault(e, f),
        },
{
    let bytes = location.as_str().as_bytes();
    let prefix: [u8; 7] = [102u8, 105u8, 108u8, 101u8, 58u8, 47u8, 47u8];
    assert(prefix@ =~= file_scheme_bytes());
    if !crate::resource::bytes_start_with(bytes, &prefix) {
        return Err(ProviderError::Failed("location is not a file URI".to_owned()));
    }
    match percent_decode(bytes, 7) {
        Err(PathFault::TruncatedEscape) => Err(
            ProviderError::Failed("truncated file URI escape".to_owned()),
        ),
        Err(_) => {
            proof {
                reveal_strlit("invalid file URI escape");
            }
            Err(ProviderError::Failed("invalid file URI escape".to_owned()))
        },
        Ok(decoded) => native_string(style, decoded.as_slice()),
    }
}

/// Creates a local provider resource reference for a native path.
pub fn local_resource(path: &NativePath) -> (r: ResourceRef)
    ensures
        is_local_resource(r, path@),
{
    LocalFileProvider::resource_for_path(path)
}

/// UTF-16 code units of one character.
pub open spec fn utf16_of_char(c: char) -> Seq<u16> {
    let v = c as u32;
    if v < 0x10000 {
        seq![v as u16]
    } else {
        seq![(0xD800 + (v - 0x10000) / 1024) as u16, (0xDC00 + (v - 0x10000) % 1024) as u16]
    }
}

/// UTF-16 encoding of a character sequence.
pub open spec fn utf16_encoded(s: Seq<char>) -> Seq<u16>
    decreases s.len(),
{
    if s.len() == 0 {
        Seq::empty()
    } else {
        utf16_of_char(s[0]) + utf16_encoded(s.drop_first())
    }
}

proof fn lemma_utf16_concat(a: Seq<char>, b: Seq<char>)
    ensures
        utf16_encoded(a + b) == utf16_encoded(a) + utf16_encoded(b),
    decreases a.len(),
{
    if a.len() == 0 {
        assert(a + b =~= b);
    } else {
        lemma_utf16_concat(a.drop_first(), b);
        assert((a + b).drop_first() =~= a.drop_first() + b);
    }
}

/// The native path that a text names in a style: its UTF-8 bytes on Unix, its UTF-16 code
/// units on Windows.
pub open spec fn native_of_text(style: PathStyle, text: Seq<char>) -> NativePathView {
    match style {
        PathStyle::Unix => NativePathView::Unix(vstd::utf8::encode_utf8(text)),
        PathStyle::Windows => NativePathView::Windows(utf16_encoded(text)),
    }
}

/// Path separators of Windows.
pub open spec fn windows_separator(c: char) -> bool {
    c == '/' || c == '\\'
}

/// Index of the first Windows separator, or the length when there is none.
pub open spec fn first_windows_separator(s: Seq<char>) -> int
    decreases s.len(),
{
    if s.len() == 0 {
        0
    } else if windows_separator(s[0]) {
        0
    } else {
        1 + first_windows_separator(s.drop_first())
    }
}

proof fn lemma_first_separator_bounds(s: Seq<char>)
    ensures
        0 <= first_windows_separator(s) <= s.len(),
    decreases s.len(),
{
    if s.len() > 0 {
        lemma_first_separator_bounds(s.drop_first());
    }
}

/// A UNC root after the leading separators: a non-empty server, a separator, a non-empty share.
pub open spec fn unc_root(r: Seq<char>) -> bool {
    let i = first_windows_separator(r);
    0 < i && i < r.len() && first_windows_separator(r.skip(i + 1)) > 0
}

/// Whether a text is an absolute Windows path: a drive letter, `:` and a separator; or two
/// separators followed by a verbatim (`\\?\`), device (`\\.\`) or UNC (`\\server\share`)
/// prefix.
pub open spec fn windows_absolute(s: Seq<char>) -> bool {
    if s.len() >= 2 && windows_separator(s[0]) && windows_separator(s[1]) {
        let r = s.skip(2);
        if s[0] == '\\' && s[1] == '\\' && r.len() >= 2 && r[0] == '?' && r[1] == '\\' {
            true
        } else if r.len() >= 2 && r[0] == '.' && windows_separator(r[1]) {
            true
        } else {
            unc_root(r)
        }
    } else {
        s.len() >= 3 && (('a' <= s[0] && s[0] <= 'z') || ('A' <= s[0] && s[0] <= 'Z')) && s[1]
            == ':' && windows_separator(s[2])
    }
}

/// Whether a text is an absolute path in a style.
pub open spec fn is_absolute(style: PathStyle, s: Seq<char>) -> bool {
    match style {
        PathStyle::Unix => s.len() > 0 && s[0] == '/',
        PathStyle::Windows => windows_absolute(s),
    }
}

/// UTF-16 code units of a string.
pub fn utf16_units(text: &str) -> (r: Vec<u16>)
    ensures
        r@ == utf16_encoded(text@),
{
    let chars = crate::text::chars_of(text);
    let mut units: Vec<u16> = Vec::new();
    let mut i: usize = 0;
    while i < chars.len()
        invariant
            i <= chars@.len(),
            chars@ == text@,
            units@ == utf16_encoded(chars@.take(i as int)),
        decreases chars@.len() - i,
    {
        let c = chars[i];
        let v = c as u32;
        proof {
            lemma_utf16_concat(chars@.take(i as int), seq![c]);
            assert(chars@.take(i as int) + seq![c] =~= chars@.take(i + 1));
            assert(seq![c].drop_first() =~= Seq::<char>::empty());
            assert(utf16_encoded(Seq::<char>::empty()) =~= Seq::<u16>::empty());
            assert(utf16_of_char(c) + Seq::<u16>::empty() =~= utf16_of_char(c));
            assert(utf16_encoded(seq![c]) =~= utf16_of_char(c));
        }
        if v < 0x10000 {
            units.push(v as u16);
        } else {
            assert(v <= 0x10FFFF) by {
                vstd::utf8::char_is_scalar(c);
            }
            let w = v - 0x10000;
            units.push((0xD800 + w / 1024) as u16);
            units.push((0xDC00 + w % 1024) as u16);
        }
        i = i + 1;
    }
    assert(chars@.take(chars@.len() as int) =~= chars@);
    units
}

/// The native path a text names in a style.
pub fn native_path_from_text(style: PathStyle, text: &str) -> (r: NativePath)
    ensures
        r@ == native_of_text(style, text@),
{
    match style {
        PathStyle::Unix => NativePath::Unix(vstd::slice::slice_to_vec(text.as_bytes())),
        PathStyle::Windows => NativePath::Windows(utf16_units(text)),
    }
}

fn is_windows_separator(c: char) -> (r: bool)
    ensures
        r == windows_separator(c),
{
    c == '/' || c == '\\'
}

fn first_separator_from(s: &[char], start: usize) -> (r: usize)
    requires
        start <= s@.len(),
    ensures
        r == start + first_windows_separator(s@.skip(start as int)),
        start <= r <= s@.len(),
    decreases s@.len() - start,
{
    proof {
        lemma_first_separator_bounds(s@.skip(start as int));
    }
    if start == s.len() {
        assert(s@.skip(start as int).len() == 0);
        start
    } else if is_windows_separator(s[start]) {
        start
    } else {
        assert(s@.skip(start as int).drop_first() =~= s@.skip(start + 1));
        first_separator_from(s, start + 1)
    }
}

/// Whether a text is an absolute path in a style (`Path::is_absolute`).
pub fn text_is_absolute(style: PathStyle, text: &str) -> (r: bool)
    ensures
        r == is_absolute(style, text@),
{
    let s = crate::text::chars_of(text);
    match style {
        PathStyle::Unix => s.len() > 0 && s[0] == '/',
        PathStyle::Windows => {
            if s.len() >= 2 && is_windows_separator(s[0]) && is_windows_separator(s[1]) {
                let ghost r = s@.skip(2);
                if s[0] == '\\' && s[1] == '\\' && s.len() >= 4 && s[2] == '?' && s[3] == '\\' {
                    true
                } else if s.len() >= 4 && s[2] == '.' && is_windows_separator(s[3]) {
                    true
                } else {
                    let i = first_separator_from(s.as_slice(), 2);
                    if i == 2 || i == s.len() {
                        false
                    } else {
                        assert(r.skip(i - 2 + 1) =~= s@.skip(i + 1));
                        let j = first_separator_from(s.as_slice(), i + 1);
                        j > i + 1
                    }
                }
            } else {
                s.len() >= 3 && (('a' <= s[0] && s[0] <= 'z') || ('A' <= s[0] && s[0] <= 'Z'))
                    && s[1] == ':' && is_windows_separator(s[2])
            }
        },
    }
}

impl LocalFileProvider {
    /// Claims a native path reference: an absolute path of this provider's style is a local
    /// resource, any other text is not a native reference.
    pub fn parse_native_reference(&self, reference: &str) -> (r: Result<
        Option<ResourceRef>,
        ProviderError,
    >)
        ensures
            r matches Ok(found) && (found is Some <==> is_absolute(self.style, reference@))
                && (found matches Some(res) ==> is_local_resource(
                res,
                native_of_text(self.style, reference@),
            )),
    {
        if text_is_absolute(self.style, reference) {
            let path = native_path_from_text(self.style, reference);
            Ok(Some(Self::resource_for_path(&path)))
        } else {
            Ok(None)
        }
    }
}

/// `std::str::from_utf8`: the text of valid UTF-8 bytes, or the standard library's account of
/// why they are not valid. The standard library documents that it fails exactly on invalid
/// UTF-8 and otherwise borrows the bytes as text.
#[verifier::external_body]
pub(crate) fn utf8_text(bytes: &[u8]) -> (r: Result<String, String>)
    ensures
        r is Ok <==> vstd::utf8::valid_utf8(bytes@),
        r matches Ok(t) ==> t@ == vstd::utf8::decode_utf8(bytes@),
{
    match std::str::from_utf8(bytes) {
        Ok(text) => Ok(text.to_owned()),
        Err(error) => Err(error.to_string()),
    }
}

/// The text that `String::from_utf16` decodes from UTF-16 code units, when they are valid.
pub uninterp spec fn utf16_decoded(units: Seq<u16>) -> Option<Seq<char>>;

/// `String::from_utf16`: the text of valid UTF-16 code units. The standard library documents
/// that it fails when the units hold invalid data, and that a success re-encodes to them.
#[verifier::external_body]
fn utf16_text(units: &[u16]) -> (r: Option<String>)
    ensures
        r matches Some(t) ==> utf16_decoded(units@) == Some(t@) && utf16_encoded(t@) == units@,
        r is None ==> utf16_decoded(units@) is None,
        (exists|c: Seq<char>| utf16_encoded(c) == units@) ==> r is Some,
{
    String::from_utf16(units).ok()
}

/// Control characters (`char::is_control`, general category Cc).
pub open spec fn is_control(c: char) -> bool {
    (c as u32) < 0x20 || (0x7f <= (c as u32) && (c as u32) <= 0x9f)
}

/// `\x` and two upper-case hexadecimal digits of a value below 256.
pub open spec fn hex_escape(v: int) -> Seq<char> {
    seq!['\\', 'x', upper_hex(v / 16), upper_hex(v % 16)]
}

/// One character of a displayed name: backslashes doubled, control characters as `\xHH`.
pub open spec fn escape_char(c: char) -> Seq<char> {
    if c == '\\' {
        seq!['\\', '\\']
    } else if is_control(c) {
        hex_escape((c as u32) as int)
    } else {
        seq![c]
    }
}

/// A displayed name of text.
pub open spec fn escape_text(s: Seq<char>) -> Seq<char>
    decreases s.len(),
{
    if s.len() == 0 {
        Seq::empty()
    } else {
        escape_char(s[0]) + escape_text(s.drop_first())
    }
}

/// One byte of a displayed name that is not text: printable ASCII other than a backslash as
/// itself, a backslash doubled, anything else as `\xHH`.
pub open spec fn escape_byte(b: u8) -> Seq<char> {
    if 32 <= b && b <= 126 && b != 92 {
        seq![b as char]
    } else if b == 92 {
        seq!['\\', '\\']
    } else {
        hex_escape(b as int)
    }
}

/// A displayed name of bytes that are not text.
pub open spec fn escape_bytes(b: Seq<u8>) -> Seq<char>
    decreases b.len(),
{
    if b.len() == 0 {
        Seq::empty()
    } else {
        escape_byte(b[0]) + escape_bytes(b.drop_first())
    }
}

/// The displayed form of a native name: its text escaped when it is text, otherwise its
/// native bytes escaped.
pub open spec fn escaped_name(p: NativePathView) -> Seq<char> {
    match p {
        NativePathView::Unix(b) => if vstd::utf8::valid_utf8(b) {
            escape_text(vstd::utf8::decode_utf8(b))
        } else {
            escape_bytes(b)
        },
        NativePathView::Windows(u) => match utf16_decoded(u) {
            Some(t) => escape_text(t),
            None => escape_bytes(le_bytes(u)),
        },
    }
}

/// What can be wrong with a displayed name that should be unescaped.
#[derive(Clone, Copy, Debug, PartialEq, Eq, Structural)]
pub enum NameFault {
    TruncatedEscape,
    InvalidEscape,
}

/// The message of a name fault.
pub open spec fn name_fault_message(f: NameFault) -> Seq<char> {
    match f {
        NameFault::TruncatedEscape => "truncated filename escape"@,
        NameFault::InvalidEscape => "invalid filename escape"@,
    }
}

/// Reading back the UTF-8 bytes of a displayed name: `\\` is a backslash, `\xHH` one byte
/// (truncated when fewer than two bytes follow or the second does not end a character), any
/// other backslash is invalid, and every other byte stands for itself.
pub open spec fn unescaped(b: Seq<u8>) -> Result<Seq<u8>, NameFault>
    decreases b.len(),
{
    if b.len() == 0 {
        Ok(Seq::empty())
    } else if b[0] != 92u8 {
        match unescaped(b.skip(1)) {
            Ok(t) => Ok(seq![b[0]] + t),
            Err(f) => Err(f),
        }
    } else if b.len() >= 2 && b[1] == 92u8 {
        match unescaped(b.skip(2)) {
            Ok(t) => Ok(seq![92u8] + t),
            Err(f) => Err(f),
        }
    } else if b.len() >= 2 && b[1] == 120u8 {
        if b.len() < 4 || (b.len() > 4 && vstd::utf8::is_continuation_byte(b[4])) {
            Err(NameFault::TruncatedEscape)
        } else {
            match hex_pair(b[2], b[3]) {
                None => Err(NameFault::InvalidEscape),
                Some(v) => match unescaped(b.skip(4)) {
                    Ok(t) => Ok(seq![v] + t),
                    Err(f) => Err(f),
                },
            }
        }
    } else {
        Err(NameFault::InvalidEscape)
    }
}

/// The native name of a style that a displayed name reads back as.
pub open spec fn unescape_result(display: Seq<char>, style: PathStyle) -> Result<
    NativePathView,
    Seq<char>,
> {
    match unescaped(vstd::utf8::encode_utf8(display)) {
        Err(f) => Err(name_fault_message(f)),
        Ok(bytes) => match native_from_bytes(style, bytes) {
            Ok(p) => Ok(p),
            Err(f) => Err(path_fault_message(f)),
        },
    }
}

/// Whether a text holds a C1 control character (U+0080 to U+009F), whose `\xHH` display
/// reads back as a single byte rather than its UTF-8 encoding.
pub open spec fn has_c1_control(s: Seq<char>) -> bool {
    exists|i: int| 0 <= i < s.len() && 0x80 <= (#[trigger] s[i] as u32) && (s[i] as u32) <= 0x9f
}

proof fn lemma_encode_utf8_concat(a: Seq<char>, b: Seq<char>)
    ensures
        vstd::utf8::encode_utf8(a + b) == vstd::utf8::encode_utf8(a) + vstd::utf8::encode_utf8(b),
    decreases a.len(),
{
    if a.len() == 0 {
        assert(a + b =~= b);
        assert(vstd::utf8::encode_utf8(a) =~= Seq::<u8>::empty());
        assert(Seq::<u8>::empty() + vstd::utf8::encode_utf8(b) =~= vstd::utf8::encode_utf8(b));
    } else {
        lemma_encode_utf8_concat(a.drop_first(), b);
        assert((a + b).drop_first() =~= a.drop_first() + b);
        assert((a + b)[0] == a[0]);
    }
}

proof fn lemma_scalar_bytes(c: char)
    ensures
        ({
            let e = vstd::utf8::encode_scalar(c as u32);
            &&& 1 <= e.len() <= 4
            &&& !vstd::utf8::is_continuation_byte(e[0])
            &&& ((c as u32) < 0x80 ==> e == seq![(c as u32) as u8])
            &&& (c != '\\' ==> forall|i: int| 0 <= i < e.len() ==> #[trigger] e[i] != 92u8)
        }),
{
    let v = c as u32;
    vstd::utf8::char_is_scalar(c);
    if v <= 0x7f {
        assert((v & 0x7f) as u8 == v as u8) by (bit_vector)
            requires
                v <= 0x7f,
        ;
    } else if v <= 0x7ff {
        assert((0xC0 | ((v >> 6) & 0x1F) as u8) >= 0xC0) by (bit_vector);
        assert((0x80 | (v & 0x3F) as u8) >= 0x80) by (bit_vector);
    } else if v <= 0xffff {
        assert((0xE0 | ((v >> 12) & 0x0F) as u8) >= 0xE0) by (bit_vector);
        assert((0x80 | ((v >> 6) & 0x3F) as u8) >= 0x80) by (bit_vector);
        assert((0x80 | (v & 0x3F) as u8) >= 0x80) by (bit_vector);
    } else {
        assert((0xF0 | ((v >> 18) & 0x7) as u8) >= 0xF0) by (bit_vector);
        assert((0x80 | ((v >> 12) & 0x3F) as u8) >= 0x80) by (bit_vector);
        assert((0x80 | ((v >> 6) & 0x3F) as u8) >= 0x80) by (bit_vector);
        assert((0x80 | (v & 0x3F) as u8) >= 0x80) by (bit_vector);
    }
}

proof fn lemma_encode_first_byte(s: Seq<char>)
    requires
        s.len() > 0,
    ensures
        vstd::utf8::encode_utf8(s).len() > 0,
        !vstd::utf8::is_continuation_byte(vstd::utf8::encode_utf8(s)[0]),
{
    lemma_scalar_bytes(s[0]);
    let e = vstd::utf8::encode_scalar(s[0] as u32);
    assert(vstd::utf8::encode_utf8(s)[0] == e[0]);
}

proof fn lemma_unescape_copy(p: Seq<u8>, rest: Seq<u8>)
    requires
        forall|i: int| 0 <= i < p.len() ==> #[trigger] p[i] != 92u8,
    ensures
        unescaped(p + rest) == (match unescaped(rest) {
            Ok(t) => Ok(p + t),
            Err(f) => Err(f),
        }),
    decreases p.len(),
{
    if p.len() == 0 {
        assert(p + rest =~= rest);
        match unescaped(rest) {
            Ok(t) => {
                assert(p + t =~= t);
            },
            Err(_) => {},
        }
    } else {
        lemma_unescape_copy(p.drop_first(), rest);
        assert((p + rest).skip(1) =~= p.drop_first() + rest);
        match unescaped(rest) {
            Ok(t) => {
                assert(seq![p[0]] + (p.drop_first() + t) =~= p + t);
            },
            Err(_) => {},
        }
    }
}

proof fn lemma_hex_escape_reads_back(v: int, rest: Seq<u8>)
    requires
        0 <= v < 256,
        rest.len() == 0 || !vstd::utf8::is_continuation_byte(rest[0]),
    ensures
        vstd::utf8::is_ascii_chars(hex_escape(v)),
        unescaped(ascii_bytes(hex_escape(v)) + rest) == (match unescaped(rest) {
            Ok(t) => Ok(seq![v as u8] + t),
            Err(f) => Err(f),
        }),
{
    let b = ascii_bytes(hex_escape(v)) + rest;
    assert(b[0] == 92u8);
    assert(b[1] == 120u8);
    assert(b[2] == upper_hex(v / 16) as u8);
    assert(b[3] == upper_hex(v % 16) as u8);
    assert(hex_pair(b[2], b[3]) == Some(v as u8));
    assert(b.skip(4) =~= rest);
    assert(b.len() > 4 ==> b[4] == rest[0]);
}

proof fn lemma_unescape_escaped_bytes(bytes: Seq<u8>, tail: Seq<u8>)
    requires
        tail.len() == 0 || !vstd::utf8::is_continuation_byte(tail[0]),
    ensures
        vstd::utf8::is_ascii_chars(escape_bytes(bytes)),
        unescaped(ascii_bytes(escape_bytes(bytes)) + tail) == (match unescaped(tail) {
            Ok(t) => Ok(bytes + t),
            Err(f) => Err(f),
        }),
    decreases bytes.len(),
{
    if bytes.len() == 0 {
        assert(ascii_bytes(escape_bytes(bytes)) + tail =~= tail);
        match unescaped(tail) {
            Ok(t) => {
                assert(bytes + t =~= t);
            },
            Err(_) => {},
        }
    } else {
        let x = bytes[0];
        let rest = bytes.drop_first();
        lemma_unescape_escaped_bytes(rest, tail);
        let er = escape_bytes(rest);
        let e = escape_byte(x);
        let tail2 = ascii_bytes(er) + tail;
        assert(tail2.len() == 0 || !vstd::utf8::is_continuation_byte(tail2[0])) by {
            if er.len() > 0 {
                assert(tail2[0] == er[0] as u8);
                assert('\0' <= er[0] <= '\u{7f}');
            }
        }
        assert(ascii_bytes(e + er) =~= ascii_bytes(e) + ascii_bytes(er));
        let whole = ascii_bytes(escape_bytes(bytes)) + tail;
        assert(whole =~= ascii_bytes(e) + tail2);
        if 32 <= x && x <= 126 && x != 92 {
            assert(whole[0] == x);
            assert(whole.skip(1) =~= tail2);
        } else if x == 92 {
            assert(whole[0] == 92u8 && whole[1] == 92u8);
            assert(whole.skip(2) =~= tail2);
        } else {
            lemma_hex_escape_reads_back(x as int, tail2);
            assert(whole =~= ascii_bytes(hex_escape(x as int)) + tail2);
        }
        assert forall|i: int| 0 <= i < (e + er).len() implies '\0' <= #[trigger] (e + er)[i] <= '\u{7f}' by {
            if i < e.len() {
                assert((e + er)[i] == e[i]);
            } else {
                assert((e + er)[i] == er[i - e.len()]);
            }
        }
        match unescaped(tail) {
            Ok(t) => {
                assert(seq![x] + (rest + t) =~= bytes + t);
            },
            Err(_) => {},
        }
    }
}

proof fn lemma_unescape_escaped_text(s: Seq<char>, tail: Seq<u8>)
    requires
        !has_c1_control(s),
        tail.len() == 0 || !vstd::utf8::is_continuation_byte(tail[0]),
    ensures
        unescaped(vstd::utf8::encode_utf8(escape_text(s)) + tail) == (match unescaped(tail) {
            Ok(t) => Ok(vstd::utf8::encode_utf8(s) + t),
            Err(f) => Err(f),
        }),
    decreases s.len(),
{
    if s.len() == 0 {
        assert(vstd::utf8::encode_utf8(escape_text(s)) + tail =~= tail);
        match unescaped(tail) {
            Ok(t) => {
                assert(vstd::utf8::encode_utf8(s) + t =~= t);
            },
            Err(_) => {},
        }
    } else {
        let c = s[0];
        let rest = s.drop_first();
        assert(!has_c1_control(rest)) by {
            assert forall|i: int| 0 <= i < rest.len() implies !(0x80 <= (#[trigger] rest[i] as u32)
                && (rest[i] as u32) <= 0x9f) by {
                assert(rest[i] == s[i + 1]);
            }
        }
        assert(!(0x80 <= (c as u32) && (c as u32) <= 0x9f)) by {
            assert(s[0] == c);
        }
        lemma_unescape_escaped_text(rest, tail);
        let er = vstd::utf8::encode_utf8(escape_text(rest));
        let tail2 = er + tail;
        assert(tail2.len() == 0 || !vstd::utf8::is_continuation_byte(tail2[0])) by {
            if rest.len() > 0 {
                assert(escape_text(rest).len() > 0);
                lemma_encode_first_byte(escape_text(rest));
                assert(tail2[0] == er[0]);
            }
        }
        let e = escape_char(c);
        lemma_encode_utf8_concat(e, escape_text(rest));
        let whole = vstd::utf8::encode_utf8(escape_text(s)) + tail;
        assert(whole =~= vstd::utf8::encode_utf8(e) + tail2);
        lemma_scalar_bytes(c);
        let cs = vstd::utf8::encode_scalar(c as u32);
        assert(vstd::utf8::encode_utf8(s) == cs + vstd::utf8::encode_utf8(rest));
        if c == '\\' {
            vstd::utf8::is_ascii_chars_encode_utf8(e);
            assert(vstd::utf8::encode_utf8(e) =~= seq![92u8, 92u8]);
            assert(whole.skip(2) =~= tail2);
            assert(cs =~= seq![92u8]);
        } else if is_control(c) {
            lemma_hex_escape_reads_back((c as u32) as int, tail2);
            vstd::utf8::is_ascii_chars_encode_utf8(e);
            assert(vstd::utf8::encode_utf8(e) =~= ascii_bytes(e));
            assert(cs =~= seq![((c as u32) as int) as u8]);
        } else {
            assert(e =~= seq![c]);
            assert(vstd::utf8::encode_utf8(e) =~= cs) by {
                assert(seq![c].drop_first() =~= Seq::<char>::empty());
                assert(seq![c][0] == c);
                assert(vstd::utf8::encode_utf8(Seq::<char>::empty()) =~= Seq::<u8>::empty());
                assert(cs + Seq::<u8>::empty() =~= cs);
            }
            lemma_unescape_copy(cs, tail2);
        }
        match unescaped(tail) {
            Ok(t) => {
                assert(cs + (vstd::utf8::encode_utf8(rest) + t) =~= vstd::utf8::encode_utf8(s) + t);
            },
            Err(_) => {},
        }
    }
}

/// A displayed Unix name reads back as exactly the name's bytes, unless the name is text
/// holding a C1 control character.
pub proof fn law_unix_name_display_round_trip(bytes: Seq<u8>)
    requires
        !(vstd::utf8::valid_utf8(bytes) && has_c1_control(vstd::utf8::decode_utf8(bytes))),
    ensures
        unescape_result(escaped_name(NativePathView::Unix(bytes)), PathStyle::Unix) == Ok::<
            NativePathView,
            Seq<char>,
        >(NativePathView::Unix(bytes)),
{
    let shown = escaped_name(NativePathView::Unix(bytes));
    if vstd::utf8::valid_utf8(bytes) {
        let text = vstd::utf8::decode_utf8(bytes);
        lemma_unescape_escaped_text(text, Seq::<u8>::empty());
        assert(vstd::utf8::encode_utf8(shown) + Seq::<u8>::empty() =~= vstd::utf8::encode_utf8(shown));
        vstd::utf8::decode_utf8_encode_utf8(bytes);
        assert(vstd::utf8::encode_utf8(text) + Seq::<u8>::empty() =~= bytes);
    } else {
        lemma_unescape_escaped_bytes(bytes, Seq::<u8>::empty());
        vstd::utf8::is_ascii_chars_encode_utf8(shown);
        assert(vstd::utf8::encode_utf8(shown) =~= ascii_bytes(shown));
        assert(ascii_bytes(shown) + Seq::<u8>::empty() =~= ascii_bytes(shown));
        assert(bytes + Seq::<u8>::empty() =~= bytes);
    }
}

proof fn lemma_escape_text_snoc(a: Seq<char>, c: char)
    ensures
        escape_text(a.push(c)) == escape_text(a) + escape_char(c),
    decreases a.len(),
{
    if a.len() == 0 {
        assert(a.push(c) =~= seq![c]);
        assert(seq![c].drop_first() =~= Seq::<char>::empty());
        assert(seq![c][0] == c);
        assert(escape_text(Seq::<char>::empty()) =~= Seq::<char>::empty());
        assert(escape_char(c) + Seq::<char>::empty() =~= escape_char(c));
        assert(Seq::<char>::empty() + escape_char(c) =~= escape_char(c));
    } else {
        lemma_escape_text_snoc(a.drop_first(), c);
        assert(a.push(c).drop_first() =~= a.drop_first().push(c));
        assert(a.push(c)[0] == a[0]);
        assert(escape_text(a.push(c)) =~= escape_text(a) + escape_char(c));
    }
}

proof fn lemma_escape_bytes_snoc(a: Seq<u8>, b: u8)
    ensures
        escape_bytes(a.push(b)) == escape_bytes(a) + escape_byte(b),
    decreases a.len(),
{
    if a.len() == 0 {
        assert(a.push(b) =~= seq![b]);
        assert(seq![b].drop_first() =~= Seq::<u8>::empty());
        assert(seq![b][0] == b);
        assert(escape_bytes(Seq::<u8>::empty()) =~= Seq::<char>::empty());
        assert(escape_byte(b) + Seq::<char>::empty() =~= escape_byte(b));
        assert(Seq::<char>::empty() + escape_byte(b) =~= escape_byte(b));
    } else {
        lemma_escape_bytes_snoc(a.drop_first(), b);
        assert(a.push(b).drop_first() =~= a.drop_first().push(b));
        assert(a.push(b)[0] == a[0]);
        assert(escape_bytes(a.push(b)) =~= escape_bytes(a) + escape_byte(b));
    }
}

fn push_hex_escape(out: &mut String, v: u32)
    requires
        v < 256,
    ensures
        final(out)@ == old(out)@ + hex_escape(v as int),
{
    push_char(out, '\\');
    push_char(out, 'x');
    push_char(out, upper_hex_char((v / 16) as u8));
    push_char(out, upper_hex_char((v % 16) as u8));
    assert(final(out)@ =~= old(out)@ + hex_escape(v as int));
}

fn escape_text_into(text: &str) -> (r: String)
    ensures
        r@ == escape_text(text@),
{
    let chars = crate::text::chars_of(text);
    let mut out = String::new();
    let mut i: usize = 0;
    while i < chars.len()
        invariant
            i <= chars@.len(),
            chars@ == text@,
            out@ == escape_text(chars@.take(i as int)),
        decreases chars@.len() - i,
    {
        let c = chars[i];
        let v = c as u32;
        if c == '\\' {
            push_char(&mut out, '\\');
            push_char(&mut out, '\\');
        } else if v < 0x20 || (0x7f <= v && v <= 0x9f) {
            push_hex_escape(&mut out, v);
        } else {
            push_char(&mut out, c);
        }
        proof {
            lemma_escape_text_snoc(chars@.take(i as int), c);
            assert(chars@.take(i as int).push(c) =~= chars@.take(i + 1));
        }
        i = i + 1;
    }
    assert(chars@.take(chars@.len() as int) =~= chars@);
    out
}

fn escape_bytes_into(bytes: &[u8]) -> (r: String)
    ensures
        r@ == escape_bytes(bytes@),
{
    let mut out = String::new();
    let mut i: usize = 0;
    while i < bytes.len()
        invariant
            i <= bytes@.len(),
            out@ == escape_bytes(bytes@.take(i as int)),
        decreases bytes@.len() - i,
    {
        let b = bytes[i];
        if 32 <= b && b <= 126 && b != 92 {
            push_char(&mut out, b as char);
        } else if b == 92 {
            push_char(&mut out, '\\');
            push_char(&mut out, '\\');
        } else {
            push_hex_escape(&mut out, b as u32);
        }
        proof {
            lemma_escape_bytes_snoc(bytes@.take(i as int), b);
            assert(bytes@.take(i as int).push(b) =~= bytes@.take(i + 1));
        }
        i = i + 1;
    }
    assert(bytes@.take(bytes@.len() as int) =~= bytes@);
    out
}

/// The displayed form of a native name: its text with backslashes doubled and control
/// characters as `\xHH`, or, when the name is not text, its native bytes with everything but
/// printable ASCII as `\xHH`.
pub fn escape_name(name: &NativePath) -> (r: String)
    ensures
        r@ == escaped_name(name@),
{
    match name {
        NativePath::Unix(bytes) => match utf8_text(bytes.as_slice()) {
            Ok(text) => escape_text_into(text.as_str()),
            Err(_) => escape_bytes_into(bytes.as_slice()),
        },
        NativePath::Windows(units) => match utf16_text(units.as_slice()) {
            Some(text) => escape_text_into(text.as_str()),
            None => {
                let bytes = native_bytes(name);
                escape_bytes_into(bytes.as_slice())
            },
        },
    }
}

fn unescape_bytes(b: &[u8]) -> (r: Result<Vec<u8>, NameFault>)
    ensures
        r matches Ok(v) ==> unescaped(b@) == Ok::<Seq<u8>, NameFault>(v@),
        r matches Err(f) ==> unescaped(b@) == Err::<Seq<u8>, NameFault>(f),
{
    let mut out: Vec<u8> = Vec::new();
    let mut i: usize = 0;
    proof {
        assert(b@.skip(0) =~= b@);
        match unescaped(b@) {
            Ok(t) => {
                assert(out@ + t =~= t);
            },
            Err(_) => {},
        }
    }
    while i < b.len()
        invariant
            i <= b@.len(),
            unescaped(b@) == (match unescaped(b@.skip(i as int)) {
                Ok(t) => Ok(out@ + t),
                Err(f) => Err(f),
            }),
        decreases b@.len() - i,
    {
        let rest = Ghost(b@.skip(i as int));
        let n = b.len() - i;
        if b[i] != 92 {
            proof {
                assert(rest@.skip(1) =~= b@.skip(i + 1));
                match unescaped(rest@.skip(1)) {
                    Ok(t) => {
                        assert(out@ + (seq![rest@[0]] + t) =~= out@.push(rest@[0]) + t);
                    },
                    Err(_) => {},
                }
            }
            out.push(b[i]);
            i = i + 1;
        } else if n >= 2 && b[i + 1] == 92 {
            proof {
                assert(rest@.skip(2) =~= b@.skip(i + 2));
                match unescaped(rest@.skip(2)) {
                    Ok(t) => {
                        assert(out@ + (seq![92u8] + t) =~= out@.push(92u8) + t);
                    },
                    Err(_) => {},
                }
            }
            out.push(92);
            i = i + 2;
        } else if n >= 2 && b[i + 1] == 120 {
            if n < 4 || (n > 4 && b[i + 4] >= 128 && b[i + 4] < 192) {
                assert(rest@.len() > 4 ==> rest@[4] == b@[i + 4]);
                return Err(NameFault::TruncatedEscape);
            }
            match crate::text::parse_hex_pair(b[i + 2], b[i + 3]) {
                None => {
                    return Err(NameFault::InvalidEscape);
                },
                Some(v) => {
                    proof {
                        assert(rest@.skip(4) =~= b@.skip(i + 4));
                        match unescaped(rest@.skip(4)) {
                            Ok(t) => {
                                assert(out@ + (seq![v] + t) =~= out@.push(v) + t);
                            },
                            Err(_) => {},
                        }
                    }
                    out.push(v);
                    i = i + 4;
                },
            }
        } else {
            return Err(NameFault::InvalidEscape);
        }
    }
    assert(b@.skip(i as int) =~= Seq::<u8>::empty());
    assert(out@ + Seq::<u8>::empty() =~= out@);
    Ok(out)
}

/// Reverses `escape_name` into exact native name bytes of a style.
pub fn unescape_name(display: &str, style: PathStyle) -> (r: Result<NativePath, ProviderError>)
    ensures
        match unescape_result(display@, style) {
            Ok(v) => r matches Ok(p) && p@ == v,
            Err(m) => failed_with(r->Err_0, m) && r is Err,
        },
{
    match unescape_bytes(display.as_bytes()) {
        Ok(bytes) => native_string(style, bytes.as_slice()),
        Err(NameFault::TruncatedEscape) => Err(
            ProviderError::Failed("truncated filename escape".to_owned()),
        ),
        Err(NameFault::InvalidEscape) => Err(
            ProviderError::Failed("invalid filename escape".to_owned()),
        ),
    }
}

/// A resource belongs to the local provider, or is refused as another provider's.
pub fn ensure_provider(resource: &ResourceRef) -> (r: Result<(), ProviderError>)
    ensures
        r is Ok <==> resource.provider@ == local_provider_id(),
        r matches Err(e) ==> e matches ProviderError::Unsupported(m) && m@ == "resource belongs to "@
            + resource.provider@,
{
    let id = LocalFileProvider::id();
    if resource.provider.same(&id) {
        Ok(())
    } else {
        let mut message = "resource belongs to ".to_owned();
        push_str(&mut message, resource.provider.as_str());
        Err(ProviderError::Unsupported(message))
    }
}

/// What the filesystem reports about a path before it is classified for mutation.
#[derive(Clone, Copy, Debug, PartialEq, Eq, Structural)]
pub struct LocalPathFacts {
    /// The path names a platform mount namespace root, such as a folder of `/Volumes`.
    pub mount_namespace_root: bool,
    pub symlink: bool,
    /// The path has no parent, or is its own parent.
    pub filesystem_root: bool,
    /// The path is a protected Trash root.
    pub protected_trash_root: bool,
    /// A block or character device, FIFO or socket.
    pub special_device: bool,
    pub file_or_directory: bool,
}

/// The classification of a path from what the filesystem reports, first match winning.
pub open spec fn classification_of(f: LocalPathFacts) -> ResourceClassification {
    if f.mount_namespace_root {
        ResourceClassification::MountRoot
    } else if f.symlink {
        ResourceClassification::Symlink
    } else if f.filesystem_root {
        ResourceClassification::FilesystemRoot
    } else if f.protected_trash_root {
        ResourceClassification::MountRoot
    } else if f.special_device {
        ResourceClassification::UnsupportedSpecial
    } else if f.file_or_directory {
        ResourceClassification::Ordinary
    } else {
        ResourceClassification::UnsupportedSpecial
    }
}

/// Classifies a local path for mutation policy.
pub fn classify_local_path(facts: &LocalPathFacts) -> (r: ResourceClassification)
    ensures
        r == classification_of(*facts),
{
    if facts.mount_namespace_root {
        ResourceClassification::MountRoot
    } else if facts.symlink {
        ResourceClassification::Symlink
    } else if facts.filesystem_root {
        ResourceClassification::FilesystemRoot
    } else if facts.protected_trash_root {
        ResourceClassification::MountRoot
    } else if facts.special_device {
        ResourceClassification::UnsupportedSpecial
    } else if facts.file_or_directory {
        ResourceClassification::Ordinary
    } else {
        ResourceClassification::UnsupportedSpecial
    }
}

/// The reason and alternative with which a mutation is denied, or `None` when it is allowed.
pub open spec fn mutation_denial(
    location: Seq<char>,
    mutation: MutationKind,
    classification: Result<ResourceClassification, ProviderError>,
    regular_file: bool,
) -> Option<(Seq<char>, Option<MutationAlternative>)> {
    match classification {
        Err(e) => Some(("cannot classify resource before mutation: "@ + provider_error_text(e), None)),
        Ok(c) => if mutation == MutationKind::Wipe && c == ResourceClassification::Ordinary
            && !regular_file {
            Some(("wipe supports regular files only"@, None))
        } else {
            match c {
                ResourceClassification::Ordinary => None,
                ResourceClassification::Symlink => None,
                ResourceClassification::MountRoot => Some(
                    (
                        "cannot mutate mounted volume "@ + location
                            + "; eject or unmount it instead"@,
                        Some(MutationAlternative::Unmount),
                    ),
                ),
                ResourceClassification::RemovableDevice => Some(
                    (
                        "cannot mutate a removable device root; eject it instead"@,
                        Some(MutationAlternative::Eject),
                    ),
                ),
                ResourceClassification::ProviderRoot => Some(
                    (
                        "cannot mutate a provider root; disconnect it instead"@,
                        Some(MutationAlternative::Disconnect),
                    ),
                ),
                ResourceClassification::FilesystemRoot => Some(
                    ("cannot mutate the filesystem root; eject or unmount it instead"@, None),
                ),
                ResourceClassification::VirtualRoot => Some(
                    ("cannot mutate a virtual collection root"@, None),
                ),
                ResourceClassification::UnsupportedSpecial => Some(
                    ("cannot mutate this unsupported special filesystem resource"@, None),
                ),
            }
        },
    }
}

/// An eligibility that matches a denial outcome.
pub open spec fn eligibility_matches(
    e: MutationEligibility,
    outcome: Option<(Seq<char>, Option<MutationAlternative>)>,
) -> bool {
    match outcome {
        None => e is Allowed,
        Some((reason, alternative)) => e matches MutationEligibility::Denied(d) && d.reason@
            == reason && d.alternative == alternative,
    }
}

fn denied(reason: String, alternative: Option<MutationAlternative>) -> (r: MutationEligibility)
    ensures
        r matches MutationEligibility::Denied(d) && d.reason@ == reason@ && d.alternative
            == alternative,
{
    MutationEligibility::Denied(MutationDenial { reason, alternative })
}

impl LocalFileProvider {
    /// Whether a resource may enter mutation planning, given how it was classified and
    /// whether it is a regular file. Roots, devices and special files are refused with the
    /// action the user may take instead; wiping needs a regular file.
    pub fn mutation_eligibility(
        resource: &ResourceRef,
        mutation: MutationKind,
        classification: Result<ResourceClassification, ProviderError>,
        regular_file: bool,
    ) -> (r: MutationEligibility)
        ensures
            eligibility_matches(
                r,
                mutation_denial(resource.location@, mutation, classification, regular_file),
            ),
    {
        let c = match classification {
            Ok(c) => c,
            Err(error) => {
                let mut reason = "cannot classify resource before mutation: ".to_owned();
                let text = error.message();
                push_str(&mut reason, text.as_str());
                return denied(reason, None);
            },
        };
        if mutation == MutationKind::Wipe && c == ResourceClassification::Ordinary && !regular_file {
            return denied("wipe supports regular files only".to_owned(), None);
        }
        match c {
            ResourceClassification::Ordinary => MutationEligibility::Allowed,
            ResourceClassification::Symlink => MutationEligibility::Allowed,
            ResourceClassification::MountRoot => {
                let mut reason = "cannot mutate mounted volume ".to_owned();
                push_str(&mut reason, resource.location.as_str());
                push_str(&mut reason, "; eject or unmount it instead");
                denied(reason, Some(MutationAlternative::Unmount))
            },
            ResourceClassification::RemovableDevice => denied(
                "cannot mutate a removable device root; eject it instead".to_owned(),
                Some(MutationAlternative::Eject),
            ),
            ResourceClassification::ProviderRoot => denied(
                "cannot mutate a provider root; disconnect it instead".to_owned(),
                Some(MutationAlternative::Disconnect),
            ),
            ResourceClassification::FilesystemRoot => denied(
                "cannot mutate the filesystem root; eject or unmount it instead".to_owned(),
                None,
            ),
            ResourceClassification::VirtualRoot => denied(
                "cannot mutate a virtual collection root".to_owned(),
                None,
            ),
            ResourceClassification::UnsupportedSpecial => denied(
                "cannot mutate this unsupported special filesystem resource".to_owned(),
                None,
            ),
        }
    }
}

/// The kind of an entry from its file type; directories with a package extension are
/// packages.
pub open spec fn kind_of(symlink: bool, directory: bool, file: bool, package: bool) -> ResourceKind {
    if symlink {
        ResourceKind::Symlink
    } else if directory && package {
        ResourceKind::Package
    } else if directory {
        ResourceKind::Directory
    } else if file {
        ResourceKind::File
    } else {
        ResourceKind::Other
    }
}

/// Classifies an entry by its file type.
pub fn classify_file_type(symlink: bool, directory: bool, file: bool, package: bool) -> (r:
    ResourceKind)
    ensures
        r == kind_of(symlink, directory, file, package),
{
    if symlink {
        ResourceKind::Symlink
    } else if directory && package {
        ResourceKind::Package
    } else if directory {
        ResourceKind::Directory
    } else if file {
        ResourceKind::File
    } else {
        ResourceKind::Other
    }
}

/// The label of a resource kind in listings.
pub open spec fn kind_label_text(kind: ResourceKind) -> Seq<char> {
    match kind {
        ResourceKind::Directory => "directory"@,
        ResourceKind::Package => "package"@,
        ResourceKind::Symlink => "symlink"@,
        ResourceKind::File => "file"@,
        ResourceKind::Virtual => "virtual"@,
        ResourceKind::Other => "other"@,
    }
}

pub fn kind_label(kind: ResourceKind) -> (r: &'static str)
    ensures
        r@ == kind_label_text(kind),
{
    match kind {
        ResourceKind::Directory => "directory",
        ResourceKind::Package => "package",
        ResourceKind::Symlink => "symlink",
        ResourceKind::File => "file",
        ResourceKind::Virtual => "virtual",
        ResourceKind::Other => "other",
    }
}

/// Index of the last `.` in a name, if any.
pub open spec fn last_dot(s: Seq<char>) -> Option<int>
    decreases s.len(),
{
    if s.len() == 0 {
        None
    } else if s.last() == '.' {
        Some(s.len() - 1)
    } else {
        last_dot(s.drop_last())
    }
}

/// The extension of a file name (`Path::extension`): the text after its last `.`, unless
/// that dot starts the name or the name is `..`.
pub open spec fn extension_of(name: Seq<char>) -> Option<Seq<char>> {
    if name == seq!['.', '.'] {
        None
    } else {
        match last_dot(name) {
            Some(i) => if i > 0 {
                Some(name.skip(i + 1))
            } else {
                None
            },
            None => None,
        }
    }
}

/// Extensions that mark a directory as a package.
pub open spec fn package_extension(lowered: Seq<char>) -> bool {
    lowered == "app"@ || lowered == "bundle"@ || lowered == "framework"@ || lowered == "kext"@
        || lowered == "pkg"@ || lowered == "plugin"@
}

/// Whether a directory name is a package by its extension, compared case-insensitively.
pub open spec fn is_package_name(name: Seq<char>) -> bool {
    match extension_of(name) {
        Some(e) => package_extension(crate::text::spec_lower(e)),
        None => false,
    }
}

fn last_dot_index(s: &[char]) -> (r: Option<usize>)
    ensures
        match last_dot(s@) {
            Some(i) => r == Some(i as usize) && 0 <= i < s@.len(),
            None => r is None,
        },
{
    let mut i = s.len();
    assert(s@.take(i as int) =~= s@);
    while i > 0
        invariant
            i <= s@.len(),
            last_dot(s@) == last_dot(s@.take(i as int)),
        decreases i,
    {
        let ghost t = s@.take(i as int);
        if s[i - 1] == '.' {
            assert(t.last() == '.');
            return Some(i - 1);
        }
        assert(t.drop_last() =~= s@.take(i - 1));
        i = i - 1;
    }
    assert(s@.take(0) =~= Seq::<char>::empty());
    None
}

/// Whether a directory name is a package (`.app`, `.bundle`, `.framework`, `.kext`, `.pkg`
/// or `.plugin`, in any letter case).
pub fn is_package(name: &str) -> (r: bool)
    ensures
        r == is_package_name(name@),
{
    let chars = crate::text::chars_of(name);
    if chars.len() == 2 && chars[0] == '.' && chars[1] == '.' {
        assert(name@ =~= seq!['.', '.']);
        return false;
    }
    assert(name@ != seq!['.', '.']) by {
        if name@ =~= seq!['.', '.'] {
            assert(chars@.len() == 2 && chars@[0] == '.' && chars@[1] == '.');
        }
    }
    match last_dot_index(chars.as_slice()) {
        None => false,
        Some(i) => {
            if i == 0 {
                return false;
            }
            let ext = crate::text::slice_chars(chars.as_slice(), i + 1, chars.len());
            let lowered = crate::text::lower_chars(ext.as_slice());
            assert(ext@ =~= name@.skip(i + 1));
            let lowered_text = crate::text::string_of(lowered.as_slice());
            crate::text::str_eq(lowered_text.as_str(), "app") || crate::text::str_eq(
                lowered_text.as_str(),
                "bundle",
            ) || crate::text::str_eq(lowered_text.as_str(), "framework") || crate::text::str_eq(
                lowered_text.as_str(),
                "kext",
            ) || crate::text::str_eq(lowered_text.as_str(), "pkg") || crate::text::str_eq(
                lowered_text.as_str(),
                "plugin",
            )
        },
    }
}

/// The extension of a file name (see `extension_of`).
pub fn name_extension(name: &str) -> (r: Option<String>)
    ensures
        match extension_of(name@) {
            Some(e) => r matches Some(x) && x@ == e,
            None => r is None,
        },
{
    let chars = crate::text::chars_of(name);
    if chars.len() == 2 && chars[0] == '.' && chars[1] == '.' {
        assert(name@ =~= seq!['.', '.']);
        return None;
    }
    assert(name@ != seq!['.', '.']) by {
        if name@ =~= seq!['.', '.'] {
            assert(chars@.len() == 2 && chars@[0] == '.' && chars@[1] == '.');
        }
    }
    match last_dot_index(chars.as_slice()) {
        None => None,
        Some(i) => {
            if i == 0 {
                return None;
            }
            let ext = crate::text::slice_chars(chars.as_slice(), i + 1, chars.len());
            assert(ext@ =~= name@.skip(i + 1));
            Some(crate::text::string_of(ext.as_slice()))
        },
    }
}

/// Characters that a command argument may hold without quoting, in a style.
pub open spec fn plain_argument_char(style: PathStyle, c: char) -> bool {
    crate::text::spec_is_ascii_alphanumeric(c) || c == '.' || c == '_' || c == '-' || c == '/'
        || (style == PathStyle::Windows && (c == ':' || c == '\\'))
}

/// A command argument in a style's shell: unchanged when it is non-empty and plain, otherwise
/// single-quoted for a POSIX shell or double-quoted for the Windows command shell.
pub open spec fn quoted_argument(style: PathStyle, value: Seq<char>) -> Seq<char> {
    if value.len() > 0 && (forall|i: int|
        0 <= i < value.len() ==> plain_argument_char(style, #[trigger] value[i])) {
        value
    } else {
        match style {
            PathStyle::Unix => shell_quoted(value),
            PathStyle::Windows => seq!['"'] + replaced(value, '"', seq!['"', '"']) + seq!['"'],
        }
    }
}

/// Single quotes for a POSIX shell, with each quote written as `'\''`.
pub open spec fn shell_quoted(value: Seq<char>) -> Seq<char> {
    seq!['\''] + replaced(value, '\'', seq!['\'', '\\', '\'', '\'']) + seq!['\'']
}

/// Single quotes for PowerShell, with each quote doubled.
pub open spec fn powershell_quoted(value: Seq<char>) -> Seq<char> {
    seq!['\''] + replaced(value, '\'', seq!['\'', '\'']) + seq!['\'']
}

fn is_plain_argument_char(style: PathStyle, c: char) -> (r: bool)
    ensures
        r == plain_argument_char(style, c),
{
    crate::text::is_ascii_alphanumeric(c) || c == '.' || c == '_' || c == '-' || c == '/' || (
    style == PathStyle::Windows && (c == ':' || c == '\\'))
}

/// Quotes a text for a POSIX shell.
pub fn shell_quote(value: &str) -> (r: String)
    ensures
        r@ == shell_quoted(value@),
{
    proof {
        reveal_strlit("'");
        reveal_strlit("'\\''");
    }
    let mut out = "'".to_owned();
    assert(out@ =~= seq!['\'']);
    let inner = crate::text::replace_char(value, '\'', "'\\''");
    assert("'\\''"@ =~= seq!['\'', '\\', '\'', '\'']);
    push_str(&mut out, inner.as_str());
    push_char(&mut out, '\'');
    assert(out@ =~= shell_quoted(value@));
    out
}

/// Quotes a text for PowerShell.
pub fn powershell_quote(value: &str) -> (r: String)
    ensures
        r@ == powershell_quoted(value@),
{
    proof {
        reveal_strlit("'");
        reveal_strlit("''");
    }
    let mut out = "'".to_owned();
    assert(out@ =~= seq!['\'']);
    let inner = crate::text::replace_char(value, '\'', "''");
    assert("''"@ =~= seq!['\'', '\'']);
    push_str(&mut out, inner.as_str());
    push_char(&mut out, '\'');
    assert(out@ =~= powershell_quoted(value@));
    out
}

/// Quotes a command argument for the shell of a style.
pub fn quote_command_argument(style: PathStyle, value: &str) -> (r: String)
    ensures
        r@ == quoted_argument(style, value@),
{
    let chars = crate::text::chars_of(value);
    let mut plain = chars.len() > 0;
    let mut i: usize = 0;
    while i < chars.len()
        invariant
            i <= chars@.len(),
            chars@ == value@,
            plain == (chars@.len() > 0 && forall|j: int|
                0 <= j < i ==> plain_argument_char(style, #[trigger] chars@[j])),
        decreases chars@.len() - i,
    {
        if !is_plain_argument_char(style, chars[i]) {
            plain = false;
        }
        i = i + 1;
    }
    if plain {
        return value.to_owned();
    }
    match style {
        PathStyle::Unix => shell_quote(value),
        PathStyle::Windows => {
            proof {
                reveal_strlit("\"");
                reveal_strlit("\"\"");
            }
            let mut out = "\"".to_owned();
            assert(out@ =~= seq!['"']);
            let inner = crate::text::replace_char(value, '"', "\"\"");
            assert("\"\""@ =~= seq!['"', '"']);
            push_str(&mut out, inner.as_str());
            push_char(&mut out, '"');
            assert(out@ =~= seq!['"'] + replaced(value@, '"', seq!['"', '"']) + seq!['"']);
            out
        },
    }
}

/// The PowerShell script that sends its first argument to the Recycle Bin, as a directory or
/// as a file; the path travels as an argument, never inside the script text.
pub open spec fn recycle_script(recursive: bool) -> Seq<char> {
    "Add-Type -AssemblyName Microsoft.VisualBasic; [Microsoft.VisualBasic.FileIO.FileSystem]::"@
        + (if recursive {
        "DeleteDirectory"@
    } else {
        "DeleteFile"@
    })
        + "($args[0], [Microsoft.VisualBasic.FileIO.UIOption]::OnlyErrorDialogs, [Microsoft.VisualBasic.FileIO.RecycleOption]::SendToRecycleBin)"@
}

pub fn windows_recycle_script(recursive: bool) -> (r: String)
    ensures
        r@ == recycle_script(recursive),
{
    let mut script = "Add-Type -AssemblyName Microsoft.VisualBasic; [Microsoft.VisualBasic.FileIO.FileSystem]::".to_owned();
    if recursive {
        push_str(&mut script, "DeleteDirectory");
    } else {
        push_str(&mut script, "DeleteFile");
    }
    push_str(
        &mut script,
        "($args[0], [Microsoft.VisualBasic.FileIO.UIOption]::OnlyErrorDialogs, [Microsoft.VisualBasic.FileIO.RecycleOption]::SendToRecycleBin)",
    );
    script
}

/// The command line of the elevated helper, as a POSIX shell runs it.
pub open spec fn elevated_command_line(
    executable: Seq<char>,
    request: Seq<char>,
    digest: Seq<char>,
) -> Seq<char> {
    shell_quoted(executable) + " --elevated-operation "@ + shell_quoted(request) + seq![' ']
        + shell_quoted(digest)
}

/// The AppleScript that runs the elevated helper with administrator privileges; backslashes
/// and double quotes of the command are escaped for the AppleScript string.
pub open spec fn macos_elevation_script_text(
    executable: Seq<char>,
    request: Seq<char>,
    digest: Seq<char>,
) -> Seq<char> {
    "do shell script \""@ + replaced(
        replaced(elevated_command_line(executable, request, digest), '\\', seq!['\\', '\\']),
        '"',
        seq!['\\', '"'],
    ) + "\" with administrator privileges"@
}

pub fn macos_elevation_script(executable: &str, request: &str, digest: &str) -> (r: String)
    ensures
        r@ == macos_elevation_script_text(executable@, request@, digest@),
{
    let mut command = shell_quote(executable);
    push_str(&mut command, " --elevated-operation ");
    let quoted_request = shell_quote(request);
    push_str(&mut command, quoted_request.as_str());
    push_char(&mut command, ' ');
    let quoted_digest = shell_quote(digest);
    push_str(&mut command, quoted_digest.as_str());
    proof {
        reveal_strlit("\\\\");
        reveal_strlit("\\\"");
    }
    assert(command@ =~= elevated_command_line(executable@, request@, digest@));
    let escaped = crate::text::replace_char(command.as_str(), '\\', "\\\\");
    assert("\\\\"@ =~= seq!['\\', '\\']);
    let escaped = crate::text::replace_char(escaped.as_str(), '"', "\\\"");
    assert("\\\""@ =~= seq!['\\', '"']);
    let mut script = "do shell script \"".to_owned();
    push_str(&mut script, escaped.as_str());
    push_str(&mut script, "\" with administrator privileges");
    assert(script@ =~= macos_elevation_script_text(executable@, request@, digest@));
    script
}

/// The PowerShell command that starts the elevated helper with `RunAs` and waits for it.
pub open spec fn windows_elevation_command_text(
    executable: Seq<char>,
    request: Seq<char>,
    digest: Seq<char>,
) -> Seq<char> {
    let arguments = "--elevated-operation "@ + powershell_quoted(request) + seq![' ']
        + powershell_quoted(digest);
    "Start-Process -FilePath "@ + powershell_quoted(executable) + " -ArgumentList "@
        + powershell_quoted(arguments) + " -Verb RunAs -Wait"@
}

pub fn windows_elevation_command(executable: &str, request: &str, digest: &str) -> (r: String)
    ensures
        r@ == windows_elevation_command_text(executable@, request@, digest@),
{
    let mut arguments = "--elevated-operation ".to_owned();
    let quoted_request = powershell_quote(request);
    push_str(&mut arguments, quoted_request.as_str());
    push_char(&mut arguments, ' ');
    let quoted_digest = powershell_quote(digest);
    push_str(&mut arguments, quoted_digest.as_str());
    let mut command = "Start-Process -FilePath ".to_owned();
    let quoted_executable = powershell_quote(executable);
    push_str(&mut command, quoted_executable.as_str());
    push_str(&mut command, " -ArgumentList ");
    let quoted_arguments = powershell_quote(arguments.as_str());
    push_str(&mut command, quoted_arguments.as_str());
    push_str(&mut command, " -Verb RunAs -Wait");
    assert(arguments@ =~= "--elevated-operation "@ + powershell_quoted(request@) + seq![' ']
        + powershell_quoted(digest@));
    assert(command@ =~= windows_elevation_command_text(executable@, request@, digest@));
    command
}

/// Names that an elevated request file may have: `near-elevated-` … `.toml`.
pub open spec fn elevated_request_name(name: Seq<char>) -> bool {
    name.len() >= 14 && name.take(14) == "near-elevated-"@ && name.len() >= 5 && name.skip(
        name.len() - 5,
    ) == ".toml"@
}

/// Whether a file name is that of an elevated request.
pub fn is_elevated_request_name(name: &str) -> (r: bool)
    ensures
        r == elevated_request_name(name@),
{
    let chars = crate::text::chars_of(name);
    let prefix = crate::text::chars_of("near-elevated-");
    let suffix = crate::text::chars_of(".toml");
    proof {
        reveal_strlit("near-elevated-");
        reveal_strlit(".toml");
    }
    if chars.len() < 14 || chars.len() < 5 {
        return false;
    }
    let head = crate::text::slice_chars(chars.as_slice(), 0, 14);
    let tail = crate::text::slice_chars(chars.as_slice(), chars.len() - 5, chars.len());
    assert(head@ =~= name@.take(14));
    assert(tail@ =~= name@.skip(name@.len() - 5));
    crate::text::chars_eq(head.as_slice(), prefix.as_slice()) && crate::text::chars_eq(
        tail.as_slice(),
        suffix.as_slice(),
    )
}

/// The name of a file beside an elevated request: the request's name without `.toml`, a dot,
/// and the suffix; `None` when the request name does not end in `.toml`.
pub open spec fn sibling_name(name: Seq<char>, suffix: Seq<char>) -> Option<Seq<char>> {
    if name.len() >= 5 && name.skip(name.len() - 5) == ".toml"@ {
        Some(name.take(name.len() - 5) + seq!['.'] + suffix)
    } else {
        None
    }
}

pub fn sibling_elevation_name(name: &str, suffix: &str) -> (r: Option<String>)
    ensures
        match sibling_name(name@, suffix@) {
            Some(n) => r matches Some(s) && s@ == n,
            None => r is None,
        },
{
    let chars = crate::text::chars_of(name);
    let dot_toml = crate::text::chars_of(".toml");
    proof {
        reveal_strlit(".toml");
    }
    if chars.len() < 5 {
        return None;
    }
    let tail = crate::text::slice_chars(chars.as_slice(), chars.len() - 5, chars.len());
    assert(tail@ =~= name@.skip(name@.len() - 5));
    if !crate::text::chars_eq(tail.as_slice(), dot_toml.as_slice()) {
        return None;
    }
    let stem = crate::text::slice_chars(chars.as_slice(), 0, chars.len() - 5);
    let mut out = crate::text::string_of(stem.as_slice());
    push_char(&mut out, '.');
    push_str(&mut out, suffix);
    assert(stem@ =~= name@.take(name@.len() - 5));
    Some(out)
}

/// The SHA-256 digest of a byte sequence.
pub uninterp spec fn sha256(bytes: Seq<u8>) -> Seq<u8>;

/// `sha2::Sha256::digest`: the 32-byte SHA-256 digest of the bytes.
#[verifier::external_body]
fn sha256_digest(bytes: &[u8]) -> (r: Vec<u8>)
    ensures
        r@ == sha256(bytes@),
        r@.len() == 32,
{
    <sha2::Sha256 as sha2::Digest>::digest(bytes).to_vec()
}

/// A lower-case hexadecimal digit.
pub open spec fn lower_hex(d: int) -> char {
    if d < 10 {
        (48 + d) as char
    } else {
        (87 + d) as char
    }
}

/// Lower-case hexadecimal text of bytes, two digits per byte.
pub open spec fn lower_hex_text(bytes: Seq<u8>) -> Seq<char>
    decreases bytes.len(),
{
    if bytes.len() == 0 {
        Seq::empty()
    } else {
        lower_hex_text(bytes.drop_last()) + seq![
            lower_hex((bytes.last() / 16) as int),
            lower_hex((bytes.last() % 16) as int),
        ]
    }
}

fn lower_hex_char(d: u8) -> (r: char)
    requires
        d < 16,
    ensures
        r == lower_hex(d as int),
{
    if d < 10 {
        (48 + d) as char
    } else {
        (87 + d) as char
    }
}

/// Lower-case hexadecimal text of bytes, two digits per byte (`{:02x}` for each).
pub fn hex_encode(bytes: &[u8]) -> (r: String)
    ensures
        r@ == lower_hex_text(bytes@),
{
    let mut out = String::new();
    let mut i: usize = 0;
    while i < bytes.len()
        invariant
            i <= bytes@.len(),
            out@ == lower_hex_text(bytes@.take(i as int)),
        decreases bytes@.len() - i,
    {
        let b = bytes[i];
        push_char(&mut out, lower_hex_char(b / 16));
        push_char(&mut out, lower_hex_char(b % 16));
        assert(bytes@.take(i + 1).drop_last() =~= bytes@.take(i as int));
        i = i + 1;
    }
    assert(bytes@.take(bytes@.len() as int) =~= bytes@);
    out
}

/// The lower-case hexadecimal SHA-256 digest of bytes.
pub fn hex_digest(bytes: &[u8]) -> (r: String)
    ensures
        r@ == lower_hex_text(sha256(bytes@)),
{
    let digest = sha256_digest(bytes);
    hex_encode(digest.as_slice())
}

/// Whether the bytes of an elevated request have the expected digest.
pub fn request_digest_matches(bytes: &[u8], expected: &str) -> (r: bool)
    ensures
        r == (lower_hex_text(sha256(bytes@)) == expected@),
{
    let digest = hex_digest(bytes);
    crate::text::str_eq(digest.as_str(), expected)
}

/// A conflict resolver that answers every conflict with one fixed decision.
pub struct FixedConflictResolver(pub ConflictDecision);

impl ConflictResolver for FixedConflictResolver {
    fn decide(&mut self, plan: &OperationPlan, item: &PlannedItem) -> (r: ConflictDecision)
        ensures
            r == old(self).0,
            *final(self) == *old(self),
    {
        self.0
    }
}

/// The text of a native path, when it is valid Unicode (`OsStr::to_str`).
pub open spec fn native_text_of(p: NativePathView) -> Option<Seq<char>> {
    match p {
        NativePathView::Unix(b) => if vstd::utf8::valid_utf8(b) {
            Some(vstd::utf8::decode_utf8(b))
        } else {
            None
        },
        NativePathView::Windows(u) => utf16_decoded(u),
    }
}

pub fn native_text(p: &NativePath) -> (r: Option<String>)
    ensures
        match native_text_of(p@) {
            Some(t) => r matches Some(s) && s@ == t,
            None => r is None,
        },
{
    match p {
        NativePath::Unix(b) => match utf8_text(b.as_slice()) {
            Ok(t) => Some(t),
            Err(_) => None,
        },
        NativePath::Windows(u) => utf16_text(u.as_slice()),
    }
}

/// The text of a native path with invalid sequences replaced (`OsStr::to_string_lossy`).
pub open spec fn native_lossy_of(p: NativePathView) -> Seq<char> {
    match p {
        NativePathView::Unix(b) => crate::text::utf8_lossy(b),
        NativePathView::Windows(u) => crate::document_policy::utf16_lossy(u),
    }
}

pub fn native_lossy_text(p: &NativePath) -> (r: String)
    ensures
        r@ == native_lossy_of(p@),
{
    match p {
        NativePath::Unix(b) => crate::text::string_from_utf8_lossy(b.as_slice()),
        NativePath::Windows(u) => crate::document_policy::string_from_utf16_lossy(u.as_slice()),
    }
}

} // verus!
