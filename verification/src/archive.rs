//! ZIP archives as browsable containers: reversible archive addresses, the index of an
//! archive's entries, listing and capabilities, and the planning of transfers into and out of
//! archives.
//!
//! An archive location is `archive://zip/`, the lower-case hexadecimal UTF-8 bytes of the
//! archive file's own location, `!/`, and the normalized path of an entry inside the archive.

use vstd::prelude::*;

use crate::command::{parse_usize, spec_parse_usize};
use crate::device::{last_segment, last_segment_of, split_once, split_once_chars};
use crate::resource::CapabilitySet;
use crate::ids::{CapabilityId, ProviderId};
use crate::provider::{ListPage, ListRequest, ResourceEntry};
use crate::resource::{MetadataValue, ResourceKind, ResourceMetadata, ResourceRef};
use crate::command::SafetyClass;
use crate::execution::{
    join, spec_authorization_error, spec_execution_error_message, summary_follows,
    ConflictDecision, ExecutionAuthorization, ExecutionSummary, OperationBackend,
    OperationEngine, OperationIntent, OperationJournal, OperationService,
};
use crate::ids::OperationId;
use crate::local_fs::{local_provider_id, FixedConflictResolver};
use crate::ops::{
    item_views, plan_rejection, spec_plan_error_message, ConflictPolicy, CrossDeviceBehavior,
    MetadataPolicy, OperationKind, OperationPlan, OperationPlanner, PlanPolicies, PlanRequest,
    PlannedItem, RecoveryPolicy, SymlinkPolicy, VerificationPolicy,
};
use crate::provider::{CancellationToken, ListingGeneration};
use crate::local_fs::{
    extension_of, failed_with, hex_encode, lower_hex, lower_hex_text, name_extension, utf8_text,
    PathStyle,
};
use crate::provider::ProviderError;
use crate::resource::Location;
use crate::strmap::{sorted_keys, StrMap};
use crate::text::{
    chars_of, hex_pair, parse_hex_pair, push_char, push_str, replace_char, replaced, slice_chars,
    spec_starts_with, starts_with, string_of, u64_decimal, decimal, spec_lower, lower_chars,
    contains_char, usize_decimal, str_eq,
};

verus! {

broadcast use vstd::string::group_string_axioms;

/// Whether a byte position of UTF-8 text is a character boundary, or at or past the end.
pub open spec fn on_char_boundary(b: Seq<u8>, i: int) -> bool {
    i >= b.len() || !vstd::utf8::is_continuation_byte(b[i])
}

/// The bytes that hexadecimal text names, two digits (or `+` and one digit, as
/// `u8::from_str_radix` reads them) per byte; `None` for an odd length or an invalid pair.
pub open spec fn hex_decoded(b: Seq<u8>) -> Option<Seq<u8>>
    decreases b.len(),
{
    if b.len() == 0 {
        Some(Seq::empty())
    } else if b.len() == 1 {
        None
    } else {
        match (hex_pair(b[0], b[1]), hex_decoded(b.skip(2))) {
            (Some(v), Some(rest)) => Some(seq![v] + rest),
            _ => None,
        }
    }
}

/// Whether reading hexadecimal text pair by pair cuts a character in two before it meets an
/// invalid pair: slicing text there panics.
pub open spec fn hex_scan_splits(b: Seq<u8>) -> bool
    decreases b.len(),
{
    if b.len() < 2 {
        false
    } else if !on_char_boundary(b, 2) {
        true
    } else {
        hex_pair(b[0], b[1]) is Some && hex_scan_splits(b.skip(2))
    }
}

/// Whether decoding the hexadecimal text with these UTF-8 bytes panics: its length is even,
/// so the pairs are sliced, and a slice cuts a character.
pub open spec fn hex_decode_panics(b: Seq<u8>) -> bool {
    b.len() % 2 == 0 && hex_scan_splits(b)
}

proof fn lemma_hex_odd(b: Seq<u8>)
    requires
        b.len() % 2 == 1,
    ensures
        hex_decoded(b) is None,
    decreases b.len(),
{
    if b.len() > 1 {
        lemma_hex_odd(b.skip(2));
    }
}

/// Decodes hexadecimal text into bytes.
pub fn hex_decode(value: &str) -> (r: Result<Vec<u8>, ProviderError>)
    requires
        !hex_decode_panics(vstd::utf8::encode_utf8(value@)),
    ensures
        match hex_decoded(vstd::utf8::encode_utf8(value@)) {
            Some(v) => r matches Ok(x) && x@ == v,
            None => r matches Err(e) && failed_with(e, "invalid archive source encoding"@),
        },
{
    let bytes = value.as_bytes();
    let ghost b = bytes@;
    if bytes.len() % 2 != 0 {
        proof {
            lemma_hex_odd(b);
        }
        return Err(ProviderError::Failed("invalid archive source encoding".to_owned()));
    }
    let mut out: Vec<u8> = Vec::new();
    let mut i: usize = 0;
    assert(b.skip(0) =~= b);
    assert(out@ + b.skip(0) =~= b.skip(0));
    while i < bytes.len()
        invariant
            b == bytes@,
            b == vstd::utf8::encode_utf8(value@),
            i <= b.len(),
            i % 2 == 0,
            b.len() % 2 == 0,
            match hex_decoded(b.skip(i as int)) {
                Some(rest) => hex_decoded(b) == Some(out@ + rest),
                None => hex_decoded(b) is None,
            },
        decreases b.len() - i,
    {
        let ghost t = b.skip(i as int);
        assert(t.skip(2) =~= b.skip(i + 2));
        assert(t[0] == b[i as int] && t[1] == b[i + 1]);
        match parse_hex_pair(bytes[i], bytes[i + 1]) {
            Some(v) => {
                proof {
                    match hex_decoded(b.skip(i + 2)) {
                        Some(rest) => {
                            assert(out@.push(v) + rest =~= out@ + (seq![v] + rest));
                        },
                        None => {},
                    }
                }
                out.push(v);
                i = i + 2;
            },
            None => {
                assert(t.len() >= 2);
                assert(hex_decoded(t) is None);
                return Err(ProviderError::Failed("invalid archive source encoding".to_owned()));
            },
        }
    }
    assert(b.skip(i as int) =~= Seq::<u8>::empty());
    assert(out@ + Seq::<u8>::empty() =~= out@);
    Ok(out)
}

/// Path separators of a platform: `/`, and `\` on Windows.
pub open spec fn is_path_separator(style: PathStyle, c: char) -> bool {
    c == '/' || (style == PathStyle::Windows && c == '\\')
}

/// The segments of a path text between its separators, in order.
pub open spec fn path_segments(style: PathStyle, s: Seq<char>) -> Seq<Seq<char>>
    decreases s.len(),
{
    if s.len() == 0 {
        seq![Seq::empty()]
    } else {
        let init = path_segments(style, s.drop_last());
        if is_path_separator(style, s.last()) {
            init.push(Seq::empty())
        } else {
            init.update(init.len() - 1, init.last().push(s.last()))
        }
    }
}

proof fn lemma_segments_len(style: PathStyle, s: Seq<char>)
    ensures
        path_segments(style, s).len() >= 1,
    decreases s.len(),
{
    if s.len() > 0 {
        lemma_segments_len(style, s.drop_last());
    }
}

/// Whether a path text starts at a root, or (on Windows) with a drive prefix such as `C:`.
pub open spec fn rooted_path(style: PathStyle, s: Seq<char>) -> bool {
    ||| s.len() > 0 && is_path_separator(style, s[0])
    ||| style == PathStyle::Windows && s.len() >= 2 && s[1] == ':' && (('a' <= s[0] && s[0]
        <= 'z') || ('A' <= s[0] && s[0] <= 'Z'))
}

/// The named components among path segments: empty and `.` segments are dropped.
pub open spec fn named_segments(segs: Seq<Seq<char>>) -> Seq<Seq<char>>
    decreases segs.len(),
{
    if segs.len() == 0 {
        Seq::empty()
    } else {
        let init = named_segments(segs.drop_last());
        let l = segs.last();
        if l.len() == 0 || l == seq!['.'] {
            init
        } else {
            init.push(l)
        }
    }
}

/// The normal form of a path inside an archive: its named components joined by `/`; `None`
/// for a rooted path, a drive prefix, or a `..` component.
pub open spec fn normalized_inner(style: PathStyle, s: Seq<char>) -> Option<Seq<char>> {
    let segs = path_segments(style, s);
    if rooted_path(style, s) || segs.contains(seq!['.', '.']) {
        None
    } else {
        Some(join(named_segments(segs), seq!['/']))
    }
}

fn is_separator_char(style: PathStyle, c: char) -> (r: bool)
    ensures
        r == is_path_separator(style, c),
{
    c == '/' || (matches!(style, PathStyle::Windows) && c == '\\')
}

/// Adds a finished segment to the joined named components.
fn close_segment(out: &mut String, any: &mut bool, parent_step: &mut bool, cur: &Vec<char>, Ghost(
    done,
): Ghost<Seq<Seq<char>>>)
    requires
        old(out)@ == join(named_segments(done), seq!['/']),
        *old(any) == (named_segments(done).len() > 0),
        *old(parent_step) == done.contains(seq!['.', '.']),
    ensures
        final(out)@ == join(named_segments(done.push(cur@)), seq!['/']),
        *final(any) == (named_segments(done.push(cur@)).len() > 0),
        *final(parent_step) == done.push(cur@).contains(seq!['.', '.']),
{
    let ghost d2 = done.push(cur@);
    assert(d2.drop_last() =~= done);
    assert(d2.last() == cur@);
    if cur.len() == 2 && cur[0] == '.' && cur[1] == '.' {
        assert(cur@ =~= seq!['.', '.']);
        assert(d2[done.len() as int] == seq!['.', '.']);
        *parent_step = true;
    } else {
        if cur.len() == 2 {
            assert(cur@ != seq!['.', '.']) by {
                if cur@ == seq!['.', '.'] {
                    assert(cur@[0] == '.' && cur@[1] == '.');
                }
            }
        }
        assert(cur@ != seq!['.', '.']);
        if *parent_step {
            let ghost w = choose|j: int| 0 <= j < done.len() && done[j] == seq!['.', '.'];
            assert(d2[w] == seq!['.', '.']);
        } else {
            assert forall|j: int| 0 <= j < d2.len() implies d2[j] != seq!['.', '.'] by {
                if j < done.len() {
                    assert(d2[j] == done[j]);
                }
            }
        }
    }
    let dot = cur.len() == 1 && cur[0] == '.';
    if dot {
        assert(cur@ =~= seq!['.']);
    } else if cur.len() == 1 {
        assert(cur@ != seq!['.']) by {
            if cur@ == seq!['.'] {
                assert(cur@[0] == '.');
            }
        }
    }
    if cur.len() == 0 || dot {
    } else {
        let ghost parts = named_segments(done);
        assert(parts.push(cur@).drop_last() =~= parts);
        if *any {
            push_char(out, '/');
        }
        let piece = string_of(cur.as_slice());
        push_str(out, piece.as_str());
        *any = true;
    }
}

/// The normal form of a path inside an archive (see `normalized_inner`).
pub fn normalize_inner(value: &str, style: PathStyle) -> (r: Result<String, ProviderError>)
    ensures
        match normalized_inner(style, value@) {
            Some(t) => r matches Ok(n) && n@ == t,
            None => r matches Err(e) && failed_with(e, "unsafe archive path"@),
        },
{
    let s = chars_of(value);
    let n = s.len();
    let rooted = (n > 0 && is_separator_char(style, s[0])) || (matches!(style, PathStyle::Windows)
        && n >= 2 && s[1] == ':' && (('a' <= s[0] && s[0] <= 'z') || ('A' <= s[0] && s[0]
        <= 'Z')));
    let mut out = String::new();
    let mut any = false;
    let mut parent_step = false;
    let mut cur: Vec<char> = Vec::new();
    let ghost mut done: Seq<Seq<char>> = Seq::empty();
    let mut i: usize = 0;
    assert(s@.take(0) =~= Seq::<char>::empty());
    assert(done.push(cur@) =~= seq![Seq::<char>::empty()]);
    while i < n
        invariant
            n == s@.len(),
            i <= n,
            path_segments(style, s@.take(i as int)) == done.push(cur@),
            out@ == join(named_segments(done), seq!['/']),
            any == (named_segments(done).len() > 0),
            parent_step == done.contains(seq!['.', '.']),
        decreases n - i,
    {
        let c = s[i];
        assert(s@.take(i + 1).drop_last() =~= s@.take(i as int));
        assert(s@.take(i + 1).last() == c);
        if is_separator_char(style, c) {
            close_segment(&mut out, &mut any, &mut parent_step, &cur, Ghost(done));
            proof {
                done = done.push(cur@);
            }
            cur = Vec::new();
            assert(done.push(cur@) =~= path_segments(style, s@.take(i + 1)));
        } else {
            let ghost before = cur@;
            cur.push(c);
            assert(done.push(before).update(done.len() as int, before.push(c)) =~= done.push(
                cur@,
            ));
        }
        i = i + 1;
    }
    assert(s@.take(n as int) =~= s@);
    close_segment(&mut out, &mut any, &mut parent_step, &cur, Ghost(done));
    if rooted || parent_step {
        Err(ProviderError::Failed("unsafe archive path".to_owned()))
    } else {
        Ok(out)
    }
}

/// The location of the root of the archive whose file has the location `source`.
pub open spec fn archive_root_text(source: Seq<char>) -> Seq<char> {
    "archive://zip/"@ + lower_hex_text(vstd::utf8::encode_utf8(source)) + "!/"@
}

/// How an archive location splits into the hexadecimal text of its source and its inner
/// path; `None` when it lacks the archive prefix or the `!/` after the source.
pub open spec fn archive_location_parts(location: Seq<char>) -> Option<(Seq<char>, Seq<char>)> {
    let p = "archive://zip/"@;
    if spec_starts_with(location, p) {
        split_once(location.skip(p.len() as int), "!/"@)
    } else {
        None
    }
}

/// Whether reading an archive location panics: its source text is cut inside a character.
pub open spec fn archive_location_panics(location: Seq<char>) -> bool {
    match archive_location_parts(location) {
        Some((encoded, _)) => hex_decode_panics(vstd::utf8::encode_utf8(encoded)),
        None => false,
    }
}

/// The source location and normalized inner path that an archive location names, when it
/// is well formed.
pub open spec fn parsed_archive_location(location: Seq<char>, style: PathStyle) -> Option<
    (Seq<char>, Seq<char>),
> {
    match archive_location_parts(location) {
        Some((encoded, rest)) => match hex_decoded(vstd::utf8::encode_utf8(encoded)) {
            Some(bytes) => if vstd::utf8::valid_utf8(bytes) {
                match normalized_inner(style, rest) {
                    Some(inner) => Some((vstd::utf8::decode_utf8(bytes), inner)),
                    None => None,
                }
            } else {
                None
            },
            None => None,
        },
        None => None,
    }
}

/// The inner path of a child entry.
pub open spec fn child_inner(inner: Seq<char>, name: Seq<char>) -> Seq<char> {
    if inner.len() == 0 {
        name
    } else {
        inner + seq!['/'] + name
    }
}

/// Index of the last `/` of a text, if any.
pub open spec fn last_slash(s: Seq<char>) -> Option<int>
    decreases s.len(),
{
    if s.len() == 0 {
        None
    } else if s.last() == '/' {
        Some(s.len() - 1)
    } else {
        last_slash(s.drop_last())
    }
}

/// The inner path of the parent entry: the text before the last `/`, or the archive root.
pub open spec fn parent_inner(inner: Seq<char>) -> Seq<char> {
    match last_slash(inner) {
        Some(i) => inner.take(i),
        None => Seq::empty(),
    }
}

/// An entry of a ZIP archive: the location of the archive file and the normalized path of
/// the entry inside it (empty for the archive root).
#[derive(Debug)]
pub struct ArchiveAddress {
    pub source: Location,
    pub inner: String,
}

impl Clone for ArchiveAddress {
    fn clone(&self) -> (r: Self)
        ensures
            r.source@ == self.source@,
            r.inner@ == self.inner@,
    {
        ArchiveAddress { source: self.source.clone(), inner: self.inner.clone() }
    }
}

fn last_slash_index(s: &[char]) -> (r: Option<usize>)
    ensures
        match last_slash(s@) {
            Some(i) => r matches Some(j) && j as int == i && j < s@.len() && s@[i] == '/',
            None => r is None,
        },
{
    let mut i = s.len();
    assert(s@.take(i as int) =~= s@);
    while i > 0
        invariant
            i <= s@.len(),
            last_slash(s@) == last_slash(s@.take(i as int)),
        decreases i,
    {
        assert(s@.take(i as int).drop_last() =~= s@.take(i - 1));
        if s[i - 1] == '/' {
            return Some(i - 1);
        }
        i = i - 1;
    }
    None
}

impl ArchiveAddress {
    /// The location of the root of the archive whose file is at `source`.
    pub fn root(source: &Location) -> (r: Location)
        ensures
            r@ == archive_root_text(source@),
    {
        let mut text = "archive://zip/".to_owned();
        let hex = hex_encode(source.as_str().as_bytes());
        push_str(&mut text, hex.as_str());
        push_str(&mut text, "!/");
        Location::from_string(text)
    }

    /// The location of this entry.
    pub fn location(&self) -> (r: Location)
        ensures
            r@ == archive_root_text(self.source@) + self.inner@,
    {
        let root = Self::root(&self.source);
        let mut text = root.as_str().to_owned();
        push_str(&mut text, self.inner.as_str());
        Location::from_string(text)
    }

    /// Reads an archive location back into the archive file's location and the normalized
    /// inner path.
    pub fn parse(location: &Location, style: PathStyle) -> (r: Result<Self, ProviderError>)
        requires
            !archive_location_panics(location@),
        ensures
            match archive_location_parts(location@) {
                None => if spec_starts_with(location@, "archive://zip/"@) {
                    r matches Err(e) && failed_with(e, "invalid archive location"@)
                } else {
                    r matches Err(e) && failed_with(e, "unsupported archive location"@)
                },
                Some((encoded, rest)) => match hex_decoded(vstd::utf8::encode_utf8(encoded)) {
                    None => r matches Err(e) && failed_with(e, "invalid archive source encoding"@),
                    Some(bytes) => if !vstd::utf8::valid_utf8(bytes) {
                        r matches Err(ProviderError::Failed(m)) && spec_starts_with(
                            m@,
                            "archive source is not UTF-8: "@,
                        )
                    } else {
                        match normalized_inner(style, rest) {
                            None => r matches Err(e) && failed_with(e, "unsafe archive path"@),
                            Some(inner) => r matches Ok(a) && a.source@ == vstd::utf8::decode_utf8(
                                bytes,
                            ) && a.inner@ == inner,
                        }
                    },
                },
            },
            match parsed_archive_location(location@, style) {
                Some((source, inner)) => r matches Ok(a) && a.source@ == source && a.inner@
                    == inner,
                None => r is Err,
            },
    {
        let chars = chars_of(location.as_str());
        let prefix = chars_of("archive://zip/");
        if !starts_with(chars.as_slice(), prefix.as_slice()) {
            return Err(ProviderError::Failed("unsupported archive location".to_owned()));
        }
        let rest = slice_chars(chars.as_slice(), prefix.len(), chars.len());
        assert(rest@ =~= location@.skip(prefix@.len() as int));
        proof {
            reveal_strlit("!/");
        }
        let (encoded, inner) = match split_once_chars(rest.as_slice(), "!/") {
            Some(parts) => parts,
            None => {
                return Err(ProviderError::Failed("invalid archive location".to_owned()));
            },
        };
        let encoded_text = string_of(encoded.as_slice());
        let bytes = hex_decode(encoded_text.as_str())?;
        let source = match utf8_text(bytes.as_slice()) {
            Ok(text) => text,
            Err(reason) => {
                let mut message = "archive source is not UTF-8: ".to_owned();
                push_str(&mut message, reason.as_str());
                assert(message@.take("archive source is not UTF-8: "@.len() as int)
                    =~= "archive source is not UTF-8: "@);
                return Err(ProviderError::Failed(message));
            },
        };
        let inner_text = string_of(inner.as_slice());
        let inner = normalize_inner(inner_text.as_str(), style)?;
        Ok(ArchiveAddress { source: Location::from_string(source), inner })
    }

    /// The entry named `name` directly inside this one.
    pub fn child(&self, name: &str) -> (r: Self)
        ensures
            r.source@ == self.source@,
            r.inner@ == child_inner(self.inner@, name@),
    {
        let inner = if self.inner.as_str().is_empty() {
            name.to_owned()
        } else {
            let mut text = self.inner.clone();
            push_char(&mut text, '/');
            push_str(&mut text, name);
            text
        };
        ArchiveAddress { source: self.source.clone(), inner }
    }

    /// The entry that contains this one; `None` for the archive root.
    pub fn parent(&self) -> (r: Option<Self>)
        ensures
            self.inner@.len() == 0 ==> r is None,
            self.inner@.len() > 0 ==> (r matches Some(p) && p.source@ == self.source@ && p.inner@
                == parent_inner(self.inner@)),
    {
        if self.inner.as_str().is_empty() {
            return None;
        }
        let chars = chars_of(self.inner.as_str());
        let inner = match last_slash_index(chars.as_slice()) {
            Some(i) => string_of(slice_chars(chars.as_slice(), 0, i).as_slice()),
            None => String::new(),
        };
        proof {
            if let Some(i) = last_slash(self.inner@) {
                assert(chars@.subrange(0, i) =~= self.inner@.take(i));
            }
        }
        Some(ArchiveAddress { source: self.source.clone(), inner })
    }
}

proof fn lemma_hex_text_shape(b: Seq<u8>)
    ensures
        lower_hex_text(b).len() == 2 * b.len(),
        forall|j: int|
            #![trigger b[j]]
            0 <= j < b.len() ==> lower_hex_text(b)[2 * j] == lower_hex((b[j] / 16) as int)
                && lower_hex_text(b)[2 * j + 1] == lower_hex((b[j] % 16) as int),
    decreases b.len(),
{
    if b.len() > 0 {
        let init = b.drop_last();
        lemma_hex_text_shape(init);
        assert forall|j: int| 0 <= j < b.len() implies lower_hex_text(b)[2 * j] == lower_hex(
            (b[j] / 16) as int,
        ) && lower_hex_text(b)[2 * j + 1] == lower_hex((b[j] % 16) as int) by {
            if j < b.len() - 1 {
                assert(init[j] == b[j]);
            }
        }
    }
}

proof fn lemma_lower_hex_digit(d: int)
    requires
        0 <= d < 16,
    ensures
        (lower_hex(d) as u32) < 128,
        lower_hex(d) != '!',
        crate::text::byte_hex_value((lower_hex(d) as u32) as u8) == Some(d as u8),
{
}

proof fn lemma_hex_pairs_decode(e: Seq<u8>, b: Seq<u8>)
    requires
        e.len() == 2 * b.len(),
        forall|j: int| #![trigger b[j]] 0 <= j < b.len() ==> hex_pair(e[2 * j], e[2 * j + 1]) == Some(b[j]),
        forall|i: int| 0 <= i < e.len() ==> e[i] < 128,
    ensures
        hex_decoded(e) == Some(b),
        !hex_scan_splits(e),
    decreases b.len(),
{
    if b.len() > 0 {
        let e2 = e.skip(2);
        let b2 = b.drop_first();
        assert forall|j: int| #![trigger b2[j]] 0 <= j < b2.len() implies hex_pair(e2[2 * j], e2[2 * j + 1])
            == Some(b2[j]) by {
            assert(b2[j] == b[j + 1]);
            assert(e2[2 * j] == e[2 * (j + 1)]);
            assert(e2[2 * j + 1] == e[2 * (j + 1) + 1]);
        }
        lemma_hex_pairs_decode(e2, b2);
        assert(hex_pair(e[0], e[1]) == Some(b[0])) by {
            assert(b[0int] == b[0int]);
        }
        assert(seq![b[0]] + b2 =~= b);
        assert(e.len() > 2 ==> e[2] < 128);
    }
}

proof fn lemma_hex_round_trip(b: Seq<u8>)
    ensures
        vstd::utf8::is_ascii_chars(lower_hex_text(b)),
        forall|i: int| 0 <= i < lower_hex_text(b).len() ==> #[trigger] lower_hex_text(b)[i] != '!',
        hex_decoded(vstd::utf8::encode_utf8(lower_hex_text(b))) == Some(b),
        !hex_decode_panics(vstd::utf8::encode_utf8(lower_hex_text(b))),
{
    let t = lower_hex_text(b);
    lemma_hex_text_shape(b);
    assert forall|i: int| 0 <= i < t.len() implies ('\0' <= #[trigger] t[i] <= '\u{7f}') && t[i]
        != '!' by {
        let j = i / 2;
        assert(0 <= j < b.len());
        lemma_lower_hex_digit((b[j] / 16) as int);
        lemma_lower_hex_digit((b[j] % 16) as int);
        if i % 2 == 0 {
            assert(i == 2 * j);
        } else {
            assert(i == 2 * j + 1);
        }
    }
    vstd::utf8::is_ascii_chars_encode_utf8(t);
    let e = vstd::utf8::encode_utf8(t);
    assert forall|j: int| #![trigger b[j]] 0 <= j < b.len() implies hex_pair(e[2 * j], e[2 * j + 1]) == Some(
        b[j],
    ) by {
        lemma_lower_hex_digit((b[j] / 16) as int);
        lemma_lower_hex_digit((b[j] % 16) as int);
        assert(e[2 * j] == t[2 * j] as u8);
        assert(e[2 * j + 1] == t[2 * j + 1] as u8);
    }
    assert forall|i: int| 0 <= i < e.len() implies e[i] < 128 by {
        assert(e[i] == t[i] as u8);
        assert('\0' <= t[i] <= '\u{7f}');
    }
    lemma_hex_pairs_decode(e, b);
}

/// Reading back the location of an archive entry gives the archive file's location and the
/// entry path it was made from, for every entry path in normal form.
#[verifier::spinoff_prover]
#[verifier::rlimit(60)]
pub proof fn law_archive_location_round_trip(source: Seq<char>, inner: Seq<char>, style: PathStyle)
    requires
        normalized_inner(style, inner) == Some(inner),
    ensures
        !archive_location_panics(archive_root_text(source) + inner),
        parsed_archive_location(archive_root_text(source) + inner, style) == Some((source, inner)),
{
    let p = "archive://zip/"@;
    let sep = "!/"@;
    reveal_strlit("!/");
    let bytes = vstd::utf8::encode_utf8(source);
    let h = lower_hex_text(bytes);
    let location = archive_root_text(source) + inner;
    assert(location =~= p + (h + sep + inner));
    assert(location.take(p.len() as int) =~= p);
    let rest = location.skip(p.len() as int);
    assert(rest =~= h + sep + inner);
    lemma_hex_round_trip(bytes);
    let k = h.len() as int;
    assert(crate::text::occurs_at(rest, sep, k)) by {
        assert(rest.subrange(k, k + 2) =~= sep);
    }
    assert forall|j: int| 0 <= j < k implies !crate::text::occurs_at(rest, sep, j) by {
        assert(rest[j] == h[j]);
        if crate::text::occurs_at(rest, sep, j) {
            assert(rest.subrange(j, j + 2)[0] == rest[j]);
        }
    }
    let c = choose|i: int| crate::text::occurs_at(rest, sep, i) && forall|m: int|
        0 <= m < i ==> !crate::text::occurs_at(rest, sep, m);
    assert(c == k) by {
        if c < k {
            assert(!crate::text::occurs_at(rest, sep, c));
        }
        if k < c {
            assert(!crate::text::occurs_at(rest, sep, k));
        }
    }
    assert(rest.take(k) =~= h);
    assert(rest.skip(k + 2) =~= inner);
    assert(archive_location_parts(location) == Some((h, inner)));
    vstd::utf8::encode_utf8_valid_utf8(source);
    vstd::utf8::encode_utf8_decode_utf8(source);
}

/// The largest number of entries an archive may hold to be browsed.
pub const MAX_ARCHIVE_ENTRIES: usize = 100000;

/// The largest uncompressed size of one file entry that an archive may hold (256 MiB).
pub const MAX_ENTRY_SIZE: u64 = 268435456;

/// The largest total uncompressed size that one extraction writes (1 GiB).
pub const MAX_EXTRACTED_SIZE: u64 = 1073741824;

/// The most bytes that one read of an archive entry returns (4 MiB).
pub const MAX_OPEN_LENGTH: usize = 4194304;

/// A text without the `/` characters at its end (`trim_end_matches('/')`).
pub open spec fn without_trailing_slashes(s: Seq<char>) -> Seq<char>
    decreases s.len(),
{
    if s.len() > 0 && s.last() == '/' {
        without_trailing_slashes(s.drop_last())
    } else {
        s
    }
}

fn trim_trailing_slashes(s: &str) -> (r: String)
    ensures
        r@ == without_trailing_slashes(s@),
{
    let chars = chars_of(s);
    let mut end = chars.len();
    assert(chars@.take(end as int) =~= chars@);
    while end > 0 && chars[end - 1] == '/'
        invariant
            end <= chars@.len(),
            chars@ == s@,
            without_trailing_slashes(s@) == without_trailing_slashes(chars@.take(end as int)),
        decreases end,
    {
        assert(chars@.take(end as int).drop_last() =~= chars@.take(end - 1));
        end = end - 1;
    }
    let kept = slice_chars(chars.as_slice(), 0, end);
    assert(kept@ =~= chars@.take(end as int));
    string_of(kept.as_slice())
}

/// What the archive reader reports of one entry of a ZIP archive.
#[derive(Clone, Debug, PartialEq, Eq)]
pub struct ArchiveEntryFacts {
    /// The entry name as a relative path that stays inside the archive, as text
    /// (`ZipFile::enclosed_name`); `None` when the name would escape the archive.
    pub enclosed_name: Option<String>,
    /// Whether the entry is a directory.
    pub directory: bool,
    /// The uncompressed size in bytes.
    pub size: u64,
    /// The compressed size in bytes.
    pub compressed_size: u64,
    /// The Unix mode bits recorded for the entry, if any.
    pub unix_mode: Option<u32>,
}

/// The path under which an entry with this enclosed name is browsed: backslashes read as
/// `/`, trailing slashes dropped, then normalized; `None` when it is unsafe.
pub open spec fn safe_entry_path(style: PathStyle, enclosed: Seq<char>) -> Option<Seq<char>> {
    normalized_inner(style, without_trailing_slashes(replaced(enclosed, '\\', "/"@)))
}

/// The browsable path of an entry, if it has a safe one.
pub open spec fn entry_path(style: PathStyle, e: ArchiveEntryFacts) -> Option<Seq<char>> {
    match e.enclosed_name {
        Some(n) => safe_entry_path(style, n@),
        None => None,
    }
}

/// The browsable path of an archive entry; `None` for an entry whose name escapes the
/// archive or is otherwise unsafe.
pub fn safe_zip_path(facts: &ArchiveEntryFacts, style: PathStyle) -> (r: Option<String>)
    ensures
        match entry_path(style, *facts) {
            Some(p) => r matches Some(s) && s@ == p,
            None => r is None,
        },
{
    match &facts.enclosed_name {
        None => None,
        Some(name) => {
            let slashed = replace_char(name.as_str(), '\\', "/");
            let trimmed = trim_trailing_slashes(slashed.as_str());
            match normalize_inner(trimmed.as_str(), style) {
                Ok(path) => Some(path),
                Err(_) => None,
            }
        },
    }
}

/// Whether an entry is a ZIP symbolic link: its Unix mode has the symlink file type.
pub open spec fn is_symlink_mode(mode: Option<u32>) -> bool {
    mode matches Some(m) && m & 0o170000 == 0o120000
}

pub fn is_zip_symlink(facts: &ArchiveEntryFacts) -> (r: bool)
    ensures
        r == is_symlink_mode(facts.unix_mode),
{
    match facts.unix_mode {
        Some(mode) => mode & 0o170000 == 0o120000,
        None => false,
    }
}

/// One node of an archive's tree: a path, whether it is a directory, and its sizes.
#[derive(Debug)]
pub struct ArchiveNode {
    pub path: String,
    pub directory: bool,
    pub size: u64,
    pub compressed_size: u64,
}

/// A node as values: path, directory flag, size and compressed size.
pub type ArchiveNodeView = (Seq<char>, bool, u64, u64);

impl View for ArchiveNode {
    type V = ArchiveNodeView;

    open spec fn view(&self) -> ArchiveNodeView {
        (self.path@, self.directory, self.size, self.compressed_size)
    }
}

impl Clone for ArchiveNode {
    fn clone(&self) -> (r: Self)
        ensures
            r@ == self@,
    {
        ArchiveNode {
            path: self.path.as_str().to_owned(),
            directory: self.directory,
            size: self.size,
            compressed_size: self.compressed_size,
        }
    }
}

/// A directory node that no entry describes.
pub open spec fn directory_node(path: Seq<char>) -> ArchiveNodeView {
    (path, true, 0, 0)
}

/// The node an entry describes at a path.
pub open spec fn entry_node(path: Seq<char>, e: ArchiveEntryFacts) -> ArchiveNodeView {
    (path, e.directory, e.size, e.compressed_size)
}

/// Whether `k` is an ancestor directory of the path `p`: a non-empty prefix of it that a
/// `/` follows.
pub open spec fn is_parent_path(k: Seq<char>, p: Seq<char>) -> bool {
    0 < k.len() < p.len() && p[k.len() as int] == '/' && p.take(k.len() as int) == k
}

/// Nodes with a directory node added for every ancestor of `p` that has none.
pub open spec fn with_parent_nodes(m: Map<Seq<char>, ArchiveNodeView>, p: Seq<char>) -> Map<
    Seq<char>,
    ArchiveNodeView,
> {
    Map::new(
        |k: Seq<char>| m.contains_key(k) || is_parent_path(k, p),
        |k: Seq<char>|
            if m.contains_key(k) {
                m[k]
            } else {
                directory_node(k)
            },
    )
}

/// The nodes of an archive whose entries are reported in this order: each entry with a safe
/// path adds its missing ancestors, then replaces or adds its own node.
pub open spec fn indexed(entries: Seq<ArchiveEntryFacts>, style: PathStyle) -> Map<
    Seq<char>,
    ArchiveNodeView,
>
    decreases entries.len(),
{
    if entries.len() == 0 {
        Map::empty()
    } else {
        let m = indexed(entries.drop_last(), style);
        match entry_path(style, entries.last()) {
            Some(p) => with_parent_nodes(m, p).insert(p, entry_node(p, entries.last())),
            None => m,
        }
    }
}

/// Whether an entry is a browsable file larger than the safety limit.
pub open spec fn oversized(style: PathStyle, e: ArchiveEntryFacts) -> bool {
    entry_path(style, e) is Some && !e.directory && e.size > MAX_ENTRY_SIZE
}

/// The message that refuses an oversized entry.
pub open spec fn oversized_message(path: Seq<char>) -> Seq<char> {
    "archive entry "@ + path + " exceeds the 268435456 byte safety limit"@
}

/// The text that paths directly inside a directory start with.
pub open spec fn child_prefix(parent: Seq<char>) -> Seq<char> {
    if parent.len() == 0 {
        Seq::empty()
    } else {
        parent.push('/')
    }
}

/// Whether `path` names an entry directly inside the directory `parent`.
pub open spec fn is_child_path(parent: Seq<char>, path: Seq<char>) -> bool {
    let pre = child_prefix(parent);
    spec_starts_with(path, pre) && path.len() > pre.len() && !path.skip(pre.len() as int).contains(
        '/',
    )
}

/// The paths directly inside `parent`, in the order given.
pub open spec fn child_paths(paths: Seq<Seq<char>>, parent: Seq<char>) -> Seq<Seq<char>>
    decreases paths.len(),
{
    if paths.len() == 0 {
        Seq::empty()
    } else {
        let init = child_paths(paths.drop_last(), parent);
        if is_child_path(parent, paths.last()) {
            init.push(paths.last())
        } else {
            init
        }
    }
}

/// The index of an archive: its nodes by path, in path order.
pub struct ArchiveIndex {
    nodes: StrMap<ArchiveNode>,
}

impl View for ArchiveIndex {
    type V = Map<Seq<char>, ArchiveNodeView>;

    closed spec fn view(&self) -> Map<Seq<char>, ArchiveNodeView> {
        Map::new(|k: Seq<char>| self.nodes.map().contains_key(k), |k: Seq<char>| self.nodes.map()[k]@)
    }
}

impl ArchiveIndex {
    /// Every node sits under its own path.
    #[verifier::type_invariant]
    closed spec fn paths_match(&self) -> bool {
        forall|k: Seq<char>| #[trigger] self.nodes.map().contains_key(k) ==> self.nodes.map()[k].path@ == k
    }

    /// The paths of the nodes, in order.
    pub closed spec fn paths(&self) -> Seq<Seq<char>> {
        self.nodes.keys()
    }

    fn empty() -> (r: Self)
        ensures
            r@ == Map::<Seq<char>, ArchiveNodeView>::empty(),
    {
        let r = ArchiveIndex { nodes: StrMap::new() };
        assert(r@ =~= Map::<Seq<char>, ArchiveNodeView>::empty());
        r
    }

    fn put(&mut self, node: ArchiveNode)
        ensures
            final(self)@ == old(self)@.insert(node.path@, node@),
    {
        proof {
            use_type_invariant(&*self);
        }
        let ghost before = self@;
        let key = node.path.as_str().to_owned();
        let ghost v = node@;
        let mut nodes = StrMap::new();
        std::mem::swap(&mut nodes, &mut self.nodes);
        nodes.insert(key, node);
        self.nodes = nodes;
        assert(self@ =~= before.insert(v.0, v));
    }

    fn has(&self, path: &str) -> (r: bool)
        ensures
            r == self@.contains_key(path@),
    {
        self.nodes.contains_key(path)
    }

    /// Adds a directory node for every ancestor of `path` that has no node yet.
    fn insert_parent_nodes(&mut self, path: &str)
        ensures
            final(self)@ == with_parent_nodes(old(self)@, path@),
    {
        let ghost m0 = self@;
        let chars = chars_of(path);
        let n = chars.len();
        let mut i: usize = 0;
        assert(self@ =~= Map::new(
            |k: Seq<char>| m0.contains_key(k) || (is_parent_path(k, path@) && k.len() < 0),
            |k: Seq<char>| if m0.contains_key(k) { m0[k] } else { directory_node(k) },
        ));
        while i < n
            invariant
                i <= n,
                n == path@.len(),
                chars@ == path@,
                self@ == Map::new(
                    |k: Seq<char>| m0.contains_key(k) || (is_parent_path(k, path@) && k.len() < i),
                    |k: Seq<char>| if m0.contains_key(k) { m0[k] } else { directory_node(k) },
                ),
            decreases n - i,
        {
            if i > 0 && chars[i] == '/' {
                let key_chars = slice_chars(chars.as_slice(), 0, i);
                let key = string_of(key_chars.as_slice());
                assert(key@ =~= path@.take(i as int));
                if !self.has(key.as_str()) {
                    let ghost before = self@;
                    let node = ArchiveNode {
                        path: key,
                        directory: true,
                        size: 0,
                        compressed_size: 0,
                    };
                    self.put(node);
                    assert(self@ =~= Map::new(
                        |k: Seq<char>| m0.contains_key(k) || (is_parent_path(k, path@) && k.len()
                            < i + 1),
                        |k: Seq<char>| if m0.contains_key(k) { m0[k] } else { directory_node(k) },
                    ));
                } else {
                    assert(self@ =~= Map::new(
                        |k: Seq<char>| m0.contains_key(k) || (is_parent_path(k, path@) && k.len()
                            < i + 1),
                        |k: Seq<char>| if m0.contains_key(k) { m0[k] } else { directory_node(k) },
                    ));
                }
            } else {
                assert forall|k: Seq<char>| is_parent_path(k, path@) && k.len() == i implies false by {
                    assert(path@[k.len() as int] == '/');
                }
                assert(self@ =~= Map::new(
                    |k: Seq<char>| m0.contains_key(k) || (is_parent_path(k, path@) && k.len() < i
                        + 1),
                    |k: Seq<char>| if m0.contains_key(k) { m0[k] } else { directory_node(k) },
                ));
            }
            i = i + 1;
        }
        assert(self@ =~= with_parent_nodes(m0, path@));
    }

    /// Indexes the entries of an archive in the order the archive lists them.
    pub fn from_entries(entries: &Vec<ArchiveEntryFacts>, style: PathStyle) -> (r: Result<
        Self,
        ProviderError,
    >)
        ensures
            entries@.len() > MAX_ARCHIVE_ENTRIES ==> (r matches Err(e) && failed_with(
                e,
                "archive contains more than 100000 entries"@,
            )),
            entries@.len() <= MAX_ARCHIVE_ENTRIES && (forall|i: int|
                0 <= i < entries@.len() ==> !#[trigger] oversized(style, entries@[i])) ==> (r matches Ok(
                index,
            ) && index@ == indexed(entries@, style)),
            forall|i: int|
                0 <= i < entries@.len() && entries@.len() <= MAX_ARCHIVE_ENTRIES && #[trigger] oversized(
                    style,
                    entries@[i],
                ) && (forall|j: int| 0 <= j < i ==> !oversized(style, entries@[j])) ==> (r matches Err(
                    e,
                ) && failed_with(e, oversized_message(entry_path(style, entries@[i])->0))),
    {
        if entries.len() > MAX_ARCHIVE_ENTRIES {
            return Err(ProviderError::Failed("archive contains more than 100000 entries".to_owned()));
        }
        let mut index = Self::empty();
        let mut i: usize = 0;
        assert(entries@.take(0) =~= Seq::<ArchiveEntryFacts>::empty());
        while i < entries.len()
            invariant
                i <= entries@.len(),
                entries@.len() <= MAX_ARCHIVE_ENTRIES,
                index@ == indexed(entries@.take(i as int), style),
                forall|j: int| 0 <= j < i ==> !#[trigger] oversized(style, entries@[j]),
            decreases entries@.len() - i,
        {
            let facts = &entries[i];
            assert(entries@.take(i + 1).drop_last() =~= entries@.take(i as int));
            assert(entries@.take(i + 1).last() == *facts);
            match safe_zip_path(facts, style) {
                None => {},
                Some(path) => {
                    if !facts.directory && facts.size > MAX_ENTRY_SIZE {
                        assert(oversized(style, entries@[i as int]));
                        let mut message = "archive entry ".to_owned();
                        push_str(&mut message, path.as_str());
                        push_str(&mut message, " exceeds the 268435456 byte safety limit");
                        return Err(ProviderError::Failed(message));
                    }
                    index.insert_parent_nodes(path.as_str());
                    let node = ArchiveNode {
                        path,
                        directory: facts.directory,
                        size: facts.size,
                        compressed_size: facts.compressed_size,
                    };
                    index.put(node);
                },
            }
            i = i + 1;
        }
        assert(entries@.take(entries@.len() as int) =~= entries@);
        Ok(index)
    }

    /// The nodes directly inside a directory, in path order.
    #[verifier::spinoff_prover]
    #[verifier::rlimit(40)]
    pub fn children(&self, parent: &str) -> (r: Vec<ArchiveNode>)
        ensures
            sorted_keys(self.paths()),
            forall|k: Seq<char>| self.paths().contains(k) <==> #[trigger] self@.contains_key(k),
            r@.len() == child_paths(self.paths(), parent@).len(),
            forall|i: int|
                0 <= i < r@.len() ==> (#[trigger] r@[i])@ == self@[child_paths(self.paths(), parent@)[i]]
                    && r@[i]@.0 == child_paths(self.paths(), parent@)[i],
    {
        proof {
            use_type_invariant(self);
            use_type_invariant(&self.nodes);
            self.nodes.lemma_lengths();
        }
        let mut prefix = chars_of(parent);
        if prefix.len() > 0 {
            prefix.push('/');
        }
        assert(prefix@ == child_prefix(parent@));
        let mut out: Vec<ArchiveNode> = Vec::new();
        let mut i: usize = 0;
        let n = self.nodes.len();
        assert(self.paths().take(0) =~= Seq::<Seq<char>>::empty());
        while i < n
            invariant
                i <= n,
                n == self.paths().len(),
                n == self.nodes.values().len(),
                prefix@ == child_prefix(parent@),
                sorted_keys(self.paths()),
                forall|j: int| 0 <= j < n ==> #[trigger] self.nodes.raw_keys()[j]@ == self.paths()[j],
                out@.len() == child_paths(self.paths().take(i as int), parent@).len(),
                forall|j: int|
                    0 <= j < out@.len() ==> (#[trigger] out@[j])@ == self@[child_paths(
                        self.paths().take(i as int),
                        parent@,
                    )[j]] && out@[j]@.0 == child_paths(self.paths().take(i as int), parent@)[j],
                forall|k: Seq<char>| #[trigger] self.nodes.map().contains_key(k) ==> self.nodes.map()[k].path@ == k,
                forall|k: Seq<char>| self.paths().contains(k) <==> #[trigger] self.nodes.map().contains_key(k),
            decreases n - i,
        {
            let key = self.nodes.key_at(i);
            let path = chars_of(key.as_str());
            let ghost k = self.paths()[i as int];
            assert(self.paths().take(i + 1).drop_last() =~= self.paths().take(i as int));
            assert(self.paths().take(i + 1).last() == k);
            let child = if starts_with(path.as_slice(), prefix.as_slice()) && path.len()
                > prefix.len() {
                let rest = slice_chars(path.as_slice(), prefix.len(), path.len());
                assert(rest@ =~= k.skip(prefix@.len() as int));
                !contains_char(rest.as_slice(), '/')
            } else {
                false
            };
            assert(child == is_child_path(parent@, k));
            if child {
                let node = self.nodes.value_at(i);
                proof {
                    crate::strmap::lemma_index_of_sorted(self.paths(), i as int);
                    assert(self.nodes.map().contains_key(k));
                    assert(self.nodes.map()[k] == self.nodes.values()[i as int]);
                    assert(self.nodes.map()[k].path@ == k);
                    assert(self@[k] == self.nodes.map()[k]@);
                }
                let copy = node.clone();
                let ghost before = out@;
                out.push(copy);
                proof {
                    let cp = child_paths(self.paths().take(i + 1), parent@);
                    assert(cp == child_paths(self.paths().take(i as int), parent@).push(k));
                    assert forall|j: int| 0 <= j < out@.len() implies (#[trigger] out@[j])@ == self@[cp[j]]
                        && out@[j]@.0 == cp[j] by {
                        if j < before.len() {
                            assert(out@[j] == before[j]);
                        }
                    }
                }
            }
            i = i + 1;
        }
        assert(self.paths().take(n as int) =~= self.paths());
        proof {
            assert forall|k: Seq<char>| self.paths().contains(k) <==> #[trigger] self@.contains_key(k) by {}
        }
        out
    }

    /// The node at an inner path; the archive root is a directory.
    pub fn node(&self, inner: &str) -> (r: Option<ArchiveNode>)
        ensures
            inner@.len() == 0 ==> (r matches Some(n) && n@ == directory_node(Seq::empty())),
            inner@.len() > 0 ==> match r {
                Some(n) => self@.contains_key(inner@) && n@ == self@[inner@],
                None => !self@.contains_key(inner@),
            },
    {
        if inner.is_empty() {
            return Some(ArchiveNode { path: String::new(), directory: true, size: 0, compressed_size: 0 });
        }
        match self.nodes.get(inner) {
            Some(node) => Some(node.clone()),
            None => None,
        }
    }
}

/// The identifier of the archive provider.
pub open spec fn archive_provider_id() -> Seq<char> {
    "near.archive"@
}

/// A compressed size as a metadata integer, saturating at `i64::MAX`.
pub open spec fn compressed_size_value(c: u64) -> i64 {
    if c <= 0x7fff_ffff_ffff_ffffu64 {
        c as i64
    } else {
        0x7fff_ffff_ffff_ffffi64
    }
}

/// The details line of a node: `archive directory`, or the size and the compressed size.
pub open spec fn node_details(node: ArchiveNodeView) -> Seq<char> {
    if node.1 {
        "archive directory"@
    } else {
        decimal(node.2 as nat) + " B → "@ + decimal(node.3 as nat) + " B"@
    }
}

/// Whether a listing entry describes the node at `inner` of the archive at `source`.
pub open spec fn archive_entry_matches(
    e: ResourceEntry,
    source: Seq<char>,
    inner: Seq<char>,
    node: ArchiveNodeView,
) -> bool {
    let ext = e.metadata.extensions.map();
    &&& e.resource.provider@ == archive_provider_id()
    &&& e.resource.location@ == archive_root_text(source) + inner
    &&& e.metadata.name@ == last_segment(node.0)
    &&& e.metadata.kind == (if node.1 {
        ResourceKind::Directory
    } else {
        ResourceKind::File
    })
    &&& e.metadata.size == (if node.1 {
        None
    } else {
        Some(node.2)
    })
    &&& e.metadata.stable_id matches Some(id) && id@ == "zip:"@ + source + ":"@ + inner
    &&& e.metadata.modified_unix_ms is None
    &&& e.metadata.created_unix_ms is None
    &&& e.metadata.accessed_unix_ms is None
    &&& e.metadata.permissions is None
    &&& e.metadata.owner is None
    &&& e.metadata.hidden is None
    &&& e.metadata.link_target is None
    &&& e.metadata.field_errors.size() == 0
    &&& ext.dom() == set![
        "near.archive.source"@,
        "near.archive.entry"@,
        "near.archive.compressed-size"@,
    ]
    &&& ext["near.archive.source"@] matches MetadataValue::String(v) && v@ == source
    &&& ext["near.archive.entry"@] matches MetadataValue::String(v) && v@ == inner
    &&& ext["near.archive.compressed-size"@] == MetadataValue::Integer(compressed_size_value(node.3))
    &&& e.details@ == node_details(node)
}

/// Where a listing page starts: the continuation read as a position, clamped to the length.
pub open spec fn page_start(continuation: Option<Seq<char>>, len: nat) -> nat {
    let s: nat = match continuation {
        Some(c) => match spec_parse_usize(c) {
            Some(v) => v as nat,
            None => 0,
        },
        None => 0,
    };
    if s < len {
        s
    } else {
        len
    }
}

/// Where a listing page ends: `page_size` entries after its start, clamped to the length.
pub open spec fn page_end(start: nat, page_size: nat, len: nat) -> nat {
    if start + page_size < len {
        start + page_size
    } else {
        len
    }
}

/// The capabilities of an archive resource, given the node it names, if any.
pub open spec fn node_capabilities(node: Option<ArchiveNodeView>) -> Set<Seq<char>> {
    match node {
        None => Set::empty(),
        Some(n) => if n.1 {
            set!["resource.inspect"@, "resource.copy"@, "resource.list"@, "archive.update"@]
        } else {
            set!["resource.inspect"@, "resource.copy"@, "resource.read"@]
        },
    }
}

/// Whether a file name has the extension `zip`, in any ASCII case.
pub open spec fn is_zip_name(name: Seq<char>) -> bool {
    extension_of(name) matches Some(e) && spec_lower(e) == "zip"@
}

/// What `create_container` decides for a name below a parent location: `None` when the
/// parent is not a local directory or the name is not a ZIP name, an error message for an
/// invalid name, or the name of the archive to create.
pub open spec fn container_decision(parent: Seq<char>, name: Seq<char>) -> Option<
    Result<(), Seq<char>>,
> {
    if !spec_starts_with(parent, "file:"@) {
        None
    } else if name.len() == 0 || name.contains('/') || name.contains('\\') {
        Some(Err("invalid archive name: "@ + name))
    } else if !is_zip_name(name) {
        None
    } else {
        Some(Ok(()))
    }
}

/// Where a location sits when navigating up from an archive.
#[derive(Debug)]
pub enum ArchiveParent {
    /// The enclosing entry, or the archive root.
    Entry(Location),
    /// Up from the archive root: the directory that holds the archive file, whose own
    /// location is given.
    ArchiveFileDirectory(Location),
}

/// The ZIP archive provider.
#[derive(Clone, Copy, Debug, Default)]
pub struct ZipArchiveProvider;

impl ZipArchiveProvider {
    /// The provider identifier, `near.archive`.
    pub fn id(&self) -> (r: ProviderId)
        ensures
            r@ == archive_provider_id(),
    {
        ProviderId::new("near.archive")
    }

    /// The location schemes the provider owns.
    pub fn schemes(&self) -> (r: Vec<String>)
        ensures
            r@.len() == 1,
            r@[0]@ == "archive"@,
    {
        let mut v: Vec<String> = Vec::new();
        v.push("archive".to_owned());
        v
    }

    /// The location of the root of the archive whose file is at `source`.
    pub fn root_for(source: &Location) -> (r: Location)
        ensures
            r@ == archive_root_text(source@),
    {
        ArchiveAddress::root(source)
    }

    /// The capabilities of the archive format: creating and updating archives.
    pub fn format_capabilities() -> (r: CapabilitySet)
        ensures
            r.spec_set() == set!["archive.create"@, "archive.update"@],
    {
        let mut capabilities = CapabilitySet::new();
        capabilities.insert(CapabilityId::new("archive.create"));
        capabilities.insert(CapabilityId::new("archive.update"));
        assert(capabilities.spec_set() =~= set!["archive.create"@, "archive.update"@]);
        capabilities
    }

    /// The resource reference of an archive entry.
    pub fn resource(address: &ArchiveAddress) -> (r: ResourceRef)
        ensures
            r.provider@ == archive_provider_id(),
            r.location@ == archive_root_text(address.source@) + address.inner@,
    {
        ResourceRef { provider: ProviderId::new("near.archive"), location: address.location() }
    }

    /// The listing entry of a node at an address.
    pub fn entry(address: &ArchiveAddress, node: &ArchiveNode) -> (r: ResourceEntry)
        ensures
            archive_entry_matches(r, address.source@, address.inner@, node@),
    {
        let path = chars_of(node.path.as_str());
        let name = string_of(last_segment_of(path.as_slice()).as_slice());
        let mut metadata = ResourceMetadata::default();
        proof {
            metadata.extensions.lemma_lengths();
            assert(metadata.extensions.map() =~= Map::<Seq<char>, MetadataValue>::empty());
        }
        metadata.name = name;
        metadata.kind = if node.directory {
            ResourceKind::Directory
        } else {
            ResourceKind::File
        };
        metadata.size = if node.directory {
            None
        } else {
            Some(node.size)
        };
        let mut id = "zip:".to_owned();
        push_str(&mut id, address.source.as_str());
        push_str(&mut id, ":");
        push_str(&mut id, address.inner.as_str());
        metadata.stable_id = Some(id);
        let compressed: i64 = if node.compressed_size <= 0x7fff_ffff_ffff_ffffu64 {
            node.compressed_size as i64
        } else {
            0x7fff_ffff_ffff_ffffi64
        };
        metadata.extensions.insert(
            "near.archive.source".to_owned(),
            MetadataValue::String(address.source.as_str().to_owned()),
        );
        metadata.extensions.insert(
            "near.archive.entry".to_owned(),
            MetadataValue::String(address.inner.as_str().to_owned()),
        );
        metadata.extensions.insert(
            "near.archive.compressed-size".to_owned(),
            MetadataValue::Integer(compressed),
        );
        proof {
            reveal_strlit("near.archive.source");
            reveal_strlit("near.archive.entry");
            reveal_strlit("near.archive.compressed-size");
            assert("near.archive.source"@[13] == 's');
            assert("near.archive.entry"@[13] == 'e');
            assert("near.archive.compressed-size"@[13] == 'c');
            assert("near.archive.source"@ != "near.archive.entry"@);
            assert("near.archive.source"@ != "near.archive.compressed-size"@);
            assert("near.archive.entry"@ != "near.archive.compressed-size"@);
            assert(metadata.extensions.map().dom() =~= set![
                "near.archive.source"@,
                "near.archive.entry"@,
                "near.archive.compressed-size"@,
            ]);
        }
        let details = if node.directory {
            "archive directory".to_owned()
        } else {
            let mut text = u64_decimal(node.size);
            push_str(&mut text, " B → ");
            let compressed_text = u64_decimal(node.compressed_size);
            push_str(&mut text, compressed_text.as_str());
            push_str(&mut text, " B");
            text
        };
        ResourceEntry { resource: Self::resource(address), metadata, details }
    }

    /// One page of the listing of an archive directory, given the archive's index.
    pub fn list(&self, address: &ArchiveAddress, index: &ArchiveIndex, request: &ListRequest) -> (r:
        Result<ListPage, ProviderError>)
        ensures
            address.inner@.len() > 0 && !index@.contains_key(address.inner@) ==> (r matches Err(
                ProviderError::NotFound(res),
            ) && res.provider@ == archive_provider_id() && res.location@ == archive_root_text(
                address.source@,
            ) + address.inner@),
            address.inner@.len() > 0 && index@.contains_key(address.inner@) && !index@[address.inner@].1
                ==> (r matches Err(ProviderError::Unsupported(m)) && m@ == address.inner@
                + " is not an archive directory"@),
            (address.inner@.len() == 0 || (index@.contains_key(address.inner@)
                && index@[address.inner@].1)) ==> r is Ok,
            r matches Ok(page) ==> ({
                let children = child_paths(index.paths(), address.inner@);
                let len = children.len();
                let start = page_start(
                    match request.continuation {
                        Some(c) => Some(c@),
                        None => None,
                    },
                    len,
                );
                let end = page_end(start, request.page_size as nat, len);
                &&& page.generation == request.generation
                &&& page.entries@.len() == end - start
                &&& forall|i: int|
                    0 <= i < page.entries@.len() ==> archive_entry_matches(
                        #[trigger] page.entries@[i],
                        address.source@,
                        child_inner(address.inner@, last_segment(children[start + i])),
                        index@[children[start + i]],
                    )
                &&& page.complete == (end == len)
                &&& (end < len ==> (page.continuation matches Some(c) && c@ == decimal(end)))
                &&& (end == len ==> page.continuation is None)
            }),
    {
        let node = match index.node(address.inner.as_str()) {
            Some(node) => node,
            None => {
                return Err(ProviderError::NotFound(Self::resource(address)));
            },
        };
        if !node.directory {
            let mut message = address.inner.as_str().to_owned();
            push_str(&mut message, " is not an archive directory");
            return Err(ProviderError::Unsupported(message));
        }
        let children = index.children(address.inner.as_str());
        let ghost paths = child_paths(index.paths(), address.inner@);
        let len = children.len();
        let parsed: usize = match &request.continuation {
            Some(text) => match parse_usize(text.as_str()) {
                Some(v) => v,
                None => 0,
            },
            None => 0,
        };
        let start = if parsed < len {
            parsed
        } else {
            len
        };
        let end = if request.page_size <= len - start {
            start + request.page_size
        } else {
            len
        };
        let mut entries: Vec<ResourceEntry> = Vec::new();
        let mut i = start;
        while i < end
            invariant
                start <= i <= end <= len,
                len == children@.len(),
                len == paths.len(),
                entries@.len() == i - start,
                forall|j: int|
                    0 <= j < children@.len() ==> (#[trigger] children@[j])@ == index@[paths[j]]
                        && children@[j]@.0 == paths[j],
                forall|j: int|
                    0 <= j < entries@.len() ==> archive_entry_matches(
                        #[trigger] entries@[j],
                        address.source@,
                        child_inner(address.inner@, last_segment(paths[start + j])),
                        index@[paths[start + j]],
                    ),
            decreases end - i,
        {
            let child_node = &children[i];
            let path = chars_of(child_node.path.as_str());
            let name = string_of(last_segment_of(path.as_slice()).as_slice());
            let child = address.child(name.as_str());
            let e = Self::entry(&child, child_node);
            entries.push(e);
            i = i + 1;
        }
        let continuation = if end < len {
            Some(usize_decimal(end))
        } else {
            None
        };
        Ok(ListPage { generation: request.generation, entries, continuation, complete: end == len })
    }

    /// How a read of an archive entry proceeds: how many bytes to skip and how many to take
    /// at most; refused for directories and for entries over the safety limit.
    pub fn read_window(directory: bool, size: u64, offset: u64, length: usize) -> (r: Result<
        (u64, u64),
        ProviderError,
    >)
        ensures
            directory ==> (r matches Err(ProviderError::Unsupported(m)) && m@
                == "cannot read an archive directory"@),
            !directory && size > MAX_ENTRY_SIZE ==> (r matches Err(e) && failed_with(
                e,
                "archive entry exceeds safety limit"@,
            )),
            !directory && size <= MAX_ENTRY_SIZE ==> r == Ok::<(u64, u64), ProviderError>(
                (
                    if offset < size {
                        offset
                    } else {
                        size
                    },
                    if length < MAX_OPEN_LENGTH {
                        length as u64
                    } else {
                        MAX_OPEN_LENGTH as u64
                    },
                ),
            ),
    {
        if directory {
            return Err(ProviderError::Unsupported("cannot read an archive directory".to_owned()));
        }
        if size > MAX_ENTRY_SIZE {
            return Err(ProviderError::Failed("archive entry exceeds safety limit".to_owned()));
        }
        let skip = if offset < size {
            offset
        } else {
            size
        };
        let take: u64 = if length < MAX_OPEN_LENGTH {
            length as u64
        } else {
            MAX_OPEN_LENGTH as u64
        };
        Ok((skip, take))
    }

    /// Whether a read that starts at `offset` and asks for `length` bytes reaches the end of
    /// an entry of `total` bytes.
    pub fn read_reaches_end(offset: u64, length: usize, total: u64) -> (r: bool)
        ensures
            r == ((if offset + length > u64::MAX {
                u64::MAX as int
            } else {
                offset + length
            }) >= total),
    {
        let len = length as u64;
        let end = if offset <= u64::MAX - len {
            offset + len
        } else {
            u64::MAX
        };
        end >= total
    }

    /// The metadata of an archive resource, given the archive's index.
    pub fn stat(address: &ArchiveAddress, index: &ArchiveIndex, resource: &ResourceRef) -> (r: Result<
        ResourceMetadata,
        ProviderError,
    >)
        ensures
            address.inner@.len() > 0 && !index@.contains_key(address.inner@) ==> r == Err::<
                ResourceMetadata,
                ProviderError,
            >(ProviderError::NotFound(*resource)),
            address.inner@.len() == 0 ==> r is Ok,
            address.inner@.len() > 0 && index@.contains_key(address.inner@) ==> r is Ok,
            r matches Ok(m) ==> exists|e: ResourceEntry|
                e.metadata == m && archive_entry_matches(
                    e,
                    address.source@,
                    address.inner@,
                    if address.inner@.len() == 0 {
                        directory_node(Seq::empty())
                    } else {
                        index@[address.inner@]
                    },
                ),
    {
        let node = match index.node(address.inner.as_str()) {
            Some(node) => node,
            None => {
                return Err(ProviderError::NotFound(resource.clone()));
            },
        };
        let e = Self::entry(address, &node);
        Ok(e.metadata)
    }

    /// The uncompressed size of the entry at an address.
    pub fn entry_size(address: &ArchiveAddress, index: &ArchiveIndex) -> (r: Result<u64, ProviderError>)
        ensures
            address.inner@.len() == 0 ==> r == Ok::<u64, ProviderError>(0),
            address.inner@.len() > 0 ==> match r {
                Ok(size) => index@.contains_key(address.inner@) && size == index@[address.inner@].2,
                Err(e) => !index@.contains_key(address.inner@) && (e matches ProviderError::NotFound(res)
                    && res.provider@ == archive_provider_id() && res.location@ == archive_root_text(
                    address.source@,
                ) + address.inner@),
            },
    {
        match index.node(address.inner.as_str()) {
            Some(node) => Ok(node.size),
            None => Err(ProviderError::NotFound(Self::resource(address))),
        }
    }

    /// The capabilities of an archive resource, given the node it names (`None` when the
    /// location, the archive or the entry cannot be read).
    pub fn capabilities_for(node: Option<&ArchiveNode>) -> (r: CapabilitySet)
        ensures
            r.spec_set() == node_capabilities(
                match node {
                    Some(n) => Some(n@),
                    None => None,
                },
            ),
    {
        let mut capabilities = CapabilitySet::new();
        if let Some(n) = node {
            capabilities.insert(CapabilityId::new("resource.inspect"));
            capabilities.insert(CapabilityId::new("resource.copy"));
            if n.directory {
                capabilities.insert(CapabilityId::new("resource.list"));
                capabilities.insert(CapabilityId::new("archive.update"));
            } else {
                capabilities.insert(CapabilityId::new("resource.read"));
            }
        }
        proof {
            let ghost v = match node {
                Some(n) => Some(n@),
                None => None,
            };
            assert(capabilities.spec_set() =~= node_capabilities(v));
        }
        capabilities
    }

    /// Where navigating up from an archive location leads; `None` for a location that is not
    /// a well-formed archive location.
    pub fn parent(&self, location: &Location, style: PathStyle) -> (r: Option<ArchiveParent>)
        requires
            !archive_location_panics(location@),
        ensures
            match parsed_archive_location(location@, style) {
                None => r is None,
                Some((source, inner)) => if inner.len() == 0 {
                    r matches Some(ArchiveParent::ArchiveFileDirectory(l)) && l@ == source
                } else {
                    r matches Some(ArchiveParent::Entry(l)) && l@ == archive_root_text(source)
                        + parent_inner(inner)
                },
            },
    {
        let address = match ArchiveAddress::parse(location, style) {
            Ok(address) => address,
            Err(_) => {
                return None;
            },
        };
        match address.parent() {
            Some(parent) => Some(ArchiveParent::Entry(parent.location())),
            None => Some(ArchiveParent::ArchiveFileDirectory(address.source)),
        }
    }

    /// Whether a file name names a ZIP archive.
    pub fn is_zip_name(name: &str) -> (r: bool)
        ensures
            r == is_zip_name(name@),
    {
        match name_extension(name) {
            Some(extension) => {
                let chars = chars_of(extension.as_str());
                let lowered = string_of(lower_chars(chars.as_slice()).as_slice());
                str_eq(lowered.as_str(), "zip")
            },
            None => false,
        }
    }

    /// Whether a new archive called `name` is created below `parent` (`Ok(true)`), the
    /// request is not one for this provider (`Ok(false)`), or the name is invalid.
    pub fn container_name(&self, parent: &Location, name: &str) -> (r: Result<bool, ProviderError>)
        ensures
            match container_decision(parent@, name@) {
                None => r == Ok::<bool, ProviderError>(false),
                Some(Ok(())) => r == Ok::<bool, ProviderError>(true),
                Some(Err(m)) => r matches Err(e) && failed_with(e, m),
            },
    {
        let parent_chars = chars_of(parent.as_str());
        let file = chars_of("file:");
        if !starts_with(parent_chars.as_slice(), file.as_slice()) {
            return Ok(false);
        }
        let chars = chars_of(name);
        if chars.len() == 0 || contains_char(chars.as_slice(), '/') || contains_char(
            chars.as_slice(),
            '\\',
        ) {
            let mut message = "invalid archive name: ".to_owned();
            push_str(&mut message, name);
            return Err(ProviderError::Failed(message));
        }
        Ok(Self::is_zip_name(name))
    }

    /// The capabilities of a location as a container: local directories can receive new
    /// archives, archive locations can be updated.
    pub fn container_capabilities(&self, location: &Location) -> (r: CapabilitySet)
        ensures
            r.spec_set() == (if spec_starts_with(location@, "file:"@) {
                set!["archive.create"@]
            } else {
                Set::empty()
            }).union(
                if spec_starts_with(location@, "archive://zip/"@) {
                    set!["archive.update"@]
                } else {
                    Set::empty()
                },
            ),
    {
        let chars = chars_of(location.as_str());
        let mut capabilities = CapabilitySet::new();
        let file = chars_of("file:");
        let archive = chars_of("archive://zip/");
        let local = starts_with(chars.as_slice(), file.as_slice());
        if local {
            capabilities.insert(CapabilityId::new("archive.create"));
        }
        let inside = starts_with(chars.as_slice(), archive.as_slice());
        if inside {
            capabilities.insert(CapabilityId::new("archive.update"));
        }
        proof {
            let a = if local {
                set!["archive.create"@]
            } else {
                Set::<Seq<char>>::empty()
            };
            let b = if inside {
                set!["archive.update"@]
            } else {
                Set::<Seq<char>>::empty()
            };
            assert(capabilities.spec_set() =~= a.union(b));
        }
        capabilities
    }
}

/// How an archive copy moves data.
#[derive(Clone, Copy, Debug, PartialEq, Eq, Structural)]
pub enum ArchiveTransfer {
    /// Every source is an archive entry: they are extracted to a local directory.
    Extract,
    /// Every source is local and the destination is inside an archive: they are added.
    Add,
}

/// Whether every source belongs to the provider.
pub open spec fn all_from(sources: Seq<ResourceRef>, provider: Seq<char>) -> bool {
    forall|i: int| 0 <= i < sources.len() ==> (#[trigger] sources[i]).provider@ == provider
}

/// Whether a copy of these sources to this destination is an archive transfer, and which.
pub open spec fn transfer_of(sources: Seq<ResourceRef>, destination: Seq<char>) -> Option<
    ArchiveTransfer,
> {
    if all_from(sources, archive_provider_id()) {
        Some(ArchiveTransfer::Extract)
    } else if spec_starts_with(destination, "archive://zip/"@) && all_from(sources, local_provider_id()) {
        Some(ArchiveTransfer::Add)
    } else {
        None
    }
}

/// The policies of an archive transfer plan.
pub open spec fn transfer_policies() -> PlanPolicies {
    PlanPolicies {
        conflict: ConflictPolicy::Ask,
        metadata: MetadataPolicy::ContentsOnly,
        verification: VerificationPolicy::SizeAndTime,
        recovery: RecoveryPolicy::JournalOnly,
        cross_device: CrossDeviceBehavior::NotApplicable,
        symlink: SymlinkPolicy::Reject,
    }
}

fn all_sources_from(sources: &Vec<ResourceRef>, provider: &str) -> (r: bool)
    ensures
        r == all_from(sources@, provider@),
{
    let id = ProviderId::new(provider);
    let mut i: usize = 0;
    while i < sources.len()
        invariant
            i <= sources@.len(),
            id@ == provider@,
            forall|j: int| 0 <= j < i ==> (#[trigger] sources@[j]).provider@ == provider@,
        decreases sources@.len() - i,
    {
        if !sources[i].provider.same(&id) {
            return false;
        }
        i = i + 1;
    }
    true
}

/// Whether a copy is an archive transfer, and which.
pub fn transfer_kind(sources: &Vec<ResourceRef>, destination: &Location) -> (r: Option<
    ArchiveTransfer,
>)
    ensures
        r == transfer_of(sources@, destination@),
{
    proof {
        reveal_strlit("near.local-fs");
    }
    if all_sources_from(sources, "near.archive") {
        return Some(ArchiveTransfer::Extract);
    }
    let chars = chars_of(destination.as_str());
    let prefix = chars_of("archive://zip/");
    if starts_with(chars.as_slice(), prefix.as_slice()) && all_sources_from(sources, "near.local-fs") {
        assert("near.local-fs"@ =~= local_provider_id());
        Some(ArchiveTransfer::Add)
    } else {
        proof {
            assert("near.local-fs"@ =~= local_provider_id());
        }
        None
    }
}

/// The plan request of an archive transfer.
pub fn transfer_request(items: Vec<PlannedItem>, destination: &Location, generation: ListingGeneration) -> (r:
    PlanRequest)
    ensures
        r.kind == OperationKind::Copy,
        r.items@ == items@,
        r.destination == Some(*destination),
        r.policies == transfer_policies(),
        r.safety == SafetyClass::Confirmable,
        r.context_generation == generation,
        !r.high_impact,
{
    PlanRequest {
        kind: OperationKind::Copy,
        items,
        destination: Some(destination.clone()),
        policies: PlanPolicies {
            conflict: ConflictPolicy::Ask,
            metadata: MetadataPolicy::ContentsOnly,
            verification: VerificationPolicy::SizeAndTime,
            recovery: RecoveryPolicy::JournalOnly,
            cross_device: CrossDeviceBehavior::NotApplicable,
            symlink: SymlinkPolicy::Reject,
        },
        safety: SafetyClass::Confirmable,
        context_generation: generation,
        high_impact: false,
    }
}

/// Whether an intent moves resources into or out of an archive, which is refused.
pub open spec fn moves_across_archives(intent: OperationIntent) -> bool {
    intent matches OperationIntent::MoveTo { sources, destination } && ((exists|i: int|
        0 <= i < sources@.len() && (#[trigger] sources@[i]).provider@ == archive_provider_id())
        || spec_starts_with(destination@, "archive://zip/"@))
}

pub fn refuses_move(intent: &OperationIntent) -> (r: bool)
    ensures
        r == moves_across_archives(*intent),
{
    match intent {
        OperationIntent::MoveTo { sources, destination } => {
            let id = ProviderId::new("near.archive");
            let mut i: usize = 0;
            while i < sources.len()
                invariant
                    i <= sources@.len(),
                    id@ == archive_provider_id(),
                    *intent matches OperationIntent::MoveTo { sources: s, destination: d } && s@
                        == sources@,
                    forall|j: int| 0 <= j < i ==> (#[trigger] sources@[j]).provider@ != archive_provider_id(),
                decreases sources@.len() - i,
            {
                if sources[i].provider.same(&id) {
                    assert(sources@[i as int].provider@ == archive_provider_id());
                    return true;
                }
                i = i + 1;
            }
            let chars = chars_of(destination.as_str());
            let prefix = chars_of("archive://zip/");
            starts_with(chars.as_slice(), prefix.as_slice())
        },
        _ => false,
    }
}

/// The parameters of an archive plan item: its execution mode.
pub open spec fn mode_parameters(keys: Seq<Seq<char>>, values: Seq<String>, mode: Seq<char>) -> bool {
    keys == seq!["near.archive.mode"@] && values.len() == 1 && values[0]@ == mode
}

fn mode_map(mode: &str) -> (r: StrMap<String>)
    ensures
        mode_parameters(r.keys(), r.values(), mode@),
{
    let mut parameters = StrMap::new();
    parameters.insert("near.archive.mode".to_owned(), mode.to_owned());
    proof {
        parameters.lemma_lengths();
        crate::strmap::lemma_index_of_sorted(parameters.keys(), 0);
        assert(parameters.keys() =~= seq!["near.archive.mode"@]);
    }
    parameters
}

/// The name an extracted entry takes and whether it is extracted recursively, given the
/// node the source names: an error when the entry is missing or is the archive root.
pub fn extraction_source(address: &ArchiveAddress, node: Option<&ArchiveNode>) -> (r: Result<
    (String, bool),
    String,
>)
    ensures
        match node {
            None => r matches Err(m) && m@ == "archive entry not found: "@ + address.inner@,
            Some(n) => if address.inner@.len() == 0 {
                r matches Err(m) && m@ == "archive entry has no portable file name"@
            } else {
                r matches Ok((name, recursive)) && name@ == last_segment(address.inner@) && recursive
                    == n.directory
            },
        },
{
    let node = match node {
        Some(node) => node,
        None => {
            let mut message = "archive entry not found: ".to_owned();
            push_str(&mut message, address.inner.as_str());
            return Err(message);
        },
    };
    if address.inner.as_str().is_empty() {
        return Err("archive entry has no portable file name".to_owned());
    }
    let chars = chars_of(address.inner.as_str());
    let name = string_of(last_segment_of(chars.as_slice()).as_slice());
    Ok((name, node.directory))
}

/// The plan item that extracts an archive entry to a local target.
pub fn extraction_item(source: &ResourceRef, target: Location, recursive: bool, conflict_expected: bool) -> (r:
    PlannedItem)
    ensures
        r.source == Some(*source),
        r.target == target,
        r.recursive == recursive,
        r.conflict_expected == conflict_expected,
        mode_parameters(r.parameters.keys(), r.parameters.values(), "extract"@),
{
    PlannedItem {
        source: Some(source.clone()),
        target,
        conflict_expected,
        recursive,
        parameters: mode_map("extract"),
    }
}

/// The plan item that adds a local source to an archive directory: its target is the child
/// of that name, expected to conflict when the archive already holds an entry of that name.
pub fn addition_item(
    root: &ArchiveAddress,
    source: &ResourceRef,
    name: Option<&str>,
    directory: bool,
    index: Option<&ArchiveIndex>,
) -> (r: Result<PlannedItem, String>)
    ensures
        match name {
            None => r matches Err(m) && m@ == "local source has no portable file name"@,
            Some(n) => r matches Ok(item) && item.source == Some(*source) && item.target@
                == archive_root_text(root.source@) + child_inner(root.inner@, n@) && item.recursive
                == directory && item.conflict_expected == (match index {
                Some(ix) => n@.len() == 0 || ix@.contains_key(n@),
                None => false,
            }) && mode_parameters(item.parameters.keys(), item.parameters.values(), "add"@),
        },
{
    let name = match name {
        Some(name) => name,
        None => {
            return Err("local source has no portable file name".to_owned());
        },
    };
    let target = root.child(name).location();
    let conflict_expected = match index {
        Some(ix) => ix.node(name).is_some(),
        None => false,
    };
    Ok(PlannedItem {
        source: Some(source.clone()),
        target,
        conflict_expected,
        recursive: directory,
        parameters: mode_map("add"),
    })
}

/// Routes copies into and out of ZIP archives through archive plans of its own, refuses
/// moves across archives, and hands every other operation to a fallback service.
pub struct ArchiveOperationService<F, B> {
    fallback: F,
    planner: OperationPlanner,
    engine: OperationEngine<B>,
    archive_plans: Vec<OperationId>,
}

impl<F: OperationService, B: OperationBackend> ArchiveOperationService<F, B> {
    /// The plans recorded for archive transfers, by identifier.
    pub closed spec fn recorded(&self) -> Map<Seq<char>, OperationPlan> {
        self.engine.spec_plans()
    }

    /// The identifiers of the plans that this service executes itself.
    pub closed spec fn archive_plans(&self) -> Set<Seq<char>> {
        Set::new(|k: Seq<char>| exists|i: int| 0 <= i < self.archive_plans@.len() && (#[trigger] self.archive_plans@[i])@ == k)
    }

    /// The journal that archive plans are executed under.
    pub closed spec fn journal(&self) -> OperationJournal {
        self.engine.spec_journal()
    }

    /// The fallback service.
    pub closed spec fn spec_fallback(&self) -> F {
        self.fallback
    }

    /// Every archive plan is recorded.
    pub closed spec fn well_formed(&self) -> bool {
        forall|k: Seq<char>| #[trigger] self.archive_plans().contains(k) ==> self.recorded().contains_key(k)
    }

    /// A service with no archive plans, numbering its plans under `near.archive.operation`.
    pub fn new(fallback: F, backend: B, journal: OperationJournal) -> (r: Self)
        ensures
            r.spec_fallback() == fallback,
            r.recorded() == Map::<Seq<char>, OperationPlan>::empty(),
            r.archive_plans() == Set::<Seq<char>>::empty(),
            r.well_formed(),
    {
        let r = ArchiveOperationService {
            fallback,
            planner: OperationPlanner::with_prefix("near.archive.operation"),
            engine: OperationEngine::new(backend, journal),
            archive_plans: Vec::new(),
        };
        assert(r.archive_plans() =~= Set::<Seq<char>>::empty());
        r
    }

    fn is_archive_plan(&self, id: &OperationId) -> (r: bool)
        ensures
            r == self.archive_plans().contains(id@),
    {
        let mut i: usize = 0;
        while i < self.archive_plans.len()
            invariant
                i <= self.archive_plans@.len(),
                forall|j: int| 0 <= j < i ==> (#[trigger] self.archive_plans@[j])@ != id@,
            decreases self.archive_plans@.len() - i,
        {
            if self.archive_plans[i].same(id) {
                assert(self.archive_plans@[i as int]@ == id@);
                return true;
            }
            i = i + 1;
        }
        false
    }

    /// Plans and records an archive transfer of prepared items to a destination.
    pub fn plan_transfer(&mut self, items: Vec<PlannedItem>, destination: &Location, generation: ListingGeneration) -> (r:
        Result<OperationPlan, String>)
        requires
            old(self).well_formed(),
        ensures
            final(self).well_formed(),
            final(self).spec_fallback() == old(self).spec_fallback(),
            match plan_rejection(OperationKind::Copy, item_views(items@)) {
                Some(e) => r matches Err(m) && m@ == spec_plan_error_message(e) && final(self).recorded()
                    == old(self).recorded() && final(self).archive_plans() == old(self).archive_plans(),
                None => r matches Ok(p) && {
                    &&& p.spec_kind() == OperationKind::Copy
                    &&& item_views(p.spec_items()) == item_views(items@)
                    &&& p.spec_destination() == Some(*destination)
                    &&& p.spec_policies() == transfer_policies()
                    &&& p.spec_safety() == SafetyClass::Confirmable
                    &&& p.spec_generation() == generation
                    &&& !p.spec_high_impact()
                    &&& final(self).archive_plans() == old(self).archive_plans().insert(p.spec_id()@)
                    &&& final(self).recorded().contains_key(p.spec_id()@)
                    &&& item_views(final(self).recorded()[p.spec_id()@].spec_items()) == item_views(p.spec_items())
                },
            },
    {
        let ghost old_plans = self.archive_plans();
        let ghost old_recorded = self.recorded();
        let request = transfer_request(items, destination, generation);
        let plan = match self.planner.plan(request) {
            Ok(plan) => plan,
            Err(e) => {
                assert(self.archive_plans() =~= old_plans);
                assert(self.recorded() == old_recorded);
                return Err(e.message());
            },
        };
        let copy = plan.duplicate();
        let ghost before = self.archive_plans();
        let ghost recorded_before = self.recorded();
        let recorded = self.engine.record(plan);
        let id = match recorded {
            Ok(id) => id,
            Err(e) => {
                assert(false);
                return Err(e.message());
            },
        };
        assert(self.archive_plans() =~= before);
        assert(before =~= old_plans);
        assert(recorded_before == old_recorded);
        assert forall|k: Seq<char>| #[trigger] before.contains(k) implies self.recorded().contains_key(k) by {
            assert(old(self).archive_plans().contains(k));
            assert(old_recorded.contains_key(k));
        }
        self.archive_plans.push(id);
        proof {
            assert(self.archive_plans() =~= before.insert(copy.spec_id()@)) by {
                assert forall|k: Seq<char>| self.archive_plans().contains(k) == before.insert(copy.spec_id()@).contains(k) by {
                    if before.contains(k) {
                        let i = choose|i: int| 0 <= i < old(self).archive_plans@.len() && (#[trigger] old(self).archive_plans@[i])@ == k;
                        assert(self.archive_plans@[i] == old(self).archive_plans@[i]);
                    }
                    if k == copy.spec_id()@ {
                        assert(self.archive_plans@[self.archive_plans@.len() - 1]@ == k);
                    }
                }
            }
        }
        Ok(copy)
    }

    /// Plans an operation that is not an archive transfer: moves across archives are
    /// refused; anything else goes to the fallback service.
    pub fn plan_other(&mut self, intent: OperationIntent, generation: ListingGeneration) -> (r: Result<
        OperationPlan,
        String,
    >)
        requires
            old(self).well_formed(),
        ensures
            final(self).well_formed(),
            final(self).recorded() == old(self).recorded(),
            final(self).archive_plans() == old(self).archive_plans(),
            moves_across_archives(intent) ==> (r matches Err(m) && m@
                == "moving into or out of archives is unsupported; copy and delete explicitly"@),
            moves_across_archives(intent) ==> final(self).spec_fallback() == old(self).spec_fallback(),
    {
        if refuses_move(&intent) {
            return Err("moving into or out of archives is unsupported; copy and delete explicitly".to_owned());
        }
        let ghost plans = self.archive_plans();
        let r = self.fallback.plan(intent, generation);
        assert(self.archive_plans() =~= plans);
        r
    }

    /// Executes a plan: archive plans with the given conflict decision for every conflict,
    /// other plans through the fallback service.
    pub fn execute(
        &mut self,
        plan: &OperationId,
        authorization: ExecutionAuthorization,
        cancellation: &CancellationToken,
        conflict: ConflictDecision,
    ) -> (r: Result<ExecutionSummary, String>)
        requires
            old(self).well_formed(),
        ensures
            final(self).well_formed(),
            final(self).recorded() == old(self).recorded(),
            final(self).archive_plans() == old(self).archive_plans(),
            old(self).archive_plans().contains(plan@) ==> final(self).spec_fallback() == old(
                self,
            ).spec_fallback(),
            old(self).archive_plans().contains(plan@) ==> match spec_authorization_error(
                old(self).recorded()[plan@],
                authorization,
            ) {
                Some(e) => r matches Err(m) && m@ == spec_execution_error_message(e)
                    && final(self).journal() == old(self).journal(),
                None => r matches Ok(s) && summary_follows(old(self).recorded()[plan@], *plan, s)
                    && final(self).journal().spec_summaries()[plan@]@ == s@,
            },
    {
        if !self.is_archive_plan(plan) {
            return self.fallback.execute(plan, authorization, cancellation, conflict);
        }
        let mut resolver = FixedConflictResolver(conflict);
        match self.engine.execute(plan, authorization, cancellation, &mut resolver) {
            Ok(summary) => Ok(summary),
            Err(e) => Err(e.message()),
        }
    }

    /// Privileged retries: refused for archive plans, handed to the fallback otherwise.
    pub fn execute_elevated(
        &mut self,
        plan: &OperationId,
        authorization: ExecutionAuthorization,
        conflict: ConflictDecision,
    ) -> (r: Result<ExecutionSummary, String>)
        requires
            old(self).well_formed(),
        ensures
            final(self).well_formed(),
            final(self).recorded() == old(self).recorded(),
            final(self).archive_plans() == old(self).archive_plans(),
            old(self).archive_plans().contains(plan@) ==> (r matches Err(m) && m@
                == "archive operations cannot be retried with local elevation"@),
    {
        if self.is_archive_plan(plan) {
            return Err("archive operations cannot be retried with local elevation".to_owned());
        }
        self.fallback.execute_elevated(plan, authorization, conflict)
    }
}

/// One entry to write during an extraction: its position among the archive's entries, the
/// path below the target it is written to (`None`: the target itself), and whether it is a
/// directory.
#[derive(Debug, PartialEq, Eq)]
pub struct ExtractionStep {
    pub entry: usize,
    pub relative: Option<String>,
    pub directory: bool,
}

/// A step as values.
pub type ExtractionStepView = (usize, Option<Seq<char>>, bool);

impl View for ExtractionStep {
    type V = ExtractionStepView;

    open spec fn view(&self) -> ExtractionStepView {
        (
            self.entry,
            match self.relative {
                Some(r) => Some(r@),
                None => None,
            },
            self.directory,
        )
    }
}

/// What an extraction does: the entries it writes, in order, and the error it stops with
/// after them, if any.
#[derive(Debug)]
pub struct ExtractionPlan {
    pub steps: Vec<ExtractionStep>,
    pub failure: Option<String>,
}

/// The text that extracted entries start with: the entry's path and `/` for a directory, the
/// entry's path itself for a file.
pub open spec fn extraction_prefix(inner: Seq<char>, recursive: bool) -> Seq<char> {
    if recursive {
        without_trailing_slashes(inner).push('/')
    } else {
        inner
    }
}

/// Whether an archive entry is part of an extraction and where it goes: `None` when it is
/// not, the path below the target (`None` for the target itself), or an error.
pub open spec fn extraction_selection(
    style: PathStyle,
    e: ArchiveEntryFacts,
    prefix: Seq<char>,
    recursive: bool,
) -> Option<Result<Option<Seq<char>>, Seq<char>>> {
    match entry_path(style, e) {
        None => None,
        Some(p) => if recursive {
            if spec_starts_with(p, prefix) && p.len() > prefix.len() {
                Some(Ok(Some(p.skip(prefix.len() as int))))
            } else {
                None
            }
        } else if p == prefix {
            if p.len() == 0 {
                Some(Err("archive entry has no file name"@))
            } else {
                Some(Ok(None))
            }
        } else {
            None
        },
    }
}

/// The total size after adding an entry, saturating at `u64::MAX`.
pub open spec fn saturating_total(total: u64, size: u64) -> u64 {
    if total + size > u64::MAX {
        u64::MAX
    } else {
        (total + size) as u64
    }
}

/// The steps, the running total size and the failure of an extraction over the first
/// entries of an archive.
pub open spec fn extraction_run(
    entries: Seq<ArchiveEntryFacts>,
    style: PathStyle,
    prefix: Seq<char>,
    recursive: bool,
) -> (Seq<ExtractionStepView>, u64, Option<Seq<char>>)
    decreases entries.len(),
{
    if entries.len() == 0 {
        (Seq::empty(), 0, None)
    } else {
        let (steps, total, failure) = extraction_run(entries.drop_last(), style, prefix, recursive);
        let i = (entries.len() - 1) as usize;
        let e = entries.last();
        if failure is Some {
            (steps, total, failure)
        } else {
            match extraction_selection(style, e, prefix, recursive) {
                None => (steps, total, None),
                Some(Err(m)) => (steps, total, Some(m)),
                Some(Ok(relative)) => {
                    let t = saturating_total(total, e.size);
                    if t > MAX_EXTRACTED_SIZE {
                        (steps, t, Some("archive extraction exceeds 1073741824 bytes"@))
                    } else if e.directory {
                        (steps.push((i, relative, true)), t, None)
                    } else if is_symlink_mode(e.unix_mode) {
                        (
                            steps,
                            t,
                            Some(
                                "archive symlink entries are rejected: "@ + entry_path(
                                    style,
                                    e,
                                )->0,
                            ),
                        )
                    } else {
                        (steps.push((i, relative, false)), t, None)
                    }
                },
            }
        }
    }
}

proof fn lemma_extraction_stops(
    entries: Seq<ArchiveEntryFacts>,
    style: PathStyle,
    prefix: Seq<char>,
    recursive: bool,
    k: int,
)
    requires
        0 <= k <= entries.len(),
        extraction_run(entries.take(k), style, prefix, recursive).2 is Some,
    ensures
        extraction_run(entries, style, prefix, recursive) == extraction_run(
            entries.take(k),
            style,
            prefix,
            recursive,
        ),
    decreases entries.len() - k,
{
    if k == entries.len() {
        assert(entries.take(k) =~= entries);
    } else {
        let t = entries.take(k + 1);
        assert(t.drop_last() =~= entries.take(k));
        lemma_extraction_stops(entries, style, prefix, recursive, k + 1);
    }
}

/// Decides which entries of an archive an extraction writes and where: the entry at `inner`
/// alone, or for a recursive extraction every entry below it, stopping at an entry without
/// a file name, at a symbolic link, or when the total size passes the safety limit.
pub fn extraction_plan(
    entries: &Vec<ArchiveEntryFacts>,
    inner: &str,
    recursive: bool,
    style: PathStyle,
) -> (r: ExtractionPlan)
    requires
        entries@.len() <= usize::MAX,
    ensures
        ({
            let run = extraction_run(entries@, style, extraction_prefix(inner@, recursive), recursive);
            &&& r.steps@.len() == run.0.len()
            &&& forall|i: int| 0 <= i < r.steps@.len() ==> (#[trigger] r.steps@[i])@ == run.0[i]
            &&& match run.2 {
                Some(m) => r.failure matches Some(f) && f@ == m,
                None => r.failure is None,
            }
        }),
{
    let prefix_text = if recursive {
        let mut text = trim_trailing_slashes(inner);
        push_char(&mut text, '/');
        text
    } else {
        inner.to_owned()
    };
    let prefix = chars_of(prefix_text.as_str());
    let ghost pre = extraction_prefix(inner@, recursive);
    assert(prefix@ == pre);
    let mut steps: Vec<ExtractionStep> = Vec::new();
    let mut total: u64 = 0;
    let mut i: usize = 0;
    assert(entries@.take(0) =~= Seq::<ArchiveEntryFacts>::empty());
    while i < entries.len()
        invariant
            i <= entries@.len(),
            prefix@ == pre,
            prefix_text@ == pre,
            pre == extraction_prefix(inner@, recursive),
            ({
                let run = extraction_run(entries@.take(i as int), style, pre, recursive);
                &&& run.2 is None
                &&& run.1 == total
                &&& steps@.len() == run.0.len()
                &&& forall|j: int| 0 <= j < steps@.len() ==> (#[trigger] steps@[j])@ == run.0[j]
            }),
        decreases entries@.len() - i,
    {
        let e = &entries[i];
        let ghost before = steps@;
        assert(entries@.take(i + 1).drop_last() =~= entries@.take(i as int));
        assert(entries@.take(i + 1).last() == *e);
        let path = match safe_zip_path(e, style) {
            Some(path) => path,
            None => {
                i = i + 1;
                continue;
            },
        };
        let chars = chars_of(path.as_str());
        let relative: Option<String> = if recursive {
            if starts_with(chars.as_slice(), prefix.as_slice()) && chars.len() > prefix.len() {
                let rest = slice_chars(chars.as_slice(), prefix.len(), chars.len());
                assert(rest@ =~= path@.skip(prefix@.len() as int));
                Some(string_of(rest.as_slice()))
            } else {
                i = i + 1;
                continue;
            }
        } else if str_eq(path.as_str(), prefix_text.as_str()) {
            if chars.len() == 0 {
                proof {
                    assert(path@ == pre);
                    assert(entry_path(style, *e) == Some(path@));
                    assert(extraction_selection(style, *e, pre, recursive) is Some);
                    assert(extraction_run(entries@.take(i + 1), style, pre, recursive).2 is Some);
                    lemma_extraction_stops(entries@, style, pre, recursive, i + 1);
                    assert(extraction_run(entries@, style, pre, recursive).0 == extraction_run(entries@.take(i as int), style, pre, recursive).0);
                    assert(extraction_run(entries@, style, pre, recursive).2 == Some("archive entry has no file name"@));
                    assert(steps@.len() == extraction_run(entries@, style, pre, recursive).0.len());
                    assert(pre == extraction_prefix(inner@, recursive));
                }
                return ExtractionPlan {
                        steps,
                        failure: Some("archive entry has no file name".to_owned()),
                    };
            }
            None
        } else {
            i = i + 1;
            continue;
        };
        total = if total <= u64::MAX - e.size {
            total + e.size
        } else {
            u64::MAX
        };
        if total > MAX_EXTRACTED_SIZE {
            proof {
                assert(extraction_run(entries@.take(i + 1), style, pre, recursive).2 is Some);
                lemma_extraction_stops(entries@, style, pre, recursive, i + 1);
                assert(extraction_run(entries@, style, pre, recursive).0 == extraction_run(entries@.take(i as int), style, pre, recursive).0);
            }
            return ExtractionPlan {
                steps,
                failure: Some("archive extraction exceeds 1073741824 bytes".to_owned()),
            };
        }
        if e.directory {
            steps.push(ExtractionStep { entry: i, relative, directory: true });
        } else if is_zip_symlink(e) {
            let mut message = "archive symlink entries are rejected: ".to_owned();
            push_str(&mut message, path.as_str());
            proof {
                lemma_extraction_stops(entries@, style, pre, recursive, i + 1);
            }
            return ExtractionPlan { steps, failure: Some(message) };
        } else {
            steps.push(ExtractionStep { entry: i, relative, directory: false });
        }
        i = i + 1;
    }
    assert(entries@.take(entries@.len() as int) =~= entries@);
    ExtractionPlan { steps, failure: None }
}

/// Whether an existing entry is dropped when an archive is rebuilt: a replacing update drops
/// the replaced path and everything below it.
pub open spec fn replaced_by(path: Seq<char>, target: Seq<char>, replace: bool) -> bool {
    replace && (path == target || spec_starts_with(path, target.push('/')))
}

/// The existing entries an archive keeps when it is rebuilt: their positions, paths and
/// directory flags, in order.
pub open spec fn kept_entries_of(
    entries: Seq<ArchiveEntryFacts>,
    style: PathStyle,
    target: Seq<char>,
    replace: bool,
) -> Seq<(usize, Seq<char>, bool)>
    decreases entries.len(),
{
    if entries.len() == 0 {
        Seq::empty()
    } else {
        let init = kept_entries_of(entries.drop_last(), style, target, replace);
        let e = entries.last();
        match entry_path(style, e) {
            Some(p) => if replaced_by(p, target, replace) {
                init
            } else {
                init.push(((entries.len() - 1) as usize, p, e.directory))
            },
            None => init,
        }
    }
}

/// The existing entries that an update of an archive copies into the rebuilt archive.
pub fn kept_entries(
    entries: &Vec<ArchiveEntryFacts>,
    target: &str,
    replace: bool,
    style: PathStyle,
) -> (r: Vec<(usize, String, bool)>)
    ensures
        r@.len() == kept_entries_of(entries@, style, target@, replace).len(),
        forall|i: int|
            0 <= i < r@.len() ==> {
                let k = kept_entries_of(entries@, style, target@, replace)[i];
                &&& (#[trigger] r@[i]).0 == k.0
                &&& r@[i].1@ == k.1
                &&& r@[i].2 == k.2
            },
{
    let mut below = chars_of(target);
    below.push('/');
    let mut out: Vec<(usize, String, bool)> = Vec::new();
    let mut i: usize = 0;
    assert(entries@.take(0) =~= Seq::<ArchiveEntryFacts>::empty());
    while i < entries.len()
        invariant
            i <= entries@.len(),
            below@ == target@.push('/'),
            out@.len() == kept_entries_of(entries@.take(i as int), style, target@, replace).len(),
            forall|j: int|
                0 <= j < out@.len() ==> {
                    let k = kept_entries_of(entries@.take(i as int), style, target@, replace)[j];
                    &&& (#[trigger] out@[j]).0 == k.0
                    &&& out@[j].1@ == k.1
                    &&& out@[j].2 == k.2
                },
        decreases entries@.len() - i,
    {
        let e = &entries[i];
        assert(entries@.take(i + 1).drop_last() =~= entries@.take(i as int));
        assert(entries@.take(i + 1).last() == *e);
        if let Some(path) = safe_zip_path(e, style) {
            let chars = chars_of(path.as_str());
            let dropped = replace && (str_eq(path.as_str(), target) || starts_with(
                chars.as_slice(),
                below.as_slice(),
            ));
            if !dropped {
                out.push((i, path, e.directory));
            }
        }
        i = i + 1;
    }
    assert(entries@.take(entries@.len() as int) =~= entries@);
    out
}

/// A numbered variant of a name: `stem (n)`, with the extension after it when there is one.
pub open spec fn numbered_name(stem: Seq<char>, extension: Option<Seq<char>>, n: nat) -> Seq<char> {
    match extension {
        Some(e) => stem + " ("@ + decimal(n) + ")."@ + e,
        None => stem + " ("@ + decimal(n) + ")"@,
    }
}

/// The name `stem (n)` or `stem (n).extension` that a renamed copy takes.
pub fn numbered(stem: &str, extension: Option<&str>, n: u64) -> (r: String)
    ensures
        r@ == numbered_name(
            stem@,
            match extension {
                Some(e) => Some(e@),
                None => None,
            },
            n as nat,
        ),
{
    let mut text = stem.to_owned();
    push_str(&mut text, " (");
    let digits = u64_decimal(n);
    push_str(&mut text, digits.as_str());
    match extension {
        Some(e) => {
            push_str(&mut text, ").");
            push_str(&mut text, e);
        },
        None => push_str(&mut text, ")"),
    }
    text
}

} // verus!
