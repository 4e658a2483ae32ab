//! Removable devices as the platform tools report them: parsing of `mount`, `lsblk` and
//! PowerShell listings, choice of the device to disconnect, and the disconnect report.

use vstd::prelude::*;

use crate::config_text::{first_index, strip_quotes};
use crate::navigation::{DeviceDisconnectReport, RemovableDevice};
use crate::resource::Location;
use crate::strmap::StrMap;
use crate::text::{chars_of, push_char, push_str, spec_find, spec_is_whitespace, spec_starts_with, spec_trim};

verus! {

broadcast use vstd::string::group_string_axioms;

/// The text before and after the first occurrence of a non-empty separator (`split_once`).
pub open spec fn split_once(s: Seq<char>, p: Seq<char>) -> Option<(Seq<char>, Seq<char>)> {
    match spec_find(s, p) {
        Some(i) => Some((s.take(i), s.skip(i + p.len()))),
        None => None,
    }
}

/// The text after the last `/`, or all of it when there is none (`rsplit('/').next()`).
pub open spec fn last_segment(s: Seq<char>) -> Seq<char>
    decreases s.len(),
{
    if s.len() == 0 {
        s
    } else if s.last() == '/' {
        Seq::empty()
    } else {
        last_segment(s.drop_last()).push(s.last())
    }
}

/// A device record with the given fields.
pub open spec fn device_is(
    d: RemovableDevice,
    id: Seq<char>,
    label: Seq<char>,
    mount: Option<Seq<char>>,
) -> bool {
    &&& d.id@ == id
    &&& d.label@ == label
    &&& d.system_path@ == id
    &&& d.can_disconnect
    &&& match mount {
        Some(m) => d.mount matches Some(l) && l@ == m,
        None => d.mount is None,
    }
}

/// A macOS `mount` line of an external volume: `/dev/disk… on /Volumes/… (…)`, as the
/// device and the mount point.
pub open spec fn macos_mount_parts(line: Seq<char>) -> Option<(Seq<char>, Seq<char>)> {
    match split_once(line, " on "@) {
        None => None,
        Some((device, rest)) => match split_once(rest, " ("@) {
            None => None,
            Some((mount, _)) => if spec_starts_with(device, "/dev/disk"@) && spec_starts_with(
                mount,
                "/Volumes/"@,
            ) {
                Some((device, mount))
            } else {
                None
            },
        },
    }
}

pub(crate) fn split_once_chars(s: &[char], p: &str) -> (r: Option<(Vec<char>, Vec<char>)>)
    requires
        p@.len() > 0,
    ensures
        match split_once(s@, p@) {
            Some((a, b)) => r matches Some((x, y)) && x@ == a && y@ == b,
            None => r is None,
        },
{
    let pattern = chars_of(p);
    match crate::text::find(s, pattern.as_slice()) {
        Some(i) => {
            proof {
                let j = choose|j: int|
                    crate::text::occurs_at(s@, p@, j) && forall|k: int|
                        0 <= k < j ==> !crate::text::occurs_at(s@, p@, k);
                assert(j == i) by {
                    if j < i {
                        assert(!crate::text::occurs_at(s@, p@, j));
                    }
                    if i < j {
                        assert(!crate::text::occurs_at(s@, p@, i as int));
                    }
                }
            }
            assert(pattern@ == p@);
            let n = s.len();
            assert(i + pattern@.len() <= n);
            let a = crate::text::slice_chars(s, 0, i);
            let b = crate::text::slice_chars(s, i + pattern.len(), s.len());
            assert(a@ =~= s@.take(i as int));
            assert(b@ =~= s@.skip(i + p@.len()));
            Some((a, b))
        },
        None => None,
    }
}

pub(crate) fn last_segment_of(s: &[char]) -> (r: Vec<char>)
    ensures
        r@ == last_segment(s@),
{
    let mut start = s.len();
    assert(s@.take(start as int) =~= s@);
    assert(s@.skip(start as int) =~= Seq::<char>::empty());
    assert(last_segment(s@) + Seq::<char>::empty() =~= last_segment(s@));
    while start > 0 && s[start - 1] != '/'
        invariant
            start <= s@.len(),
            last_segment(s@) == last_segment(s@.take(start as int)) + s@.skip(start as int),
        decreases start,
    {
        let ghost t = s@.take(start as int);
        assert(t.drop_last() =~= s@.take(start - 1));
        assert(last_segment(t) == last_segment(t.drop_last()).push(t.last()));
        assert(s@.skip(start - 1) =~= seq![t.last()] + s@.skip(start as int));
        start = start - 1;
    }
    proof {
        let t = s@.take(start as int);
        if start == 0 {
            assert(t.len() == 0);
        } else {
            assert(t.last() == '/');
        }
        assert(last_segment(t) =~= Seq::<char>::empty());
    }
    let r = crate::text::slice_chars(s, start, s.len());
    assert(r@ =~= s@.skip(start as int));
    r
}

fn file_location(path: &[char], suffix: &str) -> (r: Location)
    ensures
        r@ == "file://"@ + path@ + suffix@,
{
    let mut text = "file://".to_owned();
    let p = crate::text::string_of(path);
    push_str(&mut text, p.as_str());
    push_str(&mut text, suffix);
    Location::from_string(text)
}

/// Reads one line of macOS `mount` output; only `/dev/disk…` devices mounted under
/// `/Volumes/` are removable devices, labelled by their mount folder.
pub fn parse_macos_mount(line: &str) -> (r: Option<RemovableDevice>)
    ensures
        match macos_mount_parts(line@) {
            Some((device, mount)) => r matches Some(d) && device_is(
                d,
                device,
                last_segment(mount),
                Some("file://"@ + mount),
            ),
            None => r is None,
        },
{
    proof {
        reveal_strlit(" on ");
        reveal_strlit(" (");
    }
    let chars = chars_of(line);
    let (device, rest) = match split_once_chars(chars.as_slice(), " on ") {
        Some(parts) => parts,
        None => return None,
    };
    let (mount, _) = match split_once_chars(rest.as_slice(), " (") {
        Some(parts) => parts,
        None => return None,
    };
    let disk = chars_of("/dev/disk");
    let volumes = chars_of("/Volumes/");
    if !crate::text::starts_with(device.as_slice(), disk.as_slice())
        || !crate::text::starts_with(mount.as_slice(), volumes.as_slice()) {
        return None;
    }
    let label = last_segment_of(mount.as_slice());
    let id = crate::text::string_of(device.as_slice());
    proof {
        reveal_strlit("");
    }
    let location = file_location(mount.as_slice(), "");
    assert("file://"@ + mount@ + ""@ =~= "file://"@ + mount@);
    Some(
        RemovableDevice {
            id: crate::text::string_of(device.as_slice()),
            label: crate::text::string_of(label.as_slice()),
            mount: Some(location),
            system_path: id,
            can_disconnect: true,
        },
    )
}

/// Whitespace-separated tokens, scanned left to right: the finished tokens and the one in
/// progress.
pub open spec fn token_scan(s: Seq<char>) -> (Seq<Seq<char>>, Seq<char>)
    decreases s.len(),
{
    if s.len() == 0 {
        (Seq::empty(), Seq::empty())
    } else {
        let prev = token_scan(s.drop_last());
        let c = s.last();
        if spec_is_whitespace(c) {
            if prev.1.len() > 0 {
                (prev.0.push(prev.1), Seq::empty())
            } else {
                prev
            }
        } else {
            (prev.0, prev.1.push(c))
        }
    }
}

/// The whitespace-separated tokens of a text (`split_whitespace`).
pub open spec fn ws_tokens(s: Seq<char>) -> Seq<Seq<char>> {
    let scan = token_scan(s);
    if scan.1.len() > 0 {
        scan.0.push(scan.1)
    } else {
        scan.0
    }
}

/// A `NAME=value` token as its name and its value without surrounding double quotes.
pub open spec fn field_of(token: Seq<char>) -> Option<(Seq<char>, Seq<char>)> {
    match first_index(token, '=') {
        Some(i) => Some((token.take(i), strip_quotes(token.skip(i + 1)))),
        None => None,
    }
}

/// The fields of a list of tokens; a later field replaces an earlier one of the same name.
pub open spec fn fields_map(tokens: Seq<Seq<char>>) -> Map<Seq<char>, Seq<char>>
    decreases tokens.len(),
{
    if tokens.len() == 0 {
        Map::empty()
    } else {
        let m = fields_map(tokens.drop_last());
        match field_of(tokens.last()) {
            Some((n, v)) => m.insert(n, v),
            None => m,
        }
    }
}

/// A string map that holds exactly a map of texts.
pub open spec fn holds_texts(r: StrMap<String>, m: Map<Seq<char>, Seq<char>>) -> bool {
    &&& r.map().dom() == m.dom()
    &&& forall|k: Seq<char>| #[trigger] r.map().dom().contains(k) ==> r.map()[k]@ == m[k]
}

fn add_field(fields: &mut StrMap<String>, token: &[char])
    ensures
        forall|m: Map<Seq<char>, Seq<char>>|
            holds_texts(*old(fields), m) ==> holds_texts(
                *final(fields),
                match field_of(token@) {
                    Some((n, v)) => m.insert(n, v),
                    None => m,
                },
            ),
{
    match crate::config_text::first_index_of(token, '=') {
        Some(i) => {
            let n = token.len();
            assert(i < n);
            let name = crate::text::slice_chars(token, 0, i);
            let raw = crate::text::slice_chars(token, i + 1, token.len());
            let value = crate::config_text::strip_quotes_of(raw.as_slice());
            assert(name@ =~= token@.take(i as int));
            assert(raw@ =~= token@.skip(i + 1));
            let ghost before = fields.map();
            fields.insert(
                crate::text::string_of(name.as_slice()),
                crate::text::string_of(value.as_slice()),
            );
            assert forall|m: Map<Seq<char>, Seq<char>>| holds_texts(*old(fields), m) implies holds_texts(
                *fields,
                m.insert(name@, value@),
            ) by {
                assert(fields.map().dom() =~= m.insert(name@, value@).dom());
            }
        },
        None => {},
    }
}

/// The `NAME="value"` fields of an `lsblk -P` line.
pub fn parse_quoted_fields(line: &str) -> (r: StrMap<String>)
    ensures
        holds_texts(r, fields_map(ws_tokens(line@))),
{
    let chars = chars_of(line);
    let mut fields: StrMap<String> = StrMap::new();
    let mut current: Vec<char> = Vec::new();
    let mut i: usize = 0;
    assert(fields.map().dom() =~= Map::<Seq<char>, Seq<char>>::empty().dom());
    assert(holds_texts(fields, Map::empty()));
    while i < chars.len()
        invariant
            i <= chars@.len(),
            chars@ == line@,
            current@ == token_scan(chars@.take(i as int)).1,
            holds_texts(fields, fields_map(token_scan(chars@.take(i as int)).0)),
        decreases chars@.len() - i,
    {
        let c = chars[i];
        let ghost prev = token_scan(chars@.take(i as int));
        assert(chars@.take(i + 1).drop_last() =~= chars@.take(i as int));
        assert(chars@.take(i + 1).last() == c);
        if crate::text::is_whitespace(c) {
            if current.len() > 0 {
                add_field(&mut fields, current.as_slice());
                assert(prev.0.push(prev.1).drop_last() =~= prev.0);
                current = Vec::new();
            }
        } else {
            current.push(c);
        }
        i = i + 1;
    }
    assert(chars@.take(i as int) =~= chars@);
    if current.len() > 0 {
        let ghost prev = token_scan(chars@);
        add_field(&mut fields, current.as_slice());
        assert(prev.0.push(prev.1).drop_last() =~= prev.0);
    }
    fields
}

/// A removable `lsblk` line (`RM="1"` with a `PATH`), as its path, label and mount point:
/// the label falls back to the last segment of the path, an empty mount point is none.
pub open spec fn linux_device_parts(line: Seq<char>) -> Option<
    (Seq<char>, Seq<char>, Option<Seq<char>>),
> {
    let f = fields_map(ws_tokens(line));
    if !(f.contains_key("RM"@) && f["RM"@] == "1"@) || !f.contains_key("PATH"@) {
        None
    } else {
        let path = f["PATH"@];
        let label = if f.contains_key("LABEL"@) && f["LABEL"@].len() > 0 {
            f["LABEL"@]
        } else {
            last_segment(path)
        };
        let mount = if f.contains_key("MOUNTPOINT"@) && f["MOUNTPOINT"@].len() > 0 {
            Some(f["MOUNTPOINT"@])
        } else {
            None
        };
        Some((path, label, mount))
    }
}

/// Reads one line of `lsblk -P -o PATH,LABEL,MOUNTPOINT,RM,TYPE`.
pub fn parse_linux_device(line: &str) -> (r: Option<RemovableDevice>)
    ensures
        match linux_device_parts(line@) {
            Some((path, label, mount)) => r matches Some(d) && device_is(
                d,
                path,
                label,
                match mount {
                    Some(m) => Some("file://"@ + m),
                    None => None,
                },
            ),
            None => r is None,
        },
{
    let fields = parse_quoted_fields(line);
    let ghost f = fields_map(ws_tokens(line@));
    let removable = match fields.get("RM") {
        Some(value) => crate::text::str_eq(value.as_str(), "1"),
        None => false,
    };
    if !removable {
        return None;
    }
    let path = match fields.get("PATH") {
        Some(value) => value.clone(),
        None => return None,
    };
    let path_chars = chars_of(path.as_str());
    let label = match fields.get("LABEL") {
        Some(value) => if chars_of(value.as_str()).len() > 0 {
            value.clone()
        } else {
            let tail = last_segment_of(path_chars.as_slice());
            crate::text::string_of(tail.as_slice())
        },
        None => {
            let tail = last_segment_of(path_chars.as_slice());
            crate::text::string_of(tail.as_slice())
        },
    };
    let mount = match fields.get("MOUNTPOINT") {
        Some(value) => if chars_of(value.as_str()).len() > 0 {
            let m = chars_of(value.as_str());
            proof {
                reveal_strlit("");
            }
            let location = file_location(m.as_slice(), "");
            assert("file://"@ + m@ + ""@ =~= "file://"@ + m@);
            Some(location)
        } else {
            None
        },
        None => None,
    };
    let id = path.clone();
    Some(RemovableDevice { id, label, mount, system_path: path, can_disconnect: true })
}

/// A PowerShell `drive|label` line of a removable logical disk, as the drive, its label (the
/// drive when the volume has none) and its root location.
pub open spec fn windows_drive_parts(line: Seq<char>) -> Option<(Seq<char>, Seq<char>, Seq<char>)> {
    match split_once(spec_trim(line), "|"@) {
        Some((drive, label)) => Some(
            (
                drive,
                if label.len() == 0 {
                    drive
                } else {
                    label
                },
                "file:///"@ + drive + "/"@,
            ),
        ),
        None => None,
    }
}

/// Reads one line of the Windows removable-drive listing.
pub fn parse_windows_drive(line: &str) -> (r: Option<RemovableDevice>)
    ensures
        match windows_drive_parts(line@) {
            Some((drive, label, mount)) => r matches Some(d) && device_is(
                d,
                drive,
                label,
                Some(mount),
            ),
            None => r is None,
        },
{
    proof {
        reveal_strlit("|");
    }
    let raw = chars_of(line);
    let trimmed = crate::text::trim(raw.as_slice());
    let (drive, label) = match split_once_chars(trimmed.as_slice(), "|") {
        Some(parts) => parts,
        None => return None,
    };
    let shown = if label.len() == 0 {
        crate::text::string_of(drive.as_slice())
    } else {
        crate::text::string_of(label.as_slice())
    };
    let mut root = vec!['/'];
    let mut k: usize = 0;
    while k < drive.len()
        invariant
            k <= drive@.len(),
            root@ =~= seq!['/'] + drive@.take(k as int),
        decreases drive@.len() - k,
    {
        root.push(drive[k]);
        k = k + 1;
    }
    assert(drive@.take(drive@.len() as int) =~= drive@);
    proof {
        reveal_strlit("/");
    }
    let location = file_location(root.as_slice(), "/");
    assert("file://"@ + root@ + "/"@ =~= "file:///"@ + drive@ + "/"@) by {
        reveal_strlit("file:///");
        reveal_strlit("file://");
    }
    Some(
        RemovableDevice {
            id: crate::text::string_of(drive.as_slice()),
            label: shown,
            mount: Some(location),
            system_path: crate::text::string_of(drive.as_slice()),
            can_disconnect: true,
        },
    )
}

/// Index of the first device with the given identifier.
pub open spec fn device_index(devices: Seq<RemovableDevice>, id: Seq<char>) -> Option<int>
    decreases devices.len(),
{
    if devices.len() == 0 {
        None
    } else if devices[0].id@ == id {
        Some(0)
    } else {
        match device_index(devices.drop_first(), id) {
            Some(i) => Some(i + 1),
            None => None,
        }
    }
}

/// Which listed device a disconnect request addresses, or why it is refused: the device is no
/// longer attached, or it cannot be safely disconnected.
pub open spec fn disconnect_target(devices: Seq<RemovableDevice>, id: Seq<char>) -> Result<
    int,
    Seq<char>,
> {
    match device_index(devices, id) {
        None => Err("removable device "@ + id + " is no longer attached"@),
        Some(i) => if devices[i].can_disconnect {
            Ok(i)
        } else {
            Err("device "@ + devices[i].label@ + " cannot be safely disconnected"@)
        },
    }
}

/// Chooses the device to disconnect among the attached ones.
pub fn select_disconnect_target(devices: &Vec<RemovableDevice>, id: &str) -> (r: Result<
    usize,
    String,
>)
    ensures
        match disconnect_target(devices@, id@) {
            Ok(i) => r == Ok::<usize, String>(i as usize),
            Err(m) => r matches Err(e) && e@ == m,
        },
{
    let mut i: usize = 0;
    assert(devices@.skip(0) =~= devices@);
    while i < devices.len()
        invariant
            i <= devices@.len(),
            device_index(devices@, id@) == (match device_index(devices@.skip(i as int), id@) {
                Some(j) => Some(j + i),
                None => None,
            }),
        decreases devices@.len() - i,
    {
        let ghost rest = devices@.skip(i as int);
        assert(rest[0] == devices@[i as int]);
        if crate::text::str_eq(devices[i].id.as_str(), id) {
            if devices[i].can_disconnect {
                return Ok(i);
            }
            let mut message = "device ".to_owned();
            push_str(&mut message, devices[i].label.as_str());
            push_str(&mut message, " cannot be safely disconnected");
            return Err(message);
        }
        assert(rest.drop_first() =~= devices@.skip(i + 1));
        i = i + 1;
    }
    let mut message = "removable device ".to_owned();
    push_str(&mut message, id);
    push_str(&mut message, " is no longer attached");
    Err(message)
}

/// The message of a failed disconnect command: its standard error, or its standard output
/// when the error stream is empty, both trimmed.
pub open spec fn disconnect_failure_text(
    action: Seq<char>,
    system_path: Seq<char>,
    stdout: Seq<char>,
    stderr: Seq<char>,
) -> Seq<char> {
    action + " failed for "@ + system_path + ": "@ + (if spec_trim(stderr).len() == 0 {
        spec_trim(stdout)
    } else {
        spec_trim(stderr)
    })
}

pub fn disconnect_failure(action: &str, system_path: &str, stdout: &str, stderr: &str) -> (r:
    String)
    ensures
        r@ == disconnect_failure_text(action@, system_path@, stdout@, stderr@),
{
    let out = crate::text::trim(chars_of(stdout).as_slice());
    let err = crate::text::trim(chars_of(stderr).as_slice());
    let mut message = action.to_owned();
    push_str(&mut message, " failed for ");
    push_str(&mut message, system_path);
    push_str(&mut message, ": ");
    let detail = if err.len() == 0 {
        crate::text::string_of(out.as_slice())
    } else {
        crate::text::string_of(err.as_slice())
    };
    push_str(&mut message, detail.as_str());
    message
}

/// The `Debug` text of a list of strings (`format!("{:?}", items)`): each item's `Debug`
/// text, separated by `, `, in brackets.
pub open spec fn str_list_debug(items: Seq<Seq<char>>) -> Seq<char> {
    seq!['['] + crate::execution::join(
        items.map_values(|s: Seq<char>| crate::handlers::str_debug(s)),
        seq![',', ' '],
    ) + seq![']']
}

/// Writes the `Debug` text of a list of strings (see `str_list_debug`).
fn debug_str_list(items: &Vec<String>) -> (r: String)
    ensures
        r@ == str_list_debug(crate::description::texts(items@)),
{
    let ghost shown = crate::description::texts(items@).map_values(
        |s: Seq<char>| crate::handlers::str_debug(s),
    );
    let mut out = String::new();
    push_char(&mut out, '[');
    let mut i: usize = 0;
    assert(shown.take(0) =~= Seq::<Seq<char>>::empty());
    while i < items.len()
        invariant
            i <= items@.len(),
            shown.len() == items@.len(),
            forall|k: int| 0 <= k < shown.len() ==> #[trigger] shown[k] == crate::handlers::str_debug(items@[k]@),
            out@ == seq!['['] + crate::execution::join(shown.take(i as int), seq![',', ' ']),
        decreases items@.len() - i,
    {
        if i > 0 {
            push_char(&mut out, ',');
            push_char(&mut out, ' ');
        }
        let item = crate::handlers::debug_str(items[i].as_str());
        push_str(&mut out, item.as_str());
        proof {
            let t = shown.take(i + 1);
            assert(t.drop_last() =~= shown.take(i as int));
            assert(t.last() == shown[i as int]);
            if i == 0 {
                assert(t.len() == 1);
                assert(crate::execution::join(shown.take(0), seq![',', ' ']) =~= Seq::<char>::empty());
            }
        }
        i = i + 1;
    }
    push_char(&mut out, ']');
    assert(shown.take(items@.len() as int) =~= shown);
    out
}

/// The audit line of a successful disconnect: executable, arguments, exit status and trimmed
/// output (`<none>` when empty).
pub open spec fn disconnect_audit_text(
    executable: Seq<char>,
    arguments: Seq<Seq<char>>,
    status: Seq<char>,
    stdout: Seq<char>,
) -> Seq<char> {
    "executable="@ + executable + " args="@ + str_list_debug(arguments) + " status="@ + status
        + " output="@ + (if spec_trim(stdout).len() == 0 {
        "<none>"@
    } else {
        spec_trim(stdout)
    })
}

/// The report of a successful disconnect of a device.
pub fn disconnect_report(
    device: &RemovableDevice,
    action: &str,
    executable: &str,
    arguments: &Vec<String>,
    status: &str,
    stdout: &str,
) -> (r: DeviceDisconnectReport)
    ensures
        r.device@ == device.id@,
        r.action@ == action@,
        r.audit@ == disconnect_audit_text(
            executable@,
            crate::description::texts(arguments@),
            status@,
            stdout@,
        ),
{
    let out = crate::text::trim(chars_of(stdout).as_slice());
    let mut audit = "executable=".to_owned();
    push_str(&mut audit, executable);
    push_str(&mut audit, " args=");
    let shown = debug_str_list(arguments);
    push_str(&mut audit, shown.as_str());
    push_str(&mut audit, " status=");
    push_str(&mut audit, status);
    push_str(&mut audit, " output=");
    if out.len() == 0 {
        push_str(&mut audit, "<none>");
    } else {
        let text = crate::text::string_of(out.as_slice());
        push_str(&mut audit, text.as_str());
    }
    DeviceDisconnectReport {
        device: device.id.clone(),
        action: action.to_owned(),
        audit,
    }
}

} // verus!
