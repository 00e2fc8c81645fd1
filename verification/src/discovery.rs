//! Discovery of encrypted volumes from a device listing in export format:
//! records separated by a blank line, each a run of `KEY=value` lines.

use vstd::prelude::*;
use vstd::string::*;
use vstd::utf8::{decode_utf8, encode_utf8, encode_utf8_decode_utf8, valid_utf8};
use crate::command::{
    listing_command, CommandError, CommandErrorText, CommandText, ToolResult,
};
use crate::text::{chars_of, range_equals};
use crate::volume::VolumeMap;

verus! {

/// A blank-line separator (two line feeds) starts at `i`.
pub open spec fn separator_at(s: Seq<char>, i: int) -> bool {
    0 <= i && i + 1 < s.len() && s[i] == '\n' && s[i + 1] == '\n'
}

/// Where the record that starts at `from` ends: at the first separator at or
/// after `from`, or at the end of the text.
pub open spec fn segment_end(s: Seq<char>, from: int) -> int
    decreases s.len() - from,
{
    if from >= s.len() {
        s.len() as int
    } else if separator_at(s, from) {
        from
    } else {
        segment_end(s, from + 1)
    }
}

/// The first line feed in `[from, to)`, or `to` if there is none.
pub open spec fn line_break(s: Seq<char>, from: int, to: int) -> int
    decreases to - from,
{
    if from >= to {
        to
    } else if s[from] == '\n' {
        from
    } else {
        line_break(s, from + 1, to)
    }
}

/// Where the text of the line that starts at `from` ends. The line feed is
/// not part of the text, nor is a carriage return directly before it.
pub open spec fn line_text_end(s: Seq<char>, from: int, to: int) -> int {
    let e = line_break(s, from, to);
    if e < to && from < e && s[e - 1] == '\r' {
        e - 1
    } else {
        e
    }
}

/// The lines of `s` in `[from, to)`. A final line feed opens no further line.
pub open spec fn lines_in(s: Seq<char>, from: int, to: int) -> Seq<Seq<char>>
    decreases to - from,
    via lines_in_decreases
{
    if from >= to {
        Seq::empty()
    } else {
        let e = line_break(s, from, to);
        let rest = if e < to {
            lines_in(s, e + 1, to)
        } else {
            Seq::empty()
        };
        seq![s.subrange(from, line_text_end(s, from, to))] + rest
    }
}

#[via_fn]
proof fn lines_in_decreases(s: Seq<char>, from: int, to: int) {
    if from < to {
        lemma_line_break_bounds(s, from, to);
    }
}

/// A line ends at or after its start, and inside the range.
pub proof fn lemma_line_break_bounds(s: Seq<char>, from: int, to: int)
    requires
        from <= to,
    ensures
        from <= line_break(s, from, to) <= to,
    decreases to - from,
{
    if from < to && s[from] != '\n' {
        lemma_line_break_bounds(s, from + 1, to);
    }
}

/// The first `=` of `line` at or after `from`, or the line's length.
pub open spec fn first_equals_sign(line: Seq<char>, from: int) -> int
    decreases line.len() - from,
{
    if from >= line.len() {
        line.len() as int
    } else if line[from] == '=' {
        from
    } else {
        first_equals_sign(line, from + 1)
    }
}

/// The key and value of a line with exactly one `=`: what stands before
/// the `=` and what stands after it. A line without `=` is no entry, nor is
/// a line with more than one.
pub open spec fn entry_of(line: Seq<char>) -> Option<(Seq<char>, Seq<char>)> {
    let q = first_equals_sign(line, 0);
    if q < line.len() && first_equals_sign(line, q + 1) >= line.len() {
        Some((line.subrange(0, q), line.subrange(q + 1, line.len() as int)))
    } else {
        None
    }
}

/// A line is an entry exactly if one of its positions holds an `=` and no
/// other does; the entry's key and value hold no `=`.
pub proof fn lemma_entry_has_one_equals_sign(line: Seq<char>)
    ensures
        entry_of(line) is Some <==> exists|q: int|
            0 <= q < line.len() && #[trigger] line[q] == '=' && forall|k: int|
                0 <= k < line.len() && k != q ==> line[k] != '=',
        entry_of(line) matches Some((key, value)) ==> !key.contains('=') && !value.contains('='),
{
    let q = first_equals_sign(line, 0);
    lemma_first_equals_sign_is_first(line, 0);
    if q < line.len() {
        lemma_first_equals_sign_is_first(line, q + 1);
        let second = first_equals_sign(line, q + 1);
        if second >= line.len() {
            assert(line[q] == '=');
            assert forall|k: int| 0 <= k < line.len() && k != q implies line[k] != '=' by {}
            let key = line.subrange(0, q);
            let value = line.subrange(q + 1, line.len() as int);
            assert forall|k: int| 0 <= k < key.len() implies key[k] != '=' by {
                assert(key[k] == line[k]);
            }
            assert forall|k: int| 0 <= k < value.len() implies value[k] != '=' by {
                assert(value[k] == line[q + 1 + k]);
            }
        } else {
            assert(line[second] == '=');
        }
    }
}

/// The first `=` at or after `from` lies between `from` and the line's
/// end; no `=` stands between `from` and it, and it holds an `=` unless it
/// is the line's end.
pub proof fn lemma_first_equals_sign_is_first(line: Seq<char>, from: int)
    requires
        0 <= from <= line.len(),
    ensures
        from <= first_equals_sign(line, from) <= line.len(),
        forall|k: int| from <= k < first_equals_sign(line, from) ==> line[k] != '=',
        first_equals_sign(line, from) < line.len() ==> line[first_equals_sign(line, from)] == '=',
    decreases line.len() - from,
{
    if from < line.len() && line[from] != '=' {
        lemma_first_equals_sign_is_first(line, from + 1);
    }
}

/// The value that a record gives for `key`: that of its last line with this key.
pub open spec fn lookup(lines: Seq<Seq<char>>, key: Seq<char>) -> Option<Seq<char>>
    decreases lines.len(),
{
    if lines.len() == 0 {
        None
    } else {
        match entry_of(lines.last()) {
            Some((k, v)) => if k == key {
                Some(v)
            } else {
                lookup(lines.drop_last(), key)
            },
            None => lookup(lines.drop_last(), key),
        }
    }
}

/// The records of `s` from position `from` on, each as its lines.
pub open spec fn records_from(s: Seq<char>, from: int) -> Seq<Seq<Seq<char>>>
    decreases s.len() - from,
{
    let e = segment_end(s, from);
    if from <= e && e + 2 <= s.len() {
        seq![lines_in(s, from, e)] + records_from(s, e + 2)
    } else {
        seq![lines_in(s, from, s.len() as int)]
    }
}

/// The device path and identifier of a record, if its type marks an
/// encrypted volume and it gives both.
pub open spec fn record_volume(record: Seq<Seq<char>>) -> Option<(Seq<char>, Seq<char>)> {
    if lookup(record, "TYPE"@) == Some("crypto_LUKS"@) {
        match (lookup(record, "DEVNAME"@), lookup(record, "UUID"@)) {
            (Some(device_path), Some(uuid)) => Some((device_path, uuid)),
            _ => None,
        }
    } else {
        None
    }
}

/// The mapping that a run of records gives; of two records for one device
/// path the later one counts.
pub open spec fn volumes_of(records: Seq<Seq<Seq<char>>>) -> Map<Seq<char>, Seq<char>>
    decreases records.len(),
{
    if records.len() == 0 {
        Map::empty()
    } else {
        let earlier = volumes_of(records.drop_last());
        match record_volume(records.last()) {
            Some((device_path, uuid)) => earlier.insert(device_path, uuid),
            None => earlier,
        }
    }
}

/// The encrypted volumes that a device listing names.
pub open spec fn parsed_volumes(s: Seq<char>) -> Map<Seq<char>, Seq<char>> {
    volumes_of(records_from(s, 0))
}

/// Whether a record's type marks an encrypted volume.
pub open spec fn is_encrypted(record: Seq<Seq<char>>) -> bool {
    lookup(record, "TYPE"@) == Some("crypto_LUKS"@)
}

/// How many of the records are passed over although their type marks an
/// encrypted volume, because the device path or the identifier is missing.
pub open spec fn skipped_among(records: Seq<Seq<Seq<char>>>) -> nat
    decreases records.len(),
{
    if records.len() == 0 {
        0
    } else if is_encrypted(records.last()) && record_volume(records.last()) is None {
        skipped_among(records.drop_last()) + 1
    } else {
        skipped_among(records.drop_last())
    }
}

/// How many records of a device listing are passed over for a missing field.
pub open spec fn skipped_records(s: Seq<char>) -> nat {
    skipped_among(records_from(s, 0))
}

/// What a device listing holds: its encrypted volumes, and how many
/// records of encrypted volumes were passed over for a missing field, so
/// that the caller can warn of them.
#[derive(Debug)]
pub struct Listing {
    pub volumes: VolumeMap,
    pub skipped: usize,
}

/// Whether the record at `position` is that of an encrypted volume with
/// the device path `device_path` and gives an identifier.
pub open spec fn names_device(
    records: Seq<Seq<Seq<char>>>,
    position: int,
    device_path: Seq<char>,
) -> bool {
    &&& 0 <= position < records.len()
    &&& record_volume(records[position]) matches Some((found, _))
    &&& found == device_path
}

/// A device path is in the mapping exactly if some record is that of an
/// encrypted volume with this path and gives an identifier: such records,
/// and no others, are taken up. The identifier in the mapping is that of
/// the last such record.
pub proof fn lemma_volumes_are_exactly_the_encrypted(
    records: Seq<Seq<Seq<char>>>,
    device_path: Seq<char>,
)
    ensures
        volumes_of(records).contains_key(device_path) <==> exists|i: int| #[trigger]
            names_device(records, i, device_path),
        volumes_of(records).contains_key(device_path) ==> exists|i: int|
            {
                &&& #[trigger] names_device(records, i, device_path)
                &&& record_volume(records[i]) == Some(
                    (device_path, volumes_of(records)[device_path]),
                )
                &&& forall|j: int| i < j ==> !#[trigger] names_device(records, j, device_path)
            },
    decreases records.len(),
{
    if records.len() > 0 {
        let init = records.drop_last();
        let last = records.len() - 1;
        lemma_volumes_are_exactly_the_encrypted(init, device_path);
        assert forall|i: int| names_device(init, i, device_path) <==> (i < last && names_device(
            records,
            i,
            device_path,
        )) by {
            if 0 <= i < last {
                assert(init[i] == records[i]);
            }
        }
        if names_device(records, last, device_path) {
            assert(volumes_of(records).contains_key(device_path));
        } else {
            assert(volumes_of(records).contains_key(device_path) <==> volumes_of(
                init,
            ).contains_key(device_path));
            if volumes_of(init).contains_key(device_path) {
                let i = choose|i: int|
                    {
                        &&& #[trigger] names_device(init, i, device_path)
                        &&& record_volume(init[i]) == Some(
                            (device_path, volumes_of(init)[device_path]),
                        )
                        &&& forall|j: int|
                            i < j ==> !#[trigger] names_device(init, j, device_path)
                    };
                assert(names_device(records, i, device_path));
                assert(init[i] == records[i]);
                assert(volumes_of(records)[device_path] == volumes_of(init)[device_path]);
                assert forall|j: int| i < j implies !#[trigger] names_device(
                    records,
                    j,
                    device_path,
                ) by {
                    if j < last {
                        assert(!names_device(init, j, device_path));
                    }
                }
            }
        }
    }
}

/// A position that ends a record, with no separator before it, is the
/// record's end.
proof fn lemma_segment_end(s: Seq<char>, from: int, e: int)
    requires
        0 <= from <= e <= s.len(),
        forall|k: int| from <= k < e ==> !separator_at(s, k),
        e == s.len() || separator_at(s, e),
    ensures
        segment_end(s, from) == e,
    decreases e - from,
{
    if from < e {
        lemma_segment_end(s, from + 1, e);
    }
}

/// A position that holds a line feed or ends the range, with no line feed
/// before it, is the line's break.
proof fn lemma_line_break(s: Seq<char>, from: int, to: int, e: int)
    requires
        0 <= from <= e <= to <= s.len(),
        forall|k: int| from <= k < e ==> s[k] != '\n',
        e == to || s[e] == '\n',
    ensures
        line_break(s, from, to) == e,
    decreases e - from,
{
    if from < e {
        lemma_line_break(s, from + 1, to, e);
    }
}

/// A position that holds an `=` or ends the line, with no `=` before it,
/// is the line's first `=`.
proof fn lemma_first_equals_sign(line: Seq<char>, from: int, q: int)
    requires
        0 <= from <= q <= line.len(),
        forall|k: int| from <= k < q ==> line[k] != '=',
        q == line.len() || line[q] == '=',
    ensures
        first_equals_sign(line, from) == q,
    decreases q - from,
{
    if from < q {
        lemma_first_equals_sign(line, from + 1, q);
    }
}

/// The end of the record that starts at `from`.
fn find_segment_end(chars: &Vec<char>, from: usize) -> (e: usize)
    requires
        from <= chars@.len(),
    ensures
        from <= e <= chars@.len(),
        e == segment_end(chars@, from as int),
        e < chars@.len() ==> e + 2 <= chars@.len(),
{
    let n: usize = chars.len();
    let mut e: usize = from;
    while e < n && !(e + 1 < n && chars[e] == '\n' && chars[e + 1] == '\n')
        invariant
            n == chars@.len(),
            from <= e <= n,
            forall|k: int| from <= k < e ==> !separator_at(chars@, k),
        decreases n - e,
    {
        e += 1;
    }
    proof {
        lemma_segment_end(chars@, from as int, e as int);
    }
    e
}

/// The first line feed in `[from, to)`, or `to`.
fn find_line_break(chars: &Vec<char>, from: usize, to: usize) -> (e: usize)
    requires
        from <= to <= chars@.len(),
    ensures
        from <= e <= to,
        e == line_break(chars@, from as int, to as int),
{
    let mut e: usize = from;
    while e < to && chars[e] != '\n'
        invariant
            from <= e <= to <= chars@.len(),
            forall|k: int| from <= k < e ==> chars@[k] != '\n',
        decreases to - e,
    {
        e += 1;
    }
    proof {
        lemma_line_break(chars@, from as int, to as int, e as int);
    }
    e
}

/// The first `=` in `[start, to)`, or `to`, within the line `[from, to)`.
fn find_equals_sign(chars: &Vec<char>, from: usize, start: usize, to: usize) -> (q: usize)
    requires
        from <= start <= to <= chars@.len(),
    ensures
        start <= q <= to,
        q - from == first_equals_sign(chars@.subrange(from as int, to as int), start - from),
{
    let mut q: usize = start;
    while q < to && chars[q] != '='
        invariant
            from <= start <= q <= to <= chars@.len(),
            forall|k: int| start <= k < q ==> chars@[k] != '=',
        decreases to - q,
    {
        q += 1;
    }
    proof {
        let line = chars@.subrange(from as int, to as int);
        assert forall|k: int| start - from <= k < q - from implies line[k] != '=' by {
            assert(line[k] == chars@[from + k]);
        }
        lemma_first_equals_sign(line, start - from, q - from);
    }
    q
}

/// Where in `chars` the record in `[from, to)` holds its value for `key`.
fn find_field(chars: &Vec<char>, from: usize, to: usize, key: &str) -> (r: Option<(usize, usize)>)
    requires
        from <= to <= chars@.len(),
    ensures
        match r {
            Some((a, b)) => from <= a <= b <= to && lookup(
                lines_in(chars@, from as int, to as int),
                key@,
            ) == Some(chars@.subrange(a as int, b as int)),
            None => lookup(lines_in(chars@, from as int, to as int), key@) is None,
        },
{
    let ghost s = chars@;
    let ghost seen: Seq<Seq<char>> = Seq::empty();
    let mut found: Option<(usize, usize)> = None;
    let mut cur: usize = from;
    proof {
        assert(seen + lines_in(s, cur as int, to as int) =~= lines_in(s, from as int, to as int));
    }
    while cur < to
        invariant
            s == chars@,
            from <= cur <= to <= s.len(),
            lines_in(s, from as int, to as int) == seen + lines_in(s, cur as int, to as int),
            match found {
                Some((a, b)) => from <= a <= b <= to && lookup(seen, key@) == Some(
                    s.subrange(a as int, b as int),
                ),
                None => lookup(seen, key@) is None,
            },
        decreases to - cur,
    {
        let e: usize = find_line_break(chars, cur, to);
        let text_end: usize = if e < to && cur < e && chars[e - 1] == '\r' {
            e - 1
        } else {
            e
        };
        let q: usize = find_equals_sign(chars, cur, cur, text_end);
        let ghost line = s.subrange(cur as int, text_end as int);
        let is_entry = q < text_end && find_equals_sign(chars, cur, q + 1, text_end) >= text_end;
        let is_key = is_entry && range_equals(chars, cur, q, key);
        proof {
            assert(text_end == line_text_end(s, cur as int, to as int));
            if q < text_end {
                assert(line.subrange(0, q - cur) =~= s.subrange(cur as int, q as int));
                assert(line.subrange(q - cur + 1, line.len() as int) =~= s.subrange(
                    q + 1,
                    text_end as int,
                ));
            }
            let next = seen.push(line);
            assert(next.last() == line);
            assert(next.drop_last() =~= seen);
            let rest = if e < to {
                lines_in(s, e + 1, to as int)
            } else {
                lines_in(s, to as int, to as int)
            };
            assert(lines_in(s, cur as int, to as int) =~= seq![line] + rest);
            assert(seen + (seq![line] + rest) =~= next + rest);
            seen = next;
        }
        if is_key {
            found = Some((q + 1, text_end));
        }
        if e < to {
            cur = e + 1;
        } else {
            cur = to;
        }
    }
    proof {
        assert(seen + lines_in(s, cur as int, to as int) =~= seen);
    }
    found
}

/// Reads a device listing in export format.
///
/// Records are separated by a blank line. In each record every line with
/// exactly one `=` is an entry, split at the `=`; lines without an `=` or
/// with more than one are passed over, and of two entries with one key the
/// later counts. A record whose `TYPE` is
/// `crypto_LUKS` and that gives both `DEVNAME` and `UUID` adds its device
/// path and identifier to the mapping. One with that type that lacks either
/// is counted as skipped. Any other record adds nothing.
pub fn read_listing(output_str: &str) -> (r: Listing)
    ensures
        r.volumes.wf(),
        r.volumes@ == parsed_volumes(output_str@),
        r.skipped == skipped_records(output_str@),
{
    let chars = chars_of(output_str);
    let n: usize = chars.len();
    let ghost s = output_str@;
    let ghost seen: Seq<Seq<Seq<char>>> = Seq::empty();
    let mut result = VolumeMap::new();
    let mut skipped: usize = 0;
    let mut pos: usize = 0;
    let mut finished = false;
    proof {
        assert(seen + records_from(s, 0) =~= records_from(s, 0));
    }
    while !finished
        invariant
            s == output_str@,
            s == chars@,
            n == s.len(),
            pos <= n,
            result.wf(),
            result@ == volumes_of(seen),
            skipped == skipped_among(seen),
            skipped <= seen.len(),
            !finished ==> 2 * seen.len() <= pos,
            finished ==> records_from(s, 0) == seen,
            !finished ==> records_from(s, 0) == seen + records_from(s, pos as int),
        decreases n - pos + (if finished { 0int } else { 1int }),
    {
        let end: usize = find_segment_end(&chars, pos);
        let ghost record = lines_in(s, pos as int, end as int);
        let kind = find_field(&chars, pos, end, "TYPE");
        let device = find_field(&chars, pos, end, "DEVNAME");
        let uuid = find_field(&chars, pos, end, "UUID");
        let encrypted = match kind {
            Some((ka, kb)) => range_equals(&chars, ka, kb, "crypto_LUKS"),
            None => false,
        };
        if encrypted {
            match (device, uuid) {
                (Some((da, db)), Some((ua, ub))) => {
                    let device_path = output_str.substring_char(da, db).to_owned();
                    let id = output_str.substring_char(ua, ub).to_owned();
                    result.insert(device_path, id);
                },
                _ => {
                    skipped += 1;
                },
            }
        }
        proof {
            let next = seen.push(record);
            assert(next.last() == record);
            assert(next.drop_last() =~= seen);
            assert(result@ == volumes_of(next));
            assert(skipped == skipped_among(next));
            if end < n {
                let rest = records_from(s, end + 2);
                assert(records_from(s, pos as int) == seq![record] + rest);
                assert(seen + (seq![record] + rest) =~= next + rest);
            } else {
                assert(records_from(s, pos as int) == seq![record]);
                assert(seen + seq![record] =~= next);
            }
            seen = next;
        }
        if end < n {
            pos = end + 2;
        } else {
            finished = true;
        }
    }
    Listing { volumes: result, skipped }
}

/// Reads the encrypted volumes out of a device listing in export format,
/// as `read_listing` does. The listing is never refused: one without an
/// encrypted volume gives the empty mapping.
pub fn parse_blkid_output(output_str: &str) -> (r: Result<VolumeMap, DiscoveryError>)
    ensures
        r is Ok,
        r->Ok_0.wf(),
        r->Ok_0@ == parsed_volumes(output_str@),
{
    Ok(read_listing(output_str).volumes)
}

/// Why no mapping of encrypted volumes could be had from the listing tool.
#[derive(Debug)]
pub enum DiscoveryError {
    /// The listing tool could not be started.
    Tool(CommandError),
    /// The listing tool's output is not valid UTF-8.
    Undecodable,
}

/// Calls `String::from_utf8`, which gives the text exactly if the bytes are
/// valid UTF-8; the text's bytes are then the bytes given.
#[verifier::external_body]
fn text_of_bytes(bytes: Vec<u8>) -> (r: Option<String>)
    ensures
        r is Some <==> valid_utf8(bytes@),
        r matches Some(text) ==> encode_utf8(text@) == bytes@,
{
    String::from_utf8(bytes).ok()
}

/// The invocation of the listing tool, as plain text.
pub open spec fn listing_command_text() -> CommandText {
    CommandText { program: "blkid"@, args: seq!["-o"@, "export"@] }
}

/// The encrypted volumes of this machine, from the result of running
/// `listing_command`. It fails only if the tool could not be started or if
/// its output is not valid UTF-8. The status that the tool ended with does
/// not count: whatever it is, the output is read. A listing without an
/// encrypted volume gives the empty mapping, which is for the caller to
/// judge.
pub fn get_luks_device_uuid_map(result: ToolResult) -> (r: Result<Listing, DiscoveryError>)
    ensures
        match result {
            ToolResult::NotStarted(reason) => {
                &&& r matches Err(DiscoveryError::Tool(e))
                &&& e@ == (CommandErrorText::NotStarted {
                    command: listing_command_text(),
                    reason: reason@,
                })
            },
            ToolResult::Exited(output) => if valid_utf8(output.stdout@) {
                &&& r matches Ok(listing)
                &&& listing.volumes.wf()
                &&& listing.volumes@ == parsed_volumes(decode_utf8(output.stdout@))
                &&& listing.skipped == skipped_records(decode_utf8(output.stdout@))
            } else {
                r matches Err(DiscoveryError::Undecodable)
            },
        },
{
    match result {
        ToolResult::NotStarted(reason) => Err(
            DiscoveryError::Tool(CommandError::NotStarted { command: listing_command(), reason }),
        ),
        ToolResult::Exited(output) => {
            match text_of_bytes(output.stdout) {
                None => Err(DiscoveryError::Undecodable),
                Some(text) => {
                    proof {
                        encode_utf8_decode_utf8(text@);
                    }
                    Ok(read_listing(text.as_str()))
                },
            }
        },
    }
}

} // verus!
