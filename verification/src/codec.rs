//! The GMA container, byte for byte: what the writer emits, what the
//! reader accepts, and the round-trip between them.
//!
//! Layout (little endian throughout): the magic `GMAD`, a version byte,
//! an eight-byte SteamID (written zero), an eight-byte Unix timestamp, a
//! NUL-terminated list of required-content strings ended by an empty one
//! (writers emit only the empty one), the NUL-terminated title,
//! description and author, four version bytes, the entry index, and the
//! concatenated entry payloads. Each index record is a 1-based file
//! number, a NUL-terminated path, a signed 64-bit size and a zero CRC
//! slot; a zero file number ends the index.

use crate::util::{spec_i64_from_le_bytes, spec_i64_to_le_bytes, spec_nul_str, spec_take_nul_str};
use vstd::bytes::*;
use vstd::prelude::*;

verus! {

/// One entry as the writer records it: path bytes and an unsigned size.
pub struct IndexEntryV {
    pub path: Seq<u8>,
    pub size: u64,
}

/// One entry as the reader decodes it: the raw file number, path bytes
/// and the signed size straight from the wire.
pub struct RawEntryV {
    pub num: u32,
    pub path: Seq<u8>,
    pub size: i64,
}

/// Everything the reader learns from a container: the header strings,
/// the decoded index, and the payload region.
pub struct GmaParsedV {
    pub version: u8,
    pub title: Seq<u8>,
    pub description: Seq<u8>,
    pub entries: Seq<RawEntryV>,
    pub payload: Seq<u8>,
}

/// A byte string with no embedded zero, so it survives NUL framing.
pub open spec fn nul_free(s: Seq<u8>) -> bool {
    forall|i: int| 0 <= i < s.len() ==> s[i] != 0
}

/// The header: everything before the entry index.
pub open spec fn spec_header_bytes(title: Seq<u8>, desc: Seq<u8>, timestamp: u64) -> Seq<u8> {
    crate::spec_gma_magic() + seq![crate::GMA_VERSION] + spec_u64_to_le_bytes(0u64)
        + spec_u64_to_le_bytes(timestamp) + seq![0u8] + spec_nul_str(title) + spec_nul_str(desc)
        + seq![0u8] + seq![1u8, 0u8, 0u8, 0u8]
}

/// One index record, numbered from 1.
pub open spec fn spec_index_record(num: u32, path: Seq<u8>, size: u64) -> Seq<u8> {
    spec_u32_to_le_bytes(num) + spec_nul_str(path) + spec_i64_to_le_bytes(size as i64)
        + spec_u32_to_le_bytes(0u32)
}

/// The index records for entries `k..`, numbered `k + 1` on, ended by the
/// zero terminator.
pub open spec fn spec_index_bytes_from(entries: Seq<IndexEntryV>, k: int) -> Seq<u8>
    decreases entries.len() - k,
{
    if k < 0 || k >= entries.len() {
        spec_u32_to_le_bytes(0u32)
    } else {
        spec_index_record((k + 1) as u32, entries[k].path, entries[k].size)
            + spec_index_bytes_from(entries, k + 1)
    }
}

/// The whole entry index.
pub open spec fn spec_index_bytes(entries: Seq<IndexEntryV>) -> Seq<u8> {
    spec_index_bytes_from(entries, 0)
}

/// The index records for entries before `k`, in order. Building the
/// index front to back passes through these prefixes.
pub open spec fn spec_index_records_upto(entries: Seq<IndexEntryV>, k: int) -> Seq<u8>
    decreases k,
{
    if k <= 0 {
        Seq::empty()
    } else {
        spec_index_records_upto(entries, k - 1) + spec_index_record(
            k as u32,
            entries[k - 1].path,
            entries[k - 1].size,
        )
    }
}

/// The index is the records written so far, the records still to write,
/// and the terminator.
pub proof fn lemma_index_split(entries: Seq<IndexEntryV>, k: int)
    requires
        0 <= k <= entries.len(),
    ensures
        spec_index_bytes(entries) == spec_index_records_upto(entries, k)
            + spec_index_bytes_from(entries, k),
    decreases k,
{
    if k == 0 {
        assert(spec_index_records_upto(entries, 0) + spec_index_bytes_from(entries, 0)
            =~= spec_index_bytes_from(entries, 0));
    } else {
        lemma_index_split(entries, k - 1);
        assert(spec_index_bytes_from(entries, k - 1) == spec_index_record(
            k as u32,
            entries[k - 1].path,
            entries[k - 1].size,
        ) + spec_index_bytes_from(entries, k));
        assert((spec_index_records_upto(entries, k - 1) + (spec_index_record(
            k as u32,
            entries[k - 1].path,
            entries[k - 1].size,
        ) + spec_index_bytes_from(entries, k))) =~= (spec_index_records_upto(entries, k)
            + spec_index_bytes_from(entries, k)));
    }
}

/// The concatenation of the payloads, in index order, with no framing.
pub open spec fn spec_concat(payloads: Seq<Seq<u8>>) -> Seq<u8>
    decreases payloads.len(),
{
    if payloads.len() == 0 {
        Seq::empty()
    } else {
        payloads[0] + spec_concat(payloads.drop_first())
    }
}

/// The concatenation of the payloads before `k`.
pub open spec fn spec_concat_upto(payloads: Seq<Seq<u8>>, k: int) -> Seq<u8>
    decreases k,
{
    if k <= 0 {
        Seq::empty()
    } else {
        spec_concat_upto(payloads, k - 1) + payloads[k - 1]
    }
}

/// Concatenating front to back passes through the `upto` prefixes.
pub proof fn lemma_concat_split(payloads: Seq<Seq<u8>>, k: int)
    requires
        0 <= k <= payloads.len(),
    ensures
        spec_concat(payloads) == spec_concat_upto(payloads, k) + spec_concat(
            payloads.skip(k),
        ),
    decreases k,
{
    if k == 0 {
        assert(payloads.skip(0) =~= payloads);
        assert(spec_concat_upto(payloads, 0) + spec_concat(payloads) =~= spec_concat(
            payloads,
        ));
    } else {
        lemma_concat_split(payloads, k - 1);
        let tail = payloads.skip(k - 1);
        assert(tail.len() > 0);
        assert(tail[0] == payloads[k - 1]);
        assert(tail.drop_first() =~= payloads.skip(k));
        assert(spec_concat(tail) == payloads[k - 1] + spec_concat(payloads.skip(k)));
        assert((spec_concat_upto(payloads, k - 1) + (payloads[k - 1] + spec_concat(
            payloads.skip(k),
        ))) =~= (spec_concat_upto(payloads, k) + spec_concat(payloads.skip(k))));
    }
}

/// The sum of the declared entry sizes.
pub open spec fn spec_size_sum(entries: Seq<IndexEntryV>) -> int
    decreases entries.len(),
{
    if entries.len() == 0 {
        0
    } else {
        entries[0].size + spec_size_sum(entries.drop_first())
    }
}

/// Payloads whose lengths are exactly the declared sizes.
pub open spec fn payloads_match(entries: Seq<IndexEntryV>, payloads: Seq<Seq<u8>>) -> bool {
    payloads.len() == entries.len() && forall|i: int|
        0 <= i < entries.len() ==> #[trigger] payloads[i].len() == entries[i].size
}

/// When payload lengths equal the declared sizes, the payload region is
/// exactly as long as the sizes say.
pub proof fn lemma_payload_region_len(entries: Seq<IndexEntryV>, payloads: Seq<Seq<u8>>)
    requires
        payloads_match(entries, payloads),
    ensures
        spec_concat(payloads).len() == spec_size_sum(entries),
    decreases entries.len(),
{
    if entries.len() > 0 {
        assert(payloads[0].len() == entries[0].size);
        assert(payloads_match(entries.drop_first(), payloads.drop_first())) by {
            assert forall|i: int|
                0 <= i < entries.drop_first().len() implies #[trigger] payloads.drop_first()[
                i].len() == entries.drop_first()[i].size by {
                assert(payloads[i + 1].len() == entries[i + 1].size);
            }
        }
        lemma_payload_region_len(entries.drop_first(), payloads.drop_first());
    }
}

/// The complete container for the given metadata, entries and payloads.
pub open spec fn spec_gma_bytes(
    title: Seq<u8>,
    desc: Seq<u8>,
    timestamp: u64,
    entries: Seq<IndexEntryV>,
    payloads: Seq<Seq<u8>>,
) -> Seq<u8> {
    spec_header_bytes(title, desc, timestamp) + spec_index_bytes(entries) + spec_concat(
        payloads,
    )
}

/// Every container the writer produces opens with the magic `GMAD` and
/// carries the current version byte right after it.
pub proof fn lemma_gma_magic_version(
    title: Seq<u8>,
    desc: Seq<u8>,
    timestamp: u64,
    entries: Seq<IndexEntryV>,
    payloads: Seq<Seq<u8>>,
)
    ensures
        ({
            let file = spec_gma_bytes(title, desc, timestamp, entries, payloads);
            &&& file.len() >= 5
            &&& file.subrange(0, 4) == crate::spec_gma_magic()
            &&& file[4] == crate::GMA_VERSION
        }),
{
    let file = spec_gma_bytes(title, desc, timestamp, entries, payloads);
    assert(file.subrange(0, 4) =~= crate::spec_gma_magic());
}

/// Reading a 32-bit little-endian value off the front.
pub open spec fn spec_parse_u32(b: Seq<u8>) -> Option<(u32, Seq<u8>)> {
    if b.len() >= 4 {
        Some((spec_u32_from_le_bytes(b.subrange(0, 4)), b.skip(4)))
    } else {
        None
    }
}

/// Reading a signed 64-bit little-endian value off the front.
pub open spec fn spec_parse_i64(b: Seq<u8>) -> Option<(i64, Seq<u8>)> {
    if b.len() >= 8 {
        Some((spec_i64_from_le_bytes(b.subrange(0, 8)), b.skip(8)))
    } else {
        None
    }
}

/// Reading NUL-terminated required-content strings until an empty one.
pub open spec fn spec_parse_required(b: Seq<u8>) -> Option<Seq<u8>>
    decreases b.len(),
    via spec_parse_required_dec
{
    match spec_take_nul_str(b) {
        Some(sr) => if sr.0.len() == 0 {
            Some(sr.1)
        } else {
            spec_parse_required(sr.1)
        },
        None => None,
    }
}

#[via_fn]
proof fn spec_parse_required_dec(b: Seq<u8>) {
    crate::util::lemma_find_nul_bounds(b, 0);
}

/// Reading the header: the magic, the version byte, sixteen discarded
/// bytes, the required-content block when the version asks for it, the
/// title, the description, the discarded author, and four discarded
/// addon-version bytes. Yields the version, title and description bytes
/// and what follows.
pub open spec fn spec_parse_header(b: Seq<u8>) -> Option<(u8, Seq<u8>, Seq<u8>, Seq<u8>)> {
    if b.len() < 21 || b.subrange(0, 4) != crate::spec_gma_magic() {
        None
    } else {
        let version = b[4];
        let body = b.skip(21);
        let after_required = if version > 1 {
            spec_parse_required(body)
        } else {
            Some(body)
        };
        match after_required {
            None => None,
            Some(r1) => match spec_take_nul_str(r1) {
                None => None,
                Some(t) => match spec_take_nul_str(t.1) {
                    None => None,
                    Some(d) => match spec_take_nul_str(d.1) {
                        None => None,
                        Some(a) => if a.1.len() >= 4 {
                            Some((version, t.0, d.0, a.1.skip(4)))
                        } else {
                            None
                        },
                    },
                },
            },
        }
    }
}

/// Reading index records until a zero file number.
pub open spec fn spec_parse_entries(b: Seq<u8>) -> Option<(Seq<RawEntryV>, Seq<u8>)>
    decreases b.len(),
    via spec_parse_entries_dec
{
    match spec_parse_u32(b) {
        None => None,
        Some(n) => if n.0 == 0 {
            Some((Seq::empty(), n.1))
        } else {
            match spec_take_nul_str(n.1) {
                None => None,
                Some(p) => match spec_parse_i64(p.1) {
                    None => None,
                    Some(s) => match spec_parse_u32(s.1) {
                        None => None,
                        Some(c) => match spec_parse_entries(c.1) {
                            None => None,
                            Some(tail) => Some(
                                (
                                    seq![RawEntryV { num: n.0, path: p.0, size: s.0 }]
                                        + tail.0,
                                    tail.1,
                                ),
                            ),
                        },
                    },
                },
            }
        },
    }
}

#[via_fn]
proof fn spec_parse_entries_dec(b: Seq<u8>) {
    if b.len() >= 4 {
        crate::util::lemma_find_nul_bounds(b.skip(4), 0);
    }
}

/// Reading a whole container.
pub open spec fn spec_parse_gma(b: Seq<u8>) -> Option<GmaParsedV> {
    match spec_parse_header(b) {
        None => None,
        Some(h) => match spec_parse_entries(h.3) {
            None => None,
            Some(e) => Some(
                GmaParsedV {
                    version: h.0,
                    title: h.1,
                    description: h.2,
                    entries: e.0,
                    payload: e.1,
                },
            ),
        },
    }
}

/// A NUL-framed string with no embedded zero reads back exactly.
pub proof fn lemma_take_nul_of_frame(s: Seq<u8>, rest: Seq<u8>)
    requires
        nul_free(s),
    ensures
        spec_take_nul_str(spec_nul_str(s) + rest) == Some((s, rest)),
{
    let b = spec_nul_str(s) + rest;
    assert(b[s.len() as int] == 0);
    assert forall|j: int| 0 <= j < s.len() implies b[j] != 0 by {
        assert(b[j] == s[j]);
    }
    crate::util::lemma_find_nul_found(b, 0, s.len() as int);
    assert(b.subrange(0, s.len() as int) =~= s);
    assert(b.skip(s.len() as int + 1) =~= rest);
}

/// A written 32-bit value reads back exactly.
pub proof fn lemma_parse_u32_of(v: u32, tail: Seq<u8>)
    ensures
        spec_parse_u32(spec_u32_to_le_bytes(v) + tail) == Some((v, tail)),
{
    lemma_auto_spec_u32_to_from_le_bytes();
    let b = spec_u32_to_le_bytes(v) + tail;
    assert(b.subrange(0, 4) =~= spec_u32_to_le_bytes(v));
    assert(b.skip(4) =~= tail);
}

/// A written signed 64-bit value reads back exactly.
pub proof fn lemma_parse_i64_of(v: i64, tail: Seq<u8>)
    ensures
        spec_parse_i64(spec_i64_to_le_bytes(v) + tail) == Some((v, tail)),
{
    lemma_auto_spec_u64_to_from_le_bytes();
    let b = spec_i64_to_le_bytes(v) + tail;
    assert(b.subrange(0, 8) =~= spec_i64_to_le_bytes(v));
    assert(b.skip(8) =~= tail);
    assert((v as u64) as i64 == v) by (bit_vector);
}

/// The writer's required-content block, a single empty string, reads
/// back leaving exactly what follows.
pub proof fn lemma_parse_required_of(tail: Seq<u8>)
    ensures
        spec_parse_required(seq![0u8] + tail) == Some(tail),
{
    lemma_take_nul_of_frame(Seq::empty(), tail);
    assert(spec_nul_str(Seq::empty()) + tail =~= seq![0u8] + tail);
}

/// A written header reads back exactly.
pub proof fn lemma_parse_header_of(title: Seq<u8>, desc: Seq<u8>, timestamp: u64, rest: Seq<u8>)
    requires
        nul_free(title),
        nul_free(desc),
    ensures
        spec_parse_header(spec_header_bytes(title, desc, timestamp) + rest) == Some(
            (crate::GMA_VERSION, title, desc, rest),
        ),
{
    lemma_auto_spec_u64_to_from_le_bytes();
    let b = spec_header_bytes(title, desc, timestamp) + rest;
    assert(b.subrange(0, 4) =~= crate::spec_gma_magic());
    assert(b[4] == crate::GMA_VERSION);
    let body = seq![0u8] + (spec_nul_str(title) + (spec_nul_str(desc) + (seq![0u8] + (seq![
        1u8,
        0u8,
        0u8,
        0u8,
    ] + rest))));
    assert(b.len() >= 21);
    assert(b.skip(21) =~= body);
    lemma_parse_required_of(
        spec_nul_str(title) + (spec_nul_str(desc) + (seq![0u8] + (seq![1u8, 0u8, 0u8, 0u8]
            + rest))),
    );
    assert(seq![0u8] + (spec_nul_str(title) + (spec_nul_str(desc) + (seq![0u8] + (seq![
        1u8,
        0u8,
        0u8,
        0u8,
    ] + rest)))) =~= body);
    lemma_take_nul_of_frame(
        title,
        spec_nul_str(desc) + (seq![0u8] + (seq![1u8, 0u8, 0u8, 0u8] + rest)),
    );
    lemma_take_nul_of_frame(desc, seq![0u8] + (seq![1u8, 0u8, 0u8, 0u8] + rest));
    lemma_take_nul_of_frame(Seq::empty(), seq![1u8, 0u8, 0u8, 0u8] + rest);
    assert(spec_nul_str(Seq::empty()) + (seq![1u8, 0u8, 0u8, 0u8] + rest) =~= seq![0u8]
        + (seq![1u8, 0u8, 0u8, 0u8] + rest));
    assert((seq![1u8, 0u8, 0u8, 0u8] + rest).skip(4) =~= rest);
}

/// The reader's view of the entries the writer recorded from `k` on:
/// file numbers counted from `k + 1`, the same paths, the sizes as
/// signed values.
pub open spec fn spec_raws_from(entries: Seq<IndexEntryV>, k: int) -> Seq<RawEntryV>
    decreases entries.len() - k,
{
    if k < 0 || k >= entries.len() {
        Seq::empty()
    } else {
        seq![
            RawEntryV {
                num: (k + 1) as u32,
                path: entries[k].path,
                size: entries[k].size as i64,
            },
        ] + spec_raws_from(entries, k + 1)
    }
}

/// A written index reads back exactly, numbered `k + 1` on.
pub proof fn lemma_parse_entries_of(entries: Seq<IndexEntryV>, k: int, rest: Seq<u8>)
    requires
        0 <= k <= entries.len(),
        entries.len() <= u32::MAX,
        forall|i: int|
            0 <= i < entries.len() ==> nul_free(#[trigger] entries[i].path) && entries[i].size
                <= i64::MAX,
    ensures
        spec_parse_entries(spec_index_bytes_from(entries, k) + rest) == Some(
            (spec_raws_from(entries, k), rest),
        ),
    decreases entries.len() - k,
{
    if k == entries.len() {
        lemma_parse_u32_of(0u32, rest);
        assert(spec_index_bytes_from(entries, k) + rest =~= spec_u32_to_le_bytes(0u32)
            + rest);
        assert(spec_raws_from(entries, k) =~= Seq::<RawEntryV>::empty());
    } else {
        let num = (k + 1) as u32;
        let path = entries[k].path;
        let size = entries[k].size;
        let tail = spec_index_bytes_from(entries, k + 1) + rest;
        lemma_parse_entries_of(entries, k + 1, rest);
        let b = spec_index_bytes_from(entries, k) + rest;
        assert(b =~= spec_u32_to_le_bytes(num) + (spec_nul_str(path) + (spec_i64_to_le_bytes(
            size as i64,
        ) + (spec_u32_to_le_bytes(0u32) + tail))));
        lemma_parse_u32_of(
            num,
            spec_nul_str(path) + (spec_i64_to_le_bytes(size as i64) + (spec_u32_to_le_bytes(
                0u32,
            ) + tail)),
        );
        assert(num != 0);
        lemma_take_nul_of_frame(
            path,
            spec_i64_to_le_bytes(size as i64) + (spec_u32_to_le_bytes(0u32) + tail),
        );
        lemma_parse_i64_of(size as i64, spec_u32_to_le_bytes(0u32) + tail);
        lemma_parse_u32_of(0u32, tail);
        assert(size as i64 == size) by (bit_vector)
            requires
                size <= i64::MAX as u64,
        ;
        assert(spec_raws_from(entries, k) == seq![
            RawEntryV { num, path, size: size as i64 },
        ] + spec_raws_from(entries, k + 1));
    }
}

/// Round trip: a container the writer produced reads back to exactly the
/// metadata, entries and payload region it was given; the file numbers
/// come back as `1..=N` in order.
pub proof fn lemma_parse_gma_of(
    title: Seq<u8>,
    desc: Seq<u8>,
    timestamp: u64,
    entries: Seq<IndexEntryV>,
    payloads: Seq<Seq<u8>>,
)
    requires
        nul_free(title),
        nul_free(desc),
        entries.len() <= u32::MAX,
        forall|i: int|
            0 <= i < entries.len() ==> nul_free(#[trigger] entries[i].path) && entries[i].size
                <= i64::MAX,
    ensures
        spec_parse_gma(spec_gma_bytes(title, desc, timestamp, entries, payloads)) == Some(
            GmaParsedV {
                version: crate::GMA_VERSION,
                title,
                description: desc,
                entries: spec_raws_from(entries, 0),
                payload: spec_concat(payloads),
            },
        ),
        spec_raws_from(entries, 0).len() == entries.len(),
        forall|i: int|
            0 <= i < entries.len() ==> #[trigger] spec_raws_from(entries, 0)[i] == (RawEntryV {
                num: (i + 1) as u32,
                path: entries[i].path,
                size: entries[i].size as i64,
            }),
{
    let b = spec_gma_bytes(title, desc, timestamp, entries, payloads);
    assert(b =~= spec_header_bytes(title, desc, timestamp) + (spec_index_bytes(entries)
        + spec_concat(payloads)));
    lemma_parse_header_of(
        title,
        desc,
        timestamp,
        spec_index_bytes(entries) + spec_concat(payloads),
    );
    lemma_parse_entries_of(entries, 0, spec_concat(payloads));
    lemma_raws_shape(entries, 0);
}

/// The shape of `spec_raws_from`: one raw record per entry, numbered in
/// encounter order.
pub proof fn lemma_raws_shape(entries: Seq<IndexEntryV>, k: int)
    requires
        0 <= k <= entries.len(),
        entries.len() <= u32::MAX,
    ensures
        spec_raws_from(entries, k).len() == entries.len() - k,
        forall|i: int|
            0 <= i < entries.len() - k ==> #[trigger] spec_raws_from(entries, k)[i] == (
            RawEntryV {
                num: (k + i + 1) as u32,
                path: entries[k + i].path,
                size: entries[k + i].size as i64,
            }),
    decreases entries.len() - k,
{
    if k < entries.len() {
        lemma_raws_shape(entries, k + 1);
    }
}

} // verus!
