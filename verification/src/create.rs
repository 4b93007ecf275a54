//! Building archives: filtering a listed directory tree into the entry
//! list, and writing the container sequentially.
//!
//! The caller walks the addon directory (following links, sorted by file
//! name), parses `addon.json`, reads file contents, and hands everything
//! here as plain values; this module decides which files become entries,
//! assigns offsets, and produces the archive bytes.

use crate::codec::{
    lemma_concat_split, lemma_index_split, spec_concat, spec_concat_upto, spec_gma_bytes,
    spec_header_bytes, spec_index_bytes, spec_index_bytes_from, spec_index_records_upto,
    IndexEntryV,
};
use crate::conf::CreateGmaConfig;
use crate::error::GmaError;
use crate::util::{ByteWriter, WriteEx};
use crate::whitelist::{
    lemma_str_bytes, spec_is_ignored, spec_patterns_bytes, spec_whitelisted, str_bytes,
};
use vstd::bytes::spec_u32_to_le_bytes;
use vstd::prelude::*;
use vstd::string::StrSliceExecFns;

verus! {

/// The addon metadata the creator consumes: the title, the ignore
/// globs, and the verbatim `addon.json` text that goes into the
/// description slot of the container.
pub struct AddonMetadata {
    /// The addon title.
    pub title: String,
    /// Glob patterns of files to leave out of the archive.
    pub ignore: Vec<String>,
    /// The raw `addon.json` text, stored verbatim in the container.
    pub json: String,
}

/// One file found under the addon directory, in sorted walk order: its
/// relative path (forward slashes) and its size in bytes.
pub struct FileMeta {
    /// The path relative to the addon directory.
    pub relative_path: String,
    /// The file size in bytes.
    pub size: u64,
}

/// One accepted entry: where its file sits in the caller's list, its
/// relative path, its size, and its precomputed offset into the payload
/// region.
pub struct GmaFileEntry {
    /// Position of the file in the discovered file list.
    pub file_index: usize,
    /// The path recorded in the archive.
    pub relative_path: String,
    /// The payload size in bytes.
    pub size: u64,
    /// Cumulative size of the accepted entries before this one.
    pub offset: u64,
}

/// The ghost image of an accepted entry.
pub struct GmaFileEntryV {
    pub file_index: int,
    pub relative_path: Seq<char>,
    pub size: u64,
    pub offset: u64,
}

impl View for GmaFileEntry {
    type V = GmaFileEntryV;

    open spec fn view(&self) -> GmaFileEntryV {
        GmaFileEntryV {
            file_index: self.file_index as int,
            relative_path: self.relative_path@,
            size: self.size,
            offset: self.offset,
        }
    }
}

/// A file the discovery passes over without a word: `addon.json`
/// itself, or a file the addon's ignore list matches.
pub open spec fn spec_silently_skipped(f: FileMeta, ignore: Seq<Seq<u8>>) -> bool {
    str_bytes(f.relative_path@) == str_bytes("addon.json"@) || spec_is_ignored(
        str_bytes(f.relative_path@),
        ignore,
    )
}

/// What discovery makes of the files from position `k` on, with `offset`
/// bytes of payload already assigned: the accepted entries in order, or
/// the first fatal rejection.
pub open spec fn spec_discover_from(
    files: Seq<FileMeta>,
    ignore: Seq<Seq<u8>>,
    warn_invalid: bool,
    k: int,
    offset: int,
) -> Result<Seq<GmaFileEntryV>, GmaError>
    decreases files.len() - k,
{
    if k < 0 || k >= files.len() {
        Ok(Seq::empty())
    } else {
        let f = files[k];
        if spec_silently_skipped(f, ignore) {
            spec_discover_from(files, ignore, warn_invalid, k + 1, offset)
        } else if !spec_whitelisted(str_bytes(f.relative_path@)) {
            if warn_invalid {
                spec_discover_from(files, ignore, warn_invalid, k + 1, offset)
            } else {
                Err(GmaError::EntryNotWhitelisted { relative_path: f.relative_path })
            }
        } else if offset + f.size > u64::MAX {
            Err(GmaError::EntryTooLarge { relative_path: f.relative_path })
        } else {
            match spec_discover_from(files, ignore, warn_invalid, k + 1, offset + f.size) {
                Ok(tail) => Ok(
                    seq![
                        GmaFileEntryV {
                            file_index: k,
                            relative_path: f.relative_path@,
                            size: f.size,
                            offset: offset as u64,
                        },
                    ] + tail,
                ),
                Err(e) => Err(e),
            }
        }
    }
}

/// The discovery result for a whole file list.
pub open spec fn spec_discover(
    files: Seq<FileMeta>,
    ignore: Seq<Seq<u8>>,
    warn_invalid: bool,
) -> Result<Seq<GmaFileEntryV>, GmaError> {
    spec_discover_from(files, ignore, warn_invalid, 0, 0)
}

/// The shape of a successful discovery: every accepted entry points at a
/// file of the list, keeps that file's path and size, no file appears
/// twice, the entries come in file order, offsets are the cumulative
/// sizes (gap-free, starting at `offset`), and every accepted entry is
/// on the whitelist and not ignored and not `addon.json`.
pub proof fn lemma_discover_shape(
    files: Seq<FileMeta>,
    ignore: Seq<Seq<u8>>,
    warn_invalid: bool,
    k: int,
    offset: int,
)
    requires
        0 <= k <= files.len(),
        0 <= offset <= u64::MAX,
        spec_discover_from(files, ignore, warn_invalid, k, offset) is Ok,
    ensures
        ({
            let es = spec_discover_from(files, ignore, warn_invalid, k, offset)->Ok_0;
            &&& forall|i: int|
                0 <= i < es.len() ==> k <= #[trigger] es[i].file_index < files.len()
            &&& forall|i: int|
                0 <= i < es.len() ==> #[trigger] es[i].relative_path == files[
                    es[i].file_index
                ].relative_path@ && es[i].size == files[es[i].file_index].size
            &&& forall|i: int, j: int|
                0 <= i < j < es.len() ==> #[trigger] es[i].file_index < #[trigger] es[
                    j
                ].file_index
            &&& forall|i: int|
                0 <= i < es.len() ==> !spec_silently_skipped(
                    files[#[trigger] es[i].file_index],
                    ignore,
                ) && spec_whitelisted(str_bytes(es[i].relative_path))
            &&& (es.len() > 0 ==> es[0].offset == offset)
            &&& forall|i: int|
                0 < i < es.len() ==> #[trigger] es[i].offset == es[i - 1].offset + es[i
                    - 1].size
        }),
    decreases files.len() - k,
{
    if k < files.len() {
        let f = files[k];
        if spec_silently_skipped(f, ignore) || (!spec_whitelisted(str_bytes(f.relative_path@))
            && warn_invalid) {
            lemma_discover_shape(files, ignore, warn_invalid, k + 1, offset);
        } else if spec_whitelisted(str_bytes(f.relative_path@)) && offset + f.size
            <= u64::MAX {
            lemma_discover_shape(files, ignore, warn_invalid, k + 1, offset + f.size);
        }
    }
}

/// Discovery accepts at most one entry per remaining file.
pub proof fn lemma_discover_len(
    files: Seq<FileMeta>,
    ignore: Seq<Seq<u8>>,
    warn_invalid: bool,
    k: int,
    offset: int,
)
    requires
        0 <= k <= files.len(),
        spec_discover_from(files, ignore, warn_invalid, k, offset) is Ok,
    ensures
        spec_discover_from(files, ignore, warn_invalid, k, offset)->Ok_0.len() <= files.len()
            - k,
    decreases files.len() - k,
{
    if k < files.len() {
        let f = files[k];
        if spec_silently_skipped(f, ignore) || (!spec_whitelisted(str_bytes(f.relative_path@))
            && warn_invalid) {
            lemma_discover_len(files, ignore, warn_invalid, k + 1, offset);
        } else if spec_whitelisted(str_bytes(f.relative_path@)) && offset + f.size
            <= u64::MAX {
            lemma_discover_len(files, ignore, warn_invalid, k + 1, offset + f.size);
        }
    }
}

/// Nothing the ignore list matches is ever accepted, and `addon.json`
/// never packs itself.
pub proof fn lemma_discover_excludes(
    files: Seq<FileMeta>,
    ignore: Seq<Seq<u8>>,
    warn_invalid: bool,
)
    requires
        spec_discover(files, ignore, warn_invalid) is Ok,
    ensures
        forall|i: int|
            0 <= i < spec_discover(files, ignore, warn_invalid)->Ok_0.len()
                ==> !spec_is_ignored(
                str_bytes(#[trigger] spec_discover(files, ignore, warn_invalid)->Ok_0[
                    i
                ].relative_path),
                ignore,
            ) && str_bytes(spec_discover(files, ignore, warn_invalid)->Ok_0[i].relative_path)
                != str_bytes("addon.json"@),
{
    lemma_discover_shape(files, ignore, warn_invalid, 0, 0);
    let es = spec_discover(files, ignore, warn_invalid)->Ok_0;
    assert forall|i: int| 0 <= i < es.len() implies !spec_is_ignored(
        str_bytes(#[trigger] es[i].relative_path),
        ignore,
    ) && str_bytes(es[i].relative_path) != str_bytes("addon.json"@) by {
        assert(!spec_silently_skipped(files[es[i].file_index], ignore));
        assert(es[i].relative_path == files[es[i].file_index].relative_path@);
    }
}

/// With warnings disabled, discovery fails exactly when some file that
/// is neither `addon.json` nor ignored falls outside the whitelist, and
/// the error names such a file; with warnings enabled, a file outside
/// the whitelist is only ever dropped, never fatal.
pub proof fn lemma_discover_whitelist_gate(
    files: Seq<FileMeta>,
    ignore: Seq<Seq<u8>>,
    k: int,
    offset: int,
)
    requires
        0 <= k <= files.len(),
        0 <= offset <= u64::MAX,
    ensures
        ({
            let r = spec_discover_from(files, ignore, false, k, offset);
            (exists|i: int|
                k <= i < files.len() && !spec_silently_skipped(#[trigger] files[i], ignore)
                    && !spec_whitelisted(str_bytes(files[i].relative_path@))) ==> (
            r matches Err(e) && (e matches GmaError::EntryNotWhitelisted {
                relative_path,
            } ==> exists|i: int|
                k <= i < files.len() && !spec_silently_skipped(#[trigger] files[i], ignore)
                    && !spec_whitelisted(str_bytes(files[i].relative_path@))
                    && relative_path == files[i].relative_path))
        }),
        (forall|i: int|
            k <= i < files.len() ==> (spec_silently_skipped(#[trigger] files[i], ignore)
                || spec_whitelisted(str_bytes(files[i].relative_path@)))) ==> (
        spec_discover_from(files, ignore, false, k, offset) matches Err(e) ==> !(
        e is EntryNotWhitelisted)),
    decreases files.len() - k,
{
    if k < files.len() {
        let f = files[k];
        if spec_silently_skipped(f, ignore) {
            lemma_discover_whitelist_gate(files, ignore, k + 1, offset);
        } else if !spec_whitelisted(str_bytes(f.relative_path@)) {
        } else if offset + f.size <= u64::MAX {
            lemma_discover_whitelist_gate(files, ignore, k + 1, offset + f.size);
        }
    }
}

/// Walks the listed files once, applying the skip, ignore and whitelist
/// rules of the discovery spec and assigning cumulative offsets.
pub fn discover_entries(files: &Vec<FileMeta>, ignore: &[String], warn_invalid: bool) -> (r:
    Result<Vec<GmaFileEntry>, GmaError>)
    ensures
        ({
            let d = spec_discover(files@, spec_patterns_bytes(ignore@), warn_invalid);
            match d {
                Ok(es) => r is Ok && r->Ok_0@.map_values(|e: GmaFileEntry| e@) == es,
                Err(e) => r is Err && r->Err_0 == e,
            }
        }),
{
    let ghost ig = spec_patterns_bytes(ignore@);
    let mut entries: Vec<GmaFileEntry> = Vec::new();
    let mut offset: u64 = 0;
    let mut k: usize = 0;
    let n = files.len();
    while k < n
        invariant
            k <= n,
            n == files@.len(),
            ig == spec_patterns_bytes(ignore@),
            spec_discover(files@, ig, warn_invalid) == (match spec_discover_from(
                files@,
                ig,
                warn_invalid,
                k as int,
                offset as int,
            ) {
                Ok(tail) => Ok::<Seq<GmaFileEntryV>, GmaError>(
                    entries@.map_values(|e: GmaFileEntry| e@) + tail,
                ),
                Err(e) => Err::<Seq<GmaFileEntryV>, GmaError>(e),
            }),
        decreases n - k,
    {
        let f = &files[k];
        proof {
            lemma_str_bytes(f.relative_path@);
            lemma_str_bytes("addon.json"@);
        }
        let is_addon_json = crate::util::bytes_eq(
            f.relative_path.as_str().as_bytes(),
            "addon.json".as_bytes(),
        );
        if is_addon_json || crate::whitelist::is_ignored(f.relative_path.as_str(), ignore) {
            // addon.json is metadata, and ignored files stay out quietly
        } else if !crate::whitelist::check(f.relative_path.as_str()) {
            if !warn_invalid {
                return Err(
                    GmaError::EntryNotWhitelisted { relative_path: f.relative_path.clone() },
                );
            }
            // dropped with a warning by the caller
        } else if f.size > u64::MAX - offset {
            return Err(GmaError::EntryTooLarge { relative_path: f.relative_path.clone() });
        } else {
            let ghost before = entries@.map_values(|e: GmaFileEntry| e@);
            entries.push(
                GmaFileEntry {
                    file_index: k,
                    relative_path: f.relative_path.clone(),
                    size: f.size,
                    offset,
                },
            );
            proof {
                let added = GmaFileEntryV {
                    file_index: k as int,
                    relative_path: f.relative_path@,
                    size: f.size,
                    offset: offset,
                };
                assert(entries@.map_values(|e: GmaFileEntry| e@) =~= before.push(added));
                assert forall|tail: Seq<GmaFileEntryV>| true implies (before + (seq![added]
                    + tail)) =~= (before.push(added) + tail) by {}
            }
            offset = offset + f.size;
        }
        k += 1;
    }
    proof {
        assert(entries@.map_values(|e: GmaFileEntry| e@) + Seq::<GmaFileEntryV>::empty()
            =~= entries@.map_values(|e: GmaFileEntry| e@));
    }
    Ok(entries)
}

/// The index records the writer derives from the accepted entries: each
/// one's path bytes and size.
pub open spec fn spec_index_entries(es: Seq<GmaFileEntryV>) -> Seq<IndexEntryV> {
    es.map_values(|e: GmaFileEntryV| IndexEntryV { path: str_bytes(e.relative_path), size: e.size })
}

/// Writes the header and the entry index: everything before the payload
/// region. Fails on an entry too large for the signed size field.
pub fn write_gma_head(title: &str, json: &str, timestamp: u64, entries: &Vec<GmaFileEntry>) -> (r:
    Result<ByteWriter, GmaError>)
    requires
        entries@.len() <= u32::MAX,
    ensures
        (r is Ok) == (forall|i: int|
            0 <= i < entries@.len() ==> (#[trigger] entries@[i]).size <= i64::MAX),
        r is Ok ==> r->Ok_0@ == spec_header_bytes(str_bytes(title@), str_bytes(json@), timestamp)
            + spec_index_bytes(spec_index_entries(entries@.map_values(|e: GmaFileEntry| e@))),
        r is Err ==> exists|i: int|
            0 <= i < entries@.len() && (#[trigger] entries@[i]).size > i64::MAX && (forall|
                j: int,
            | 0 <= j < i ==> entries@[j].size <= i64::MAX) && r->Err_0 == (
            GmaError::EntryTooLarge { relative_path: entries@[i].relative_path }),
{
    let ghost ies = spec_index_entries(entries@.map_values(|e: GmaFileEntry| e@));
    let ghost head = spec_header_bytes(str_bytes(title@), str_bytes(json@), timestamp);
    let mut w = ByteWriter::new();
    w.write_u8(71);
    w.write_u8(77);
    w.write_u8(65);
    w.write_u8(68);
    w.write_u8(crate::GMA_VERSION);
    w.write_u64_le(0);
    w.write_u64_le(timestamp);
    w.write_u8(0);
    proof {
        lemma_str_bytes(title@);
        lemma_str_bytes(json@);
    }
    w.write_nul_str(title.as_bytes());
    w.write_nul_str(json.as_bytes());
    w.write_u8(0);
    w.write_u8(1);
    w.write_u8(0);
    w.write_u8(0);
    w.write_u8(0);
    proof {
        assert(w@ =~= head);
    }
    let n = entries.len();
    let mut k: usize = 0;
    while k < n
        invariant
            k <= n,
            n == entries@.len(),
            n <= u32::MAX,
            ies == spec_index_entries(entries@.map_values(|e: GmaFileEntry| e@)),
            head == spec_header_bytes(str_bytes(title@), str_bytes(json@), timestamp),
            w@ == head + spec_index_records_upto(ies, k as int),
            forall|i: int| 0 <= i < k ==> (#[trigger] entries@[i]).size <= i64::MAX,
        decreases n - k,
    {
        let e = &entries[k];
        if e.size > i64::MAX as u64 {
            return Err(GmaError::EntryTooLarge { relative_path: e.relative_path.clone() });
        }
        w.write_u32_le((k as u32) + 1);
        proof {
            lemma_str_bytes(e.relative_path@);
        }
        w.write_nul_str(e.relative_path.as_str().as_bytes());
        w.write_i64_le(e.size as i64);
        w.write_u32_le(0);
        proof {
            assert(ies[k as int] == (IndexEntryV {
                path: str_bytes(e.relative_path@),
                size: e.size,
            }));
            assert(w@ =~= head + spec_index_records_upto(ies, k + 1));
        }
        k += 1;
    }
    w.write_u32_le(0);
    proof {
        lemma_index_split(ies, n as int);
        assert(spec_index_bytes_from(ies, n as int) == spec_u32_to_le_bytes(0u32));
        assert(w@ =~= head + spec_index_bytes(ies));
    }
    Ok(w)
}

/// The payloads of the accepted entries, in index order, taken from the
/// per-file payload list.
pub open spec fn spec_payloads_of(es: Seq<GmaFileEntryV>, payloads: Seq<Vec<u8>>) -> Seq<
    Seq<u8>,
> {
    es.map_values(|e: GmaFileEntryV| payloads[e.file_index]@)
}

/// What creation produces for the given inputs, stated over the
/// discovery spec and the container spec.
pub open spec fn create_post(
    r: Result<Vec<u8>, GmaError>,
    title: Seq<char>,
    json: Seq<char>,
    ignore: Seq<Seq<u8>>,
    warn_invalid: bool,
    files: Seq<FileMeta>,
    payloads: Seq<Vec<u8>>,
    timestamp: u64,
) -> bool {
    match spec_discover(files, ignore, warn_invalid) {
        Err(e) => r is Err && r->Err_0 == e,
        Ok(es) => if forall|i: int| 0 <= i < es.len() ==> (#[trigger] es[i]).size <= i64::MAX {
            r is Ok && r->Ok_0@ == spec_gma_bytes(
                str_bytes(title),
                str_bytes(json),
                timestamp,
                spec_index_entries(es),
                spec_payloads_of(es, payloads),
            )
        } else {
            r is Err && r->Err_0 is EntryTooLarge
        },
    }
}

/// Creates a GMA archive in memory, sequentially: discovery, header,
/// index, then each accepted payload in order. `payloads` holds the
/// contents of each listed file, aligned with `files`; the timestamp is
/// the creation time in Unix seconds, zero if the clock failed.
pub fn create_gma(
    conf: &CreateGmaConfig,
    meta: &AddonMetadata,
    files: &Vec<FileMeta>,
    payloads: &Vec<Vec<u8>>,
    timestamp: u64,
) -> (r: Result<Vec<u8>, GmaError>)
    requires
        files@.len() <= u32::MAX,
        payloads@.len() == files@.len(),
        forall|i: int|
            0 <= i < files@.len() ==> (#[trigger] payloads@[i])@.len() == files@[i].size,
    ensures
        create_post(
            r,
            meta.title@,
            meta.json@,
            spec_patterns_bytes(meta.ignore@),
            conf.warn_invalid,
            files@,
            payloads@,
            timestamp,
        ),
{
    let ghost ig = spec_patterns_bytes(meta.ignore@);
    let entries = match discover_entries(files, meta.ignore.as_slice(), conf.warn_invalid) {
        Ok(entries) => entries,
        Err(e) => {
            return Err(e);
        },
    };
    let ghost es = spec_discover(files@, ig, conf.warn_invalid)->Ok_0;
    proof {
        assert(entries@.map_values(|e: GmaFileEntry| e@) == es);
        assert(entries@.len() == es.len());
        lemma_discover_shape(files@, ig, conf.warn_invalid, 0, 0);
        lemma_discover_len(files@, ig, conf.warn_invalid, 0, 0);
    }
    let mut w = match write_gma_head(
        meta.title.as_str(),
        meta.json.as_str(),
        timestamp,
        &entries,
    ) {
        Ok(w) => w,
        Err(e) => {
            proof {
                let i = choose|i: int|
                    0 <= i < entries@.len() && (#[trigger] entries@[i]).size > i64::MAX && (
                    forall|j: int| 0 <= j < i ==> entries@[j].size <= i64::MAX) && e == (
                    GmaError::EntryTooLarge { relative_path: entries@[i].relative_path });
                assert(es[i].size > i64::MAX);
            }
            return Err(e);
        },
    };
    let ghost head_and_index = w@;
    let ghost ps = spec_payloads_of(es, payloads@);
    proof {
        assert forall|i: int| 0 <= i < entries@.len() implies (#[trigger] entries@[i]).size
            <= i64::MAX by {
            assert(es[i].size <= i64::MAX);
        }
    }
    let n = entries.len();
    let mut k: usize = 0;
    while k < n
        invariant
            k <= n,
            n == entries@.len(),
            n == es.len(),
            entries@.map_values(|e: GmaFileEntry| e@) == es,
            payloads@.len() == files@.len(),
            ps == spec_payloads_of(es, payloads@),
            forall|i: int| 0 <= i < es.len() ==> 0 <= #[trigger] es[i].file_index < files@.len(),
            w@ == head_and_index + spec_concat_upto(ps, k as int),
        decreases n - k,
    {
        proof {
            assert(es[k as int] == entries@[k as int]@);
            assert(es[k as int].file_index < files@.len());
        }
        w.write_all(payloads[entries[k].file_index].as_slice());
        proof {
            assert(ps[k as int] == payloads@[es[k as int].file_index]@);
            assert(w@ =~= head_and_index + spec_concat_upto(ps, k + 1));
        }
        k += 1;
    }
    proof {
        lemma_concat_split(ps, n as int);
        assert(ps.skip(n as int) =~= Seq::<Seq<u8>>::empty());
        assert(spec_concat(ps.skip(n as int)) == Seq::<u8>::empty());
        assert(spec_concat_upto(ps, n as int) + Seq::<u8>::empty() =~= spec_concat_upto(
            ps,
            n as int,
        ));
        assert(w@ =~= spec_gma_bytes(
            str_bytes(meta.title@),
            str_bytes(meta.json@),
            timestamp,
            spec_index_entries(es),
            ps,
        ));
    }
    Ok(w.into_vec())
}

/// The payload prefix lengths agree with the precomputed entry offsets:
/// what stands before entry `j` is exactly `j`'s offset.
proof fn lemma_payload_upto_len(es: Seq<GmaFileEntryV>, ps: Seq<Seq<u8>>, j: int)
    requires
        ps.len() == es.len(),
        forall|i: int| 0 <= i < es.len() ==> (#[trigger] ps[i]).len() == es[i].size,
        es.len() > 0 ==> es[0].offset == 0,
        forall|i: int|
            0 < i < es.len() ==> (#[trigger] es[i]).offset == es[i - 1].offset + es[i - 1].size,
        0 <= j <= es.len(),
    ensures
        spec_concat_upto(ps, j).len() == (if j == 0 {
            0int
        } else {
            es[j - 1].offset + es[j - 1].size
        }),
        j < es.len() ==> spec_concat_upto(ps, j).len() == es[j].offset,
    decreases j,
{
    if j > 0 {
        lemma_payload_upto_len(es, ps, j - 1);
    }
}

/// Creates a GMA archive through the seekable engine: the header and
/// index first, then each accepted payload written at its precomputed
/// offset, chunked through the shared memory budget when the entry fits
/// it and streamed whole when it does not. The bytes are exactly those
/// of [`create_gma`]: positioned writes make the processing order
/// invisible in the result.
#[verifier::loop_isolation(false)]
#[verifier::rlimit(60)]
pub fn seekable_create_gma(
    conf: &CreateGmaConfig,
    meta: &AddonMetadata,
    files: &Vec<FileMeta>,
    payloads: &Vec<Vec<u8>>,
    timestamp: u64,
) -> (r: Result<Vec<u8>, GmaError>)
    requires
        conf.wf(),
        files@.len() <= u32::MAX,
        payloads@.len() == files@.len(),
        forall|i: int|
            0 <= i < files@.len() ==> (#[trigger] payloads@[i])@.len() == files@[i].size,
    ensures
        create_post(
            r,
            meta.title@,
            meta.json@,
            spec_patterns_bytes(meta.ignore@),
            conf.warn_invalid,
            files@,
            payloads@,
            timestamp,
        ),
{
    if conf.max_io_threads == 1 {
        return create_gma(conf, meta, files, payloads, timestamp);
    }
    let ghost ig = spec_patterns_bytes(meta.ignore@);
    let entries = match discover_entries(files, meta.ignore.as_slice(), conf.warn_invalid) {
        Ok(entries) => entries,
        Err(e) => {
            return Err(e);
        },
    };
    let ghost es = spec_discover(files@, ig, conf.warn_invalid)->Ok_0;
    proof {
        assert(entries@.map_values(|e: GmaFileEntry| e@) == es);
        lemma_discover_shape(files@, ig, conf.warn_invalid, 0, 0);
        lemma_discover_len(files@, ig, conf.warn_invalid, 0, 0);
    }
    let w = match write_gma_head(meta.title.as_str(), meta.json.as_str(), timestamp, &entries) {
        Ok(w) => w,
        Err(e) => {
            proof {
                let i = choose|i: int|
                    0 <= i < entries@.len() && (#[trigger] entries@[i]).size > i64::MAX && (
                    forall|j: int| 0 <= j < i ==> entries@[j].size <= i64::MAX) && e == (
                    GmaError::EntryTooLarge { relative_path: entries@[i].relative_path });
                assert(es[i].size > i64::MAX);
            }
            return Err(e);
        },
    };
    proof {
        assert forall|i: int| 0 <= i < entries@.len() implies (#[trigger] entries@[i]).size
            <= i64::MAX by {
            assert(es[i].size <= i64::MAX);
        }
    }
    let head_vec = w.into_vec();
    let base = head_vec.len();
    let ghost head_bytes = head_vec@;
    let ghost ps = spec_payloads_of(es, payloads@);
    proof {
        assert forall|i: int| 0 <= i < es.len() implies (#[trigger] ps[i]).len() == es[
            i
        ].size by {
            assert(ps[i] == payloads@[es[i].file_index]@);
            assert(es[i].size == files@[es[i].file_index].size);
        }
        assert forall|i: int|
            0 < i < es.len() implies (#[trigger] es[i]).offset == es[i - 1].offset + es[i
            - 1].size by {}
    }
    let mut out = crate::engine::SeekWriter::from_vec(head_vec);
    let mut budget = crate::engine::MemoryBudget::new(conf.max_io_memory_usage);
    let n = entries.len();
    let mut j: usize = 0;
    while j < n
        invariant
            j <= n,
            budget.inv(),
            budget.spec_used() == 0,
            budget.spec_cap() == conf.max_io_memory_usage,
            out@ == head_bytes + spec_concat_upto(ps, j as int),
        decreases n - j,
    {
        let e = &entries[j];
        let idx = e.file_index;
        let size = e.size;
        proof {
            assert(es[j as int] == entries@[j as int]@);
            assert(0 <= es[j as int].file_index < files@.len());
            lemma_payload_upto_len(es, ps, j as int);
            assert(ps[j as int] == payloads@[idx as int]@);
            assert(payloads@[idx as int]@.len() == size);
        }
        if size > conf.max_io_memory_usage as u64 {
            // larger than the whole budget: streamed at its offset in
            // one unbuffered copy
            let pos = out.len();
            proof {
                assert(pos as int == base + es[j as int].offset);
            }
            out.write_at(pos, payloads[idx].as_slice());
            proof {
                assert(out@ =~= head_bytes + spec_concat_upto(ps, j as int) + ps[j as int]);
                assert(head_bytes + spec_concat_upto(ps, j as int) + ps[j as int]
                    =~= head_bytes + spec_concat_upto(ps, j + 1));
            }
        } else {
            // within the budget: read and committed chunk by chunk
            let mut cur: u64 = 0;
            while cur < size
                invariant
                    cur <= size,
                    budget.inv(),
                    budget.spec_used() == 0,
                    budget.spec_cap() == conf.max_io_memory_usage,
                    size <= conf.max_io_memory_usage as u64,
                    out@ == head_bytes + spec_concat_upto(ps, j as int) + ps[
                        j as int
                    ].subrange(0, cur as int),
                decreases size - cur,
            {
                let granted = budget.take_chunk(size, size - cur);
                let pos = out.len();
                proof {
                    assert(pos as int == base + es[j as int].offset + cur);
                }
                let chunk = vstd::slice::slice_subrange(
                    payloads[idx].as_slice(),
                    cur as usize,
                    cur as usize + granted,
                );
                out.write_at(pos, chunk);
                budget.release(granted);
                proof {
                    assert(out@ =~= head_bytes + spec_concat_upto(ps, j as int) + ps[
                        j as int
                    ].subrange(0, cur + granted));
                }
                cur = cur + granted as u64;
            }
            proof {
                assert(ps[j as int].subrange(0, size as int) =~= ps[j as int]);
                assert(head_bytes + spec_concat_upto(ps, j as int) + ps[j as int]
                    =~= head_bytes + spec_concat_upto(ps, j + 1));
            }
        }
        j += 1;
    }
    proof {
        lemma_concat_split(ps, n as int);
        assert(ps.skip(n as int) =~= Seq::<Seq<u8>>::empty());
        assert(spec_concat_upto(ps, n as int) + Seq::<u8>::empty() =~= spec_concat_upto(
            ps,
            n as int,
        ));
        assert(out@ =~= spec_gma_bytes(
            str_bytes(meta.title@),
            str_bytes(meta.json@),
            timestamp,
            spec_index_entries(es),
            ps,
        ));
    }
    Ok(out.into_vec())
}

/// The seekable creation entry point of the stream interface: picks the
/// engine when more than one I/O thread is allowed, and the sequential
/// writer otherwise. Either way the bytes are those of [`create_gma`].
pub fn seekable_create_gma_with_done_callback(
    conf: &CreateGmaConfig,
    meta: &AddonMetadata,
    files: &Vec<FileMeta>,
    payloads: &Vec<Vec<u8>>,
    timestamp: u64,
) -> (r: Result<Vec<u8>, GmaError>)
    requires
        conf.wf(),
        files@.len() <= u32::MAX,
        payloads@.len() == files@.len(),
        forall|i: int|
            0 <= i < files@.len() ==> (#[trigger] payloads@[i])@.len() == files@[i].size,
    ensures
        create_post(
            r,
            meta.title@,
            meta.json@,
            spec_patterns_bytes(meta.ignore@),
            conf.warn_invalid,
            files@,
            payloads@,
            timestamp,
        ),
{
    seekable_create_gma(conf, meta, files, payloads, timestamp)
}

/// The creation entry point of the stream interface: the archive bytes
/// are produced sequentially, so any sink can receive them. Completion
/// signalling of the surrounding process is the caller's concern.
pub fn create_gma_with_done_callback(
    conf: &CreateGmaConfig,
    meta: &AddonMetadata,
    files: &Vec<FileMeta>,
    payloads: &Vec<Vec<u8>>,
    timestamp: u64,
) -> (r: Result<Vec<u8>, GmaError>)
    requires
        files@.len() <= u32::MAX,
        payloads@.len() == files@.len(),
        forall|i: int|
            0 <= i < files@.len() ==> (#[trigger] payloads@[i])@.len() == files@[i].size,
    ensures
        create_post(
            r,
            meta.title@,
            meta.json@,
            spec_patterns_bytes(meta.ignore@),
            conf.warn_invalid,
            files@,
            payloads@,
            timestamp,
        ),
{
    create_gma(conf, meta, files, payloads, timestamp)
}

} // verus!
