//! Reading archives: the container parser, entry path safety, and the
//! slicing of the payload region into per-entry contents.
//!
//! The caller hands the archive in as bytes and takes plain values back:
//! the header strings, and for each entry a target path (or nothing, for
//! an entry that must be skipped) and its payload bytes. Writing files
//! and creating directories is the caller's work.

use crate::codec::{
    spec_parse_entries, spec_parse_gma, spec_parse_header, spec_parse_required, RawEntryV,
};
use crate::conf::ExtractGmaConfig;
use crate::error::GmaError;
use crate::util::ByteReader;
use vstd::math::min;
use vstd::prelude::*;

verus! {

/// One index record as decoded from the wire.
pub struct RawEntry {
    /// The 1-based file number as stored.
    pub num: u32,
    /// The raw path bytes.
    pub path: Vec<u8>,
    /// The declared size, still signed.
    pub size: i64,
}

impl View for RawEntry {
    type V = RawEntryV;

    open spec fn view(&self) -> RawEntryV {
        RawEntryV { num: self.num, path: self.path@, size: self.size }
    }
}

/// The parsed container: header values, the decoded index, and where
/// the payload region starts in the input.
pub struct GmaParsed {
    /// The version byte (any value is accepted; the writer emits 3).
    pub version: u8,
    /// The addon title bytes.
    pub title: Vec<u8>,
    /// The addon description bytes: the verbatim `addon.json` of the
    /// creator.
    pub description: Vec<u8>,
    /// The decoded index records.
    pub entries: Vec<RawEntry>,
    /// Offset of the payload region in the input.
    pub payload_start: usize,
}

/// Parses the header and index of a container held in memory.
///
/// Succeeds exactly when the byte-level grammar accepts the input; the
/// magic error comes exactly when the first four bytes are wrong or
/// missing, and every other failure is a premature end of input.
#[verifier::loop_isolation(false)]
pub fn parse_gma(data: &[u8]) -> (r: Result<GmaParsed, GmaError>)
    ensures
        (r is Ok) == (spec_parse_gma(data@) is Some),
        r is Ok ==> ({
            let p = spec_parse_gma(data@)->Some_0;
            let g = r->Ok_0;
            &&& g.version == p.version
            &&& g.title@ == p.title
            &&& g.description@ == p.description
            &&& g.entries@.map_values(|e: RawEntry| e@) == p.entries
            &&& g.payload_start <= data@.len()
            &&& data@.skip(g.payload_start as int) == p.payload
        }),
        (r matches Err(e) && e is InvalidMagic) == (data@.len() < 4 || data@.subrange(0, 4)
            != crate::spec_gma_magic()),
        r is Err ==> (r->Err_0 is InvalidMagic || r->Err_0 is UnexpectedEof),
{
    let mut rd = ByteReader::new(data);
    let magic = match rd.read_exact_vec(4, "reading GMA magic bytes") {
        Ok(m) => m,
        Err(_) => {
            return Err(GmaError::InvalidMagic);
        },
    };
    if !(magic[0] == 71 && magic[1] == 77 && magic[2] == 65 && magic[3] == 68) {
        proof {
            assert(data@.subrange(0, 4) != crate::spec_gma_magic());
        }
        return Err(GmaError::InvalidMagic);
    }
    proof {
        assert(data@.subrange(0, 4) =~= crate::spec_gma_magic());
    }
    let version = match rd.read_u8("reading version byte") {
        Ok(v) => v,
        Err(e) => {
            return Err(e);
        },
    };
    // SteamID and timestamp, both unused
    match rd.read_exact_vec(8, "reading SteamID") {
        Ok(_) => (),
        Err(e) => {
            return Err(e);
        },
    }
    match rd.read_exact_vec(8, "reading timestamp") {
        Ok(_) => (),
        Err(e) => {
            return Err(e);
        },
    }
    proof {
        assert(data@.len() >= 21);
        assert(rd@ =~= data@.skip(21));
        assert(version == data@[4]);
    }
    if version > 1 {
        // required content: read strings until the empty one
        let ghost entry_view = rd@;
        loop
            invariant
                rd.wf(),
                rd.data@ == data@,
                spec_parse_required(entry_view) == spec_parse_required(rd@),
            decreases rd@.len(),
        {
            let ghost prev = rd@;
            let s = match rd.read_nul_str("reading required content") {
                Ok(s) => s,
                Err(e) => {
                    proof {
                        assert(spec_parse_required(rd@) is None);
                        assert(spec_parse_header(data@) is None);
                    }
                    return Err(e);
                },
            };
            if s.len() == 0 {
                break ;
            }
            proof {
                crate::util::lemma_find_nul_bounds(prev, 0);
            }
        }
        proof {
            assert(spec_parse_required(entry_view) == Some(rd@));
        }
    }
    let title = match rd.read_nul_str("reading addon name") {
        Ok(t) => t,
        Err(e) => {
            proof {
                assert(spec_parse_header(data@) is None);
            }
            return Err(e);
        },
    };
    let description = match rd.read_nul_str("reading addon description") {
        Ok(d) => d,
        Err(e) => {
            proof {
                assert(spec_parse_header(data@) is None);
            }
            return Err(e);
        },
    };
    match rd.skip_nul_str("reading addon author") {
        Ok(()) => (),
        Err(e) => {
            proof {
                assert(spec_parse_header(data@) is None);
            }
            return Err(e);
        },
    }
    match rd.read_exact_vec(4, "reading addon version") {
        Ok(_) => (),
        Err(e) => {
            proof {
                assert(rd@.len() < 4);
                assert(spec_parse_header(data@) is None);
            }
            return Err(e);
        },
    }
    proof {
        assert(spec_parse_header(data@) == Some((version, title@, description@, rd@)));
    }
    // the entry index
    let ghost index_start = rd@;
    let mut entries: Vec<RawEntry> = Vec::new();
    loop
        invariant
            rd.wf(),
            rd.data@ == data@,
            spec_parse_entries(index_start) == (match spec_parse_entries(rd@) {
                Some(t) => Some::<(Seq<RawEntryV>, Seq<u8>)>(
                    (entries@.map_values(|e: RawEntry| e@) + t.0, t.1),
                ),
                None => None::<(Seq<RawEntryV>, Seq<u8>)>,
            }),
        decreases rd@.len(),
    {
        let ghost at_record = rd@;
        let num = match rd.read_u32_le("reading entry index") {
            Ok(n) => n,
            Err(e) => {
                proof {
                    assert(spec_parse_entries(rd@) is None);
                    assert(spec_parse_entries(index_start) is None);
                }
                return Err(e);
            },
        };
        if num == 0 {
            proof {
                assert(entries@.map_values(|e: RawEntry| e@) + Seq::<RawEntryV>::empty()
                    =~= entries@.map_values(|e: RawEntry| e@));
            }
            break ;
        }
        let path = match rd.read_nul_str("reading entry path") {
            Ok(p) => p,
            Err(e) => {
                proof {
                    assert(rd@ == at_record.skip(4));
                    assert(spec_parse_entries(at_record) is None);
                }
                return Err(e);
            },
        };
        let size = match rd.read_i64_le("reading entry size") {
            Ok(s) => s,
            Err(e) => {
                proof {
                    crate::util::lemma_find_nul_bounds(at_record.skip(4), 0);
                    assert(spec_parse_entries(at_record) is None);
                }
                return Err(e);
            },
        };
        match rd.read_u32_le("reading entry CRC") {
            Ok(_) => (),
            Err(e) => {
                proof {
                    crate::util::lemma_find_nul_bounds(at_record.skip(4), 0);
                    assert(spec_parse_entries(at_record) is None);
                }
                return Err(e);
            },
        }
        let ghost before = entries@.map_values(|e: RawEntry| e@);
        entries.push(RawEntry { num, path, size });
        proof {
            crate::util::lemma_find_nul_bounds(at_record.skip(4), 0);
            let added = entries@[entries@.len() - 1]@;
            assert(entries@.map_values(|e: RawEntry| e@) =~= before.push(added));
            assert forall|t0: Seq<RawEntryV>| true implies (before + (seq![added] + t0))
                =~= (before.push(added) + t0) by {}
        }
    }
    let payload_start = rd.pos;
    proof {
        assert(rd@ == data@.skip(payload_start as int));
        assert(spec_parse_gma(data@) is Some);
        let p = spec_parse_gma(data@)->Some_0;
        assert(p.entries == entries@.map_values(|e: RawEntry| e@));
        assert(p.payload == rd@);
    }
    Ok(GmaParsed { version, title, description, entries, payload_start })
}

/// A path with a parent-directory component: `..` standing alone
/// between separators (or the ends of the path).
pub open spec fn spec_has_parent_component(p: Seq<u8>) -> bool {
    exists|i: int|
        #![trigger p[i], p[i + 1]]
        0 <= i && i + 2 <= p.len() && p[i] == 46 && p[i + 1] == 46 && (i == 0 || p[i - 1]
            == 47) && (i + 2 == p.len() || p[i + 2] == 47)
}

/// A path that would land outside the output directory: absolute, or
/// containing a parent-directory component.
pub open spec fn spec_path_escapes(p: Seq<u8>) -> bool {
    (p.len() > 0 && p[0] == 47) || spec_has_parent_component(p)
}

/// Scans a path for a parent-directory component.
fn has_parent_component(p: &[u8]) -> (r: bool)
    ensures
        r == spec_has_parent_component(p@),
{
    let n = p.len();
    let mut i: usize = 0;
    while i < n
        invariant
            i <= n,
            n == p@.len(),
            forall|j: int|
                #![trigger p@[j], p@[j + 1]]
                0 <= j < i ==> !(j + 2 <= p@.len() && p@[j] == 46 && p@[j + 1] == 46 && (j == 0
                    || p@[j - 1] == 47) && (j + 2 == p@.len() || p@[j + 2] == 47)),
        decreases n - i,
    {
        if i + 1 < n && p[i] == 46 && p[i + 1] == 46 && (i == 0 || p[i - 1] == 47) && (i + 2
            == n || p[i + 2] == 47) {
            return true;
        }
        i += 1;
    }
    false
}

/// One entry prepared for extraction: the relative target path, or
/// nothing when the entry must be skipped, and the size to consume.
pub struct GmaEntry {
    /// Where the payload goes, relative to the output directory; `None`
    /// for an entry that is skipped with a warning.
    pub path: Option<Vec<u8>>,
    /// The declared payload size.
    pub size: u64,
}

impl GmaEntry {
    /// Decides what to do with a decoded index record: a negative size
    /// is a format error; a size beyond the platform's pointer width or
    /// a path that would escape the output directory leaves the entry
    /// skipped (its bytes are still consumed); anything else is
    /// extracted as is.
    pub fn new(path: Vec<u8>, size: i64) -> (r: Result<GmaEntry, GmaError>)
        ensures
            (r is Ok) == (size >= 0),
            size < 0 ==> r->Err_0 == (GmaError::NegativeEntrySize { size }),
            size >= 0 ==> ({
                let g = r->Ok_0;
                &&& g.size == size as u64
                &&& ((size as u64 > usize::MAX as u64 || spec_path_escapes(path@)) ==> g.path
                    is None)
                &&& (!(size as u64 > usize::MAX as u64 || spec_path_escapes(path@))
                    ==> (g.path matches Some(q) && q@ == path@))
            }),
    {
        if size < 0 {
            return Err(GmaError::NegativeEntrySize { size });
        }
        let size_u = size as u64;
        if size_u > usize::MAX as u64 {
            return Ok(GmaEntry { path: None, size: size_u });
        }
        let escapes = if starts_with_separator(&path) {
            true
        } else {
            has_parent_component(path.as_slice())
        };
        if escapes {
            Ok(GmaEntry { path: None, size: size_u })
        } else {
            Ok(GmaEntry { path: Some(path), size: size_u })
        }
    }
}

/// Whether the path starts with a separator, making it absolute.
fn starts_with_separator(p: &Vec<u8>) -> (r: bool)
    ensures
        r == (p@.len() > 0 && p@[0] == 47),
{
    p.len() > 0 && p[0] == 47
}

/// How the payload region splits into per-entry contents when it is
/// consumed strictly in order: each entry takes its declared size, or
/// whatever remains if the region ends early.
pub open spec fn spec_payload_slices(payload: Seq<u8>, sizes: Seq<u64>) -> Seq<Seq<u8>>
    decreases sizes.len(),
{
    if sizes.len() == 0 {
        Seq::empty()
    } else {
        let take = min(sizes[0] as int, payload.len() as int);
        seq![payload.subrange(0, take)] + spec_payload_slices(
            payload.skip(take),
            sizes.drop_first(),
        )
    }
}

/// Where an entry's payload goes, given a non-negative declared size:
/// nowhere when the size exceeds the platform or the path would escape
/// the output directory, else to the recorded relative path.
pub open spec fn spec_entry_target(path: Seq<u8>, size: i64) -> Option<Seq<u8>> {
    if size as u64 > usize::MAX as u64 || spec_path_escapes(path) {
        None
    } else {
        Some(path)
    }
}

/// One extracted entry: its target (or nothing, for a skipped entry),
/// the declared size, and the payload bytes consumed for it.
pub struct ExtractedEntry {
    /// Where the payload goes, relative to the output directory.
    pub path: Option<Vec<u8>>,
    /// The declared size.
    pub size: u64,
    /// The payload bytes: exactly `size` of them, or fewer if the
    /// region ends early.
    pub bytes: Vec<u8>,
}

/// A fully decoded archive.
pub struct GmaExtraction {
    /// The version byte as read.
    pub version: u8,
    /// The addon title bytes.
    pub title: Vec<u8>,
    /// The addon description bytes.
    pub description: Vec<u8>,
    /// The entries with their payloads, in index order.
    pub entries: Vec<ExtractedEntry>,
}

/// Decodes a whole archive held in memory: parses the header and index,
/// validates each entry, and slices the payload region strictly in
/// order. Succeeds exactly when the grammar accepts the input and no
/// entry declares a negative size.
#[verifier::loop_isolation(false)]
pub fn extract_gma(conf: &ExtractGmaConfig, data: &[u8]) -> (r: Result<GmaExtraction, GmaError>)
    ensures
        (r is Ok) == (spec_parse_gma(data@) is Some && (forall|i: int|
            0 <= i < spec_parse_gma(data@)->Some_0.entries.len()
                ==> (#[trigger] spec_parse_gma(data@)->Some_0.entries[i]).size >= 0)),
        r is Ok ==> ({
            let p = spec_parse_gma(data@)->Some_0;
            let sizes = p.entries.map_values(|e: RawEntryV| e.size as u64);
            let slices = spec_payload_slices(p.payload, sizes);
            let x = r->Ok_0;
            &&& x.version == p.version
            &&& x.title@ == p.title
            &&& x.description@ == p.description
            &&& x.entries@.len() == p.entries.len()
            &&& forall|i: int|
                0 <= i < p.entries.len() ==> {
                    let xe = #[trigger] x.entries@[i];
                    &&& xe.size == p.entries[i].size as u64
                    &&& xe.bytes@ == slices[i]
                    &&& (spec_entry_target(p.entries[i].path, p.entries[i].size) is None
                        ==> xe.path is None)
                    &&& (spec_entry_target(p.entries[i].path, p.entries[i].size) matches Some(
                        q,
                    ) ==> (xe.path matches Some(v) && v@ == q))
                }
        }),
        (r matches Err(e) && e is InvalidMagic) == (data@.len() < 4 || data@.subrange(0, 4)
            != crate::spec_gma_magic()),
        r is Err ==> (r->Err_0 is InvalidMagic || r->Err_0 is UnexpectedEof || r->Err_0
            is NegativeEntrySize),
        (r matches Err(e) && e is NegativeEntrySize) ==> (spec_parse_gma(data@) is Some
            && exists|i: int|
            0 <= i < spec_parse_gma(data@)->Some_0.entries.len()
                && (#[trigger] spec_parse_gma(data@)->Some_0.entries[i]).size < 0),
{
    let parsed = match parse_gma(data) {
        Ok(p) => p,
        Err(e) => {
            return Err(e);
        },
    };
    let ghost p = spec_parse_gma(data@)->Some_0;
    let ghost sizes = p.entries.map_values(|e: RawEntryV| e.size as u64);
    let ghost slices = spec_payload_slices(p.payload, sizes);
    let mut rd = ByteReader { data, pos: parsed.payload_start };
    proof {
        assert(rd.wf());
        assert(rd@ == p.payload);
    }
    let mut out: Vec<ExtractedEntry> = Vec::new();
    proof {
        assert(sizes.skip(0) =~= sizes);
        assert(out@.map_values(|e: ExtractedEntry| e.bytes@) =~= Seq::<Seq<u8>>::empty());
        assert(Seq::<Seq<u8>>::empty() + spec_payload_slices(rd@, sizes) =~= spec_payload_slices(
            rd@,
            sizes,
        ));
    }
    let n = parsed.entries.len();
    let mut i: usize = 0;
    while i < n
        invariant
            i <= n,
            rd.wf(),
            rd.data@ == data@,
            out@.len() == i,
            forall|j: int| 0 <= j < i ==> (#[trigger] p.entries[j]).size >= 0,
            forall|j: int|
                0 <= j < i ==> {
                    let xe = #[trigger] out@[j];
                    &&& xe.size == p.entries[j].size as u64
                    &&& xe.bytes@ == slices[j]
                    &&& (spec_entry_target(p.entries[j].path, p.entries[j].size) is None
                        ==> xe.path is None)
                    &&& (spec_entry_target(p.entries[j].path, p.entries[j].size) matches Some(
                        q,
                    ) ==> (xe.path matches Some(v) && v@ == q))
                },
            spec_payload_slices(p.payload, sizes) == out@.map_values(
                |e: ExtractedEntry| e.bytes@,
            ) + spec_payload_slices(rd@, sizes.skip(i as int)),
        decreases n - i,
    {
        let ghost at_entry = rd@;
        let entry_path = crate::util::copy_bytes(&parsed.entries[i].path);
        let entry_size = parsed.entries[i].size;
        let ge = match GmaEntry::new(entry_path, entry_size) {
            Ok(g) => g,
            Err(e) => {
                proof {
                    assert(p.entries[i as int].size < 0);
                }
                return Err(e);
            },
        };
        let remaining = rd.remaining();
        let take: usize = if ge.size < remaining as u64 {
            ge.size as usize
        } else {
            remaining
        };
        proof {
            assert(sizes.skip(i as int)[0] == sizes[i as int]);
            assert(take as int == vstd::math::min(sizes[i as int] as int, rd@.len() as int));
        }
        let bytes = match rd.read_exact_vec(take, "reading GMA entry data") {
            Ok(b) => b,
            Err(e) => {
                proof {
                    assert(false);
                }
                return Err(e);
            },
        };
        let ghost before = out@.map_values(|e: ExtractedEntry| e.bytes@);
        out.push(ExtractedEntry { path: ge.path, size: ge.size, bytes });
        proof {
            assert(out@.map_values(|e: ExtractedEntry| e.bytes@) =~= before.push(
                at_entry.subrange(0, take as int),
            ));
            assert(sizes.skip(i as int).drop_first() =~= sizes.skip(i + 1));
            assert(spec_payload_slices(at_entry, sizes.skip(i as int)) == seq![
                at_entry.subrange(0, take as int),
            ] + spec_payload_slices(rd@, sizes.skip(i + 1)));
            assert(before + (seq![at_entry.subrange(0, take as int)] + spec_payload_slices(
                rd@,
                sizes.skip(i + 1),
            )) =~= before.push(at_entry.subrange(0, take as int)) + spec_payload_slices(
                rd@,
                sizes.skip(i + 1),
            ));
        }
        i += 1;
    }
    proof {
        assert forall|j: int| 0 <= j < slices.len() implies #[trigger] slices[j] == out@.map_values(
            |e: ExtractedEntry| e.bytes@,
        )[j] by {
            lemma_payload_slices_len(p.payload, sizes);
        }
        lemma_payload_slices_len(p.payload, sizes);
    }
    Ok(
        GmaExtraction {
            version: parsed.version,
            title: parsed.title,
            description: parsed.description,
            entries: out,
        },
    )
}

/// There is one payload slice per declared size.
pub proof fn lemma_payload_slices_len(payload: Seq<u8>, sizes: Seq<u64>)
    ensures
        spec_payload_slices(payload, sizes).len() == sizes.len(),
    decreases sizes.len(),
{
    if sizes.len() > 0 {
        let take = min(sizes[0] as int, payload.len() as int);
        lemma_payload_slices_len(payload.skip(take), sizes.drop_first());
    }
}

/// Slicing a concatenation by the very lengths of its parts gives the
/// parts back.
pub proof fn lemma_slices_of_concat(payloads: Seq<Seq<u8>>, sizes: Seq<u64>)
    requires
        sizes.len() == payloads.len(),
        forall|i: int| 0 <= i < payloads.len() ==> (#[trigger] payloads[i]).len() == sizes[i],
    ensures
        spec_payload_slices(crate::codec::spec_concat(payloads), sizes) == payloads,
    decreases payloads.len(),
{
    if payloads.len() > 0 {
        let whole = crate::codec::spec_concat(payloads);
        let head = payloads[0];
        let rest = crate::codec::spec_concat(payloads.drop_first());
        assert(whole == head + rest);
        let take = min(sizes[0] as int, whole.len() as int);
        assert(take == head.len());
        assert(whole.subrange(0, take) =~= head);
        assert(whole.skip(take) =~= rest);
        assert forall|i: int|
            0 <= i < payloads.drop_first().len() implies (#[trigger] payloads.drop_first()[
            i]).len() == sizes.drop_first()[i] by {
            assert(payloads[i + 1].len() == sizes[i + 1]);
        }
        lemma_slices_of_concat(payloads.drop_first(), sizes.drop_first());
        assert(spec_payload_slices(whole, sizes) =~= payloads);
    } else {
        assert(spec_payload_slices(crate::codec::spec_concat(payloads), sizes)
            =~= payloads);
    }
}

/// Round trip: an archive the writer produced, decoded again, gives
/// back the title, the description, every entry path and size with file
/// numbers counted `1..=N` in order, and every payload byte for byte;
/// and the payload region is exactly as long as the declared sizes say.
pub proof fn lemma_create_extract_round_trip(
    title: Seq<u8>,
    desc: Seq<u8>,
    timestamp: u64,
    entries: Seq<crate::codec::IndexEntryV>,
    payloads: Seq<Seq<u8>>,
)
    requires
        crate::codec::nul_free(title),
        crate::codec::nul_free(desc),
        entries.len() <= u32::MAX,
        forall|i: int|
            0 <= i < entries.len() ==> crate::codec::nul_free(
                (#[trigger] entries[i]).path,
            ) && entries[i].size <= i64::MAX,
        crate::codec::payloads_match(entries, payloads),
    ensures
        ({
            let file = crate::codec::spec_gma_bytes(title, desc, timestamp, entries, payloads);
            &&& spec_parse_gma(file) is Some
            &&& ({
                let p = spec_parse_gma(file)->Some_0;
                &&& p.version == crate::GMA_VERSION
                &&& p.title == title
                &&& p.description == desc
                &&& p.entries.len() == entries.len()
                &&& forall|i: int|
                    0 <= i < entries.len() ==> (#[trigger] p.entries[i]).num == i + 1
                        && p.entries[i].path == entries[i].path && p.entries[i].size == entries[
                        i
                    ].size
                &&& p.payload == crate::codec::spec_concat(payloads)
                &&& p.payload.len() == crate::codec::spec_size_sum(entries)
                &&& spec_payload_slices(
                    p.payload,
                    p.entries.map_values(|e: RawEntryV| e.size as u64),
                ) == payloads
            })
        }),
{
    crate::codec::lemma_parse_gma_of(title, desc, timestamp, entries, payloads);
    crate::codec::lemma_payload_region_len(entries, payloads);
    let p = spec_parse_gma(
        crate::codec::spec_gma_bytes(title, desc, timestamp, entries, payloads),
    )->Some_0;
    assert forall|i: int| 0 <= i < entries.len() implies (#[trigger] p.entries[i]).num == i + 1
        && p.entries[i].path == entries[i].path && p.entries[i].size == entries[i].size by {
        assert(p.entries[i] == crate::codec::spec_raws_from(entries, 0)[i]);
        assert((i + 1) as u32 == i + 1);
        assert(entries[i].size as i64 == entries[i].size);
    }
    let sizes = p.entries.map_values(|e: RawEntryV| e.size as u64);
    assert forall|i: int| 0 <= i < payloads.len() implies (#[trigger] payloads[i]).len()
        == sizes[i] by {
        assert(p.entries[i].size == entries[i].size);
        assert(payloads[i].len() == entries[i].size);
    }
    lemma_slices_of_concat(payloads, sizes);
}

/// The extraction entry point of the stream interface. Whether the
/// caller writes the files itself or hands buffers to writer threads is
/// its choice; the decoded contents are the same.
pub fn extract_gma_with_done_callback(conf: &ExtractGmaConfig, data: &[u8]) -> (r: Result<
    GmaExtraction,
    GmaError,
>)
    ensures
        (r is Ok) == (spec_parse_gma(data@) is Some && (forall|i: int|
            0 <= i < spec_parse_gma(data@)->Some_0.entries.len()
                ==> (#[trigger] spec_parse_gma(data@)->Some_0.entries[i]).size >= 0)),
        r is Ok ==> ({
            let p = spec_parse_gma(data@)->Some_0;
            let sizes = p.entries.map_values(|e: RawEntryV| e.size as u64);
            let slices = spec_payload_slices(p.payload, sizes);
            let x = r->Ok_0;
            &&& x.version == p.version
            &&& x.title@ == p.title
            &&& x.description@ == p.description
            &&& x.entries@.len() == p.entries.len()
            &&& forall|i: int|
                0 <= i < p.entries.len() ==> {
                    let xe = #[trigger] x.entries@[i];
                    &&& xe.size == p.entries[i].size as u64
                    &&& xe.bytes@ == slices[i]
                    &&& (spec_entry_target(p.entries[i].path, p.entries[i].size) is None
                        ==> xe.path is None)
                    &&& (spec_entry_target(p.entries[i].path, p.entries[i].size) matches Some(
                        q,
                    ) ==> (xe.path matches Some(v) && v@ == q))
                }
        }),
        (r matches Err(e) && e is InvalidMagic) == (data@.len() < 4 || data@.subrange(0, 4)
            != crate::spec_gma_magic()),
        r is Err ==> (r->Err_0 is InvalidMagic || r->Err_0 is UnexpectedEof || r->Err_0
            is NegativeEntrySize),
{
    extract_gma(conf, data)
}

} // verus!
