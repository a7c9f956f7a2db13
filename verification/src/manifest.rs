//! Manifest framing: the file list sent ahead of the raw file bodies.
//!
//! Layout, little-endian: three magic bytes, one version byte, a `u32` total
//! length that counts this 8-byte header, then one record per file in stream
//! order: the file length as `u64`, the path length as `u32`, and the path
//! bytes with every backslash replaced by a forward slash. Decoding walks the
//! records sequentially and must land exactly on the end of the body; paths
//! must be valid UTF-8.

use vstd::bytes::{
    lemma_auto_spec_u32_to_from_le_bytes, lemma_auto_spec_u64_to_from_le_bytes,
    spec_u32_from_le_bytes, spec_u32_to_le_bytes, spec_u64_from_le_bytes, spec_u64_to_le_bytes,
    u32_from_le_bytes, u32_to_le_bytes, u64_from_le_bytes, u64_to_le_bytes,
};
use vstd::prelude::*;
use vstd::slice::{slice_subrange, slice_to_vec};

use crate::utf8::{is_utf8, is_utf8_from, is_valid_utf8};
use crate::{TransferError, MAGIC0, MAGIC1, MAGIC2, VERSION};

verus! {

/// One file to transfer: its byte count and its relative path, as the raw
/// bytes that travel on the wire.
#[derive(Debug)]
pub struct FileEntry {
    pub size: u64,
    pub path: Vec<u8>,
}

/// Mathematical model of a manifest entry.
pub ghost struct EntryModel {
    pub size: u64,
    pub path: Seq<u8>,
}

impl View for FileEntry {
    type V = EntryModel;

    open spec fn view(&self) -> EntryModel {
        EntryModel { size: self.size, path: self.path@ }
    }
}

/// The models of a sequence of entries.
pub open spec fn views_of(es: Seq<FileEntry>) -> Seq<EntryModel> {
    es.map_values(|e: FileEntry| e@)
}

/// Path-byte normalization: backslash becomes forward slash.
pub open spec fn normal_byte(b: u8) -> u8 {
    if b == 0x5c {
        0x2f
    } else {
        b
    }
}

/// A path with every backslash replaced by a forward slash.
pub open spec fn spec_normalize(p: Seq<u8>) -> Seq<u8> {
    p.map_values(|b: u8| normal_byte(b))
}

/// An entry with its path normalized.
pub open spec fn spec_normalize_entry(e: EntryModel) -> EntryModel {
    EntryModel { size: e.size, path: spec_normalize(e.path) }
}

/// All entries with their paths normalized.
pub open spec fn spec_normalize_entries(es: Seq<EntryModel>) -> Seq<EntryModel> {
    es.map_values(|e: EntryModel| spec_normalize_entry(e))
}

/// The wire bytes of one record: file size, path length, normalized path.
pub open spec fn spec_record(e: EntryModel) -> Seq<u8> {
    spec_u64_to_le_bytes(e.size) + spec_u32_to_le_bytes(e.path.len() as u32) + spec_normalize(
        e.path,
    )
}

/// The byte count of one record.
pub open spec fn spec_record_len(e: EntryModel) -> int {
    12 + e.path.len() as int
}

/// The wire bytes of all records, in order.
pub open spec fn spec_records(es: Seq<EntryModel>) -> Seq<u8>
    decreases es.len(),
{
    if es.len() == 0 {
        Seq::empty()
    } else {
        spec_record(es[0]) + spec_records(es.skip(1))
    }
}

/// The byte count of all records.
pub open spec fn spec_records_len(es: Seq<EntryModel>) -> int
    decreases es.len(),
{
    if es.len() == 0 {
        0
    } else {
        spec_record_len(es[0]) + spec_records_len(es.skip(1))
    }
}

/// The byte count of the whole manifest, header included.
pub open spec fn spec_manifest_len(es: Seq<EntryModel>) -> int {
    8 + spec_records_len(es)
}

/// The whole manifest: magic, version, total length, records.
pub open spec fn spec_manifest(es: Seq<EntryModel>) -> Seq<u8> {
    seq![MAGIC0, MAGIC1, MAGIC2, VERSION] + spec_u32_to_le_bytes(spec_manifest_len(es) as u32)
        + spec_records(es)
}

/// The manifest header opens with the three magic bytes.
pub open spec fn spec_magic_ok(h: Seq<u8>) -> bool {
    h[0] == MAGIC0 && h[1] == MAGIC1 && h[2] == MAGIC2
}

/// What reading an 8-byte manifest header yields: the number of body bytes
/// that follow, or the distinct protocol errors.
pub open spec fn spec_header_result(h: Seq<u8>) -> Result<u32, TransferError> {
    if !spec_magic_ok(h) {
        Err(TransferError::BadMagic)
    } else if h[3] != VERSION {
        Err(TransferError::BadVersion)
    } else if spec_u32_from_le_bytes(h.subrange(4, 8)) < 8 {
        Err(TransferError::MalformedManifest)
    } else {
        Ok((spec_u32_from_le_bytes(h.subrange(4, 8)) - 8) as u32)
    }
}

/// Sequential record parse of `b` from index `i` on: `None` is any
/// malformation (a record past the end, or a path that is not UTF-8).
pub open spec fn spec_parse_from(b: Seq<u8>, i: int) -> Option<Seq<EntryModel>>
    decreases b.len() - i,
{
    if i == b.len() {
        Some(Seq::empty())
    } else if i < 0 || i + 12 > b.len() {
        None
    } else {
        let size = spec_u64_from_le_bytes(b.subrange(i, i + 8));
        let nlen = spec_u32_from_le_bytes(b.subrange(i + 8, i + 12)) as int;
        if i + 12 + nlen > b.len() {
            None
        } else if !is_utf8(b.subrange(i + 12, i + 12 + nlen)) {
            None
        } else {
            match spec_parse_from(b, i + 12 + nlen) {
                None => None,
                Some(rest) => Some(
                    seq![EntryModel { size, path: b.subrange(i + 12, i + 12 + nlen) }] + rest,
                ),
            }
        }
    }
}

/// What decoding a complete manifest buffer yields.
pub open spec fn spec_decode_manifest(b: Seq<u8>) -> Result<Seq<EntryModel>, TransferError> {
    if b.len() < 8 {
        Err(TransferError::MalformedManifest)
    } else {
        match spec_header_result(b.subrange(0, 8)) {
            Err(e) => Err(e),
            Ok(nbody) => if nbody != b.len() - 8 {
                Err(TransferError::MalformedManifest)
            } else {
                match spec_parse_from(b.subrange(8, b.len() as int), 0) {
                    None => Err(TransferError::MalformedManifest),
                    Some(es) => Ok(es),
                }
            },
        }
    }
}

/// Appending one entry appends its record length.
pub proof fn lemma_records_len_snoc(es: Seq<EntryModel>, e: EntryModel)
    ensures
        spec_records_len(es.push(e)) == spec_records_len(es) + spec_record_len(e),
    decreases es.len(),
{
    assert(es.push(e)[0] == if es.len() == 0 {
        e
    } else {
        es[0]
    });
    if es.len() == 0 {
        assert(es.push(e).skip(1) =~= Seq::<EntryModel>::empty());
        assert(spec_records_len(Seq::<EntryModel>::empty()) == 0);
        assert(spec_records_len(es) == 0);
    } else {
        assert(es.push(e).skip(1) =~= es.skip(1).push(e));
        lemma_records_len_snoc(es.skip(1), e);
    }
}

/// Appending one entry appends its record bytes.
pub proof fn lemma_records_snoc(es: Seq<EntryModel>, e: EntryModel)
    ensures
        spec_records(es.push(e)) == spec_records(es) + spec_record(e),
    decreases es.len(),
{
    assert(es.push(e)[0] == if es.len() == 0 {
        e
    } else {
        es[0]
    });
    if es.len() == 0 {
        assert(es.push(e).skip(1) =~= Seq::<EntryModel>::empty());
        assert(spec_records(Seq::<EntryModel>::empty()) == Seq::<u8>::empty());
        assert(spec_records(es) == Seq::<u8>::empty());
        assert(spec_records(es.push(e)) =~= spec_records(es) + spec_record(e));
    } else {
        assert(es.push(e).skip(1) =~= es.skip(1).push(e));
        lemma_records_snoc(es.skip(1), e);
        assert(spec_records(es.push(e)) =~= spec_records(es) + spec_record(e));
    }
}

/// Record bytes never have negative length.
pub proof fn lemma_records_len_nonneg(es: Seq<EntryModel>)
    ensures
        spec_records_len(es) >= 0,
    decreases es.len(),
{
    if es.len() > 0 {
        lemma_records_len_nonneg(es.skip(1));
    }
}

/// A prefix of the entries never outweighs the whole.
pub proof fn lemma_records_len_prefix(es: Seq<EntryModel>, j: int)
    requires
        0 <= j <= es.len(),
    ensures
        spec_records_len(es.take(j)) <= spec_records_len(es),
{
    lemma_records_len_drop(es, j);
    lemma_records_len_nonneg(es.skip(j));
}

/// Splitting off the first `j` entries splits the byte count.
pub proof fn lemma_records_len_drop(es: Seq<EntryModel>, j: int)
    requires
        0 <= j <= es.len(),
    ensures
        spec_records_len(es) == spec_records_len(es.take(j)) + spec_records_len(es.skip(j)),
    decreases j,
{
    if j == 0 {
        assert(es.take(0) =~= Seq::<EntryModel>::empty());
        assert(es.skip(0) =~= es);
    } else {
        lemma_records_len_drop(es, j - 1);
        assert(es.take(j) =~= es.take(j - 1).push(es[j - 1]));
        lemma_records_len_snoc(es.take(j - 1), es[j - 1]);
        assert(spec_records_len(es.skip(j - 1)) == spec_record_len(es[j - 1])
            + spec_records_len(es.skip(j))) by {
            assert(es.skip(j - 1)[0] == es[j - 1]);
            assert(es.skip(j - 1).skip(1) =~= es.skip(j));
            assert(es.skip(j - 1).len() > 0);
        }
    }
}

/// Every single record fits inside the total record byte count.
pub proof fn lemma_record_len_le(es: Seq<EntryModel>, i: int)
    requires
        0 <= i < es.len(),
    ensures
        spec_record_len(es[i]) <= spec_records_len(es),
    decreases i,
{
    if i == 0 {
        lemma_records_len_nonneg(es.skip(1));
    } else {
        lemma_record_len_le(es.skip(1), i - 1);
        lemma_records_len_nonneg(es);
        assert(es.skip(1)[i - 1] == es[i]);
    }
}

/// The record bytes measure exactly the declared record byte count.
pub proof fn lemma_records_len_agree(es: Seq<EntryModel>)
    ensures
        spec_records(es).len() == spec_records_len(es),
    decreases es.len(),
{
    lemma_auto_spec_u64_to_from_le_bytes();
    lemma_auto_spec_u32_to_from_le_bytes();
    if es.len() > 0 {
        lemma_records_len_agree(es.skip(1));
        assert(spec_record(es[0]).len() == spec_record_len(es[0]));
    }
}

/// Normalizing path bytes preserves UTF-8 well-formedness, in both
/// directions: backslash and forward slash are single-byte characters.
pub proof fn lemma_utf8_normalize(p: Seq<u8>, i: int)
    requires
        0 <= i <= p.len(),
    ensures
        is_utf8_from(spec_normalize(p), i) == is_utf8_from(p, i),
    decreases p.len() - i,
{
    let q = spec_normalize(p);
    assert(q.len() == p.len());
    assert(forall|j: int| 0 <= j < p.len() ==> q[j] == normal_byte(p[j]));
    if i < p.len() {
        if i + 1 <= p.len() {
            lemma_utf8_normalize(p, i + 1);
        }
        if i + 2 <= p.len() {
            lemma_utf8_normalize(p, i + 2);
        }
        if i + 3 <= p.len() {
            lemma_utf8_normalize(p, i + 3);
        }
        if i + 4 <= p.len() {
            lemma_utf8_normalize(p, i + 4);
        }
    }
}

/// Parsing ignores any bytes that sit in front of the window: records read
/// relative to an offset see only what follows it.
pub proof fn lemma_parse_prepend(prefix: Seq<u8>, b: Seq<u8>, i: int)
    requires
        0 <= i <= b.len(),
    ensures
        spec_parse_from(prefix + b, prefix.len() + i) == spec_parse_from(b, i),
    decreases b.len() - i,
{
    let c = prefix + b;
    let p = prefix.len() as int;
    if i == b.len() {
        assert(spec_parse_from(c, p + i) == Some(Seq::<EntryModel>::empty()));
    } else if i + 12 > b.len() {
        assert(spec_parse_from(c, p + i) is None);
    } else {
        assert(c.subrange(p + i, p + i + 8) =~= b.subrange(i, i + 8));
        assert(c.subrange(p + i + 8, p + i + 12) =~= b.subrange(i + 8, i + 12));
        let nlen = spec_u32_from_le_bytes(b.subrange(i + 8, i + 12)) as int;
        if i + 12 + nlen > b.len() {
            assert(spec_parse_from(c, p + i) is None);
        } else {
            assert(c.subrange(p + i + 12, p + i + 12 + nlen) =~= b.subrange(i + 12, i + 12 + nlen));
            lemma_parse_prepend(prefix, b, i + 12 + nlen);
        }
    }
}

/// The records of well-sized, UTF-8-named entries parse back to the same
/// entries with their paths normalized.
pub proof fn lemma_parse_of_records(es: Seq<EntryModel>)
    requires
        forall|i: int| 0 <= i < es.len() ==> spec_record_len(#[trigger] es[i]) <= u32::MAX,
        forall|i: int| 0 <= i < es.len() ==> is_utf8(#[trigger] es[i].path),
    ensures
        spec_parse_from(spec_records(es), 0) == Some(spec_normalize_entries(es)),
    decreases es.len(),
{
    lemma_auto_spec_u64_to_from_le_bytes();
    lemma_auto_spec_u32_to_from_le_bytes();
    let b = spec_records(es);
    if es.len() == 0 {
        assert(spec_parse_from(b, 0) == Some(Seq::<EntryModel>::empty()));
        assert(spec_normalize_entries(es) =~= Seq::<EntryModel>::empty());
    } else {
        let e = es[0];
        let rec = spec_record(e);
        let rest = spec_records(es.skip(1));
        let plen = e.path.len() as int;
        assert(b == rec + rest);
        assert(rec.len() == 12 + plen);
        lemma_records_len_agree(es.skip(1));
        lemma_records_len_nonneg(es.skip(1));
        assert(b.len() == 12 + plen + rest.len());
        assert(b.subrange(0, 8) =~= spec_u64_to_le_bytes(e.size));
        assert(b.subrange(8, 12) =~= spec_u32_to_le_bytes(e.path.len() as u32));
        assert(spec_u64_from_le_bytes(b.subrange(0, 8)) == e.size);
        assert(spec_u32_from_le_bytes(b.subrange(8, 12)) as int == plen);
        assert(b.subrange(12, 12 + plen) =~= spec_normalize(e.path));
        assert(is_utf8(spec_normalize(e.path))) by {
            lemma_utf8_normalize(e.path, 0);
        }
        assert(forall|i: int|
            0 <= i < es.skip(1).len() ==> spec_record_len(#[trigger] es.skip(1)[i]) <= u32::MAX
                && is_utf8(es.skip(1)[i].path)) by {
            assert(forall|i: int| 0 <= i < es.skip(1).len() ==> #[trigger] es.skip(1)[i] == es[i
                + 1]);
        }
        lemma_parse_of_records(es.skip(1));
        lemma_parse_prepend(rec, rest, 0);
        assert(spec_parse_from(b, 12 + plen) == Some(spec_normalize_entries(es.skip(1))));
        assert(spec_parse_from(b, 0) == Some(
            seq![spec_normalize_entry(e)] + spec_normalize_entries(es.skip(1)),
        ));
        assert(seq![spec_normalize_entry(e)] + spec_normalize_entries(es.skip(1))
            =~= spec_normalize_entries(es));
    }
}

/// Law: encoding a manifest and decoding it reproduces the same ordered
/// sequence of entries, with every path in its transmitted, normalized form.
/// It holds for every entry sequence whose manifest fits its 32-bit length
/// field and whose paths are valid UTF-8.
pub proof fn lemma_manifest_round_trip(es: Seq<EntryModel>)
    requires
        spec_manifest_len(es) <= u32::MAX,
        forall|i: int| 0 <= i < es.len() ==> is_utf8(#[trigger] es[i].path),
    ensures
        spec_decode_manifest(spec_manifest(es)) == Ok::<Seq<EntryModel>, TransferError>(
            spec_normalize_entries(es),
        ),
{
    lemma_auto_spec_u32_to_from_le_bytes();
    let b = spec_manifest(es);
    lemma_records_len_agree(es);
    lemma_records_len_nonneg(es);
    assert(b.len() == spec_manifest_len(es));
    let h = b.subrange(0, 8);
    assert(h[0] == MAGIC0 && h[1] == MAGIC1 && h[2] == MAGIC2 && h[3] == VERSION);
    assert(h.subrange(4, 8) =~= spec_u32_to_le_bytes(spec_manifest_len(es) as u32));
    assert(spec_u32_from_le_bytes(h.subrange(4, 8)) == spec_manifest_len(es));
    assert(spec_header_result(h) == Ok::<u32, TransferError>((spec_manifest_len(es) - 8) as u32));
    assert(b.subrange(8, b.len() as int) =~= spec_records(es));
    assert(forall|i: int| 0 <= i < es.len() ==> spec_record_len(#[trigger] es[i]) <= u32::MAX) by {
        assert forall|i: int| 0 <= i < es.len() implies spec_record_len(#[trigger] es[i])
            <= u32::MAX by {
            lemma_record_len_le(es, i);
        }
    }
    lemma_parse_of_records(es);
}

/// Builds the manifest buffer for the given entries, or reports that it
/// cannot fit its 32-bit length field.
pub fn encode_manifest(entries: &Vec<FileEntry>) -> (r: Result<Vec<u8>, TransferError>)
    ensures
        match r {
            Ok(buf) => spec_manifest_len(views_of(entries@)) <= u32::MAX && buf@ == spec_manifest(
                views_of(entries@),
            ),
            Err(e) => e == TransferError::ManifestTooLarge && spec_manifest_len(views_of(entries@))
                > u32::MAX,
        },
{
    let ghost vs = views_of(entries@);
    // first pass: the total length, bailing out as soon as it cannot fit
    let mut total: u64 = 8;
    let mut i: usize = 0;
    while i < entries.len()
        invariant
            0 <= i <= entries@.len(),
            vs == views_of(entries@),
            total == spec_manifest_len(vs.take(i as int)),
            total <= u32::MAX,
        decreases entries@.len() - i,
    {
        let nlen = entries[i].path.len();
        assert(vs.take(i + 1) =~= vs.take(i as int).push(vs[i as int]));
        proof {
            lemma_records_len_snoc(vs.take(i as int), vs[i as int]);
        }
        if nlen as u64 > 0xffff_ffffu64 || total + 12 + (nlen as u64) > 0xffff_ffffu64 {
            proof {
                lemma_records_len_prefix(vs, i + 1);
            }
            return Err(TransferError::ManifestTooLarge);
        }
        total = total + 12 + (nlen as u64);
        i = i + 1;
    }
    assert(vs.take(entries@.len() as int) =~= vs);
    // second pass: the bytes
    let mut buf: Vec<u8> = Vec::new();
    buf.push(MAGIC0);
    buf.push(MAGIC1);
    buf.push(MAGIC2);
    buf.push(VERSION);
    let mut lenb = u32_to_le_bytes(total as u32);
    buf.append(&mut lenb);
    let ghost header = seq![MAGIC0, MAGIC1, MAGIC2, VERSION] + spec_u32_to_le_bytes(
        spec_manifest_len(vs) as u32,
    );
    assert(buf@ =~= header);
    let mut i: usize = 0;
    while i < entries.len()
        invariant
            0 <= i <= entries@.len(),
            vs == views_of(entries@),
            header == seq![MAGIC0, MAGIC1, MAGIC2, VERSION] + spec_u32_to_le_bytes(
                spec_manifest_len(vs) as u32,
            ),
            spec_manifest_len(vs) <= u32::MAX,
            buf@ == header + spec_records(vs.take(i as int)),
        decreases entries@.len() - i,
    {
        let entry = &entries[i];
        proof {
            lemma_record_len_le(vs, i as int);
            lemma_records_len_nonneg(vs);
        }
        assert(entry@.path.len() <= u32::MAX - 12);
        let mut szb = u64_to_le_bytes(entry.size);
        buf.append(&mut szb);
        let mut nlb = u32_to_le_bytes(entry.path.len() as u32);
        buf.append(&mut nlb);
        let ghost recstart = header + spec_records(vs.take(i as int)) + spec_u64_to_le_bytes(
            entry@.size,
        ) + spec_u32_to_le_bytes(entry@.path.len() as u32);
        assert(buf@ =~= recstart);
        let mut k: usize = 0;
        while k < entry.path.len()
            invariant
                0 <= k <= entry@.path.len(),
                buf@ == recstart + spec_normalize(entry@.path.take(k as int)),
            decreases entry@.path.len() - k,
        {
            let b = entry.path[k];
            buf.push(
                if b == 0x5c {
                    0x2f
                } else {
                    b
                },
            );
            assert(spec_normalize(entry@.path.take(k + 1)) =~= spec_normalize(
                entry@.path.take(k as int),
            ).push(normal_byte(entry@.path[k as int])));
            assert(buf@ =~= recstart + spec_normalize(entry@.path.take(k + 1)));
            k = k + 1;
        }
        assert(entry@.path.take(entry@.path.len() as int) =~= entry@.path);
        proof {
            lemma_records_snoc(vs.take(i as int), vs[i as int]);
        }
        assert(vs.take(i + 1) =~= vs.take(i as int).push(vs[i as int]));
        assert(vs[i as int] == entry@);
        assert(buf@ =~= header + spec_records(vs.take(i + 1)));
        i = i + 1;
    }
    assert(vs.take(entries@.len() as int) =~= vs);
    assert(buf@ =~= spec_manifest(vs));
    Ok(buf)
}

/// Reads the 8-byte manifest header: checks the magic, then the version,
/// then that the declared total length covers at least the header, and
/// returns how many body bytes follow.
pub fn parse_header(header: &[u8]) -> (r: Result<u32, TransferError>)
    requires
        header@.len() == 8,
    ensures
        r == spec_header_result(header@),
{
    if !(header[0] == MAGIC0 && header[1] == MAGIC1 && header[2] == MAGIC2) {
        return Err(TransferError::BadMagic);
    }
    if header[3] != VERSION {
        return Err(TransferError::BadVersion);
    }
    let total = u32_from_le_bytes(slice_subrange(header, 4, 8));
    if total < 8 {
        return Err(TransferError::MalformedManifest);
    }
    Ok(total - 8)
}

/// Parses the record section of a manifest body. Succeeds exactly when the
/// records tile the body and every path is valid UTF-8.
pub fn parse_records(body: &[u8]) -> (r: Result<Vec<FileEntry>, TransferError>)
    ensures
        match r {
            Ok(es) => spec_parse_from(body@, 0) == Some(views_of(es@)),
            Err(e) => e == TransferError::MalformedManifest && spec_parse_from(body@, 0) is None,
        },
{
    let n = body.len();
    let mut acc: Vec<FileEntry> = Vec::new();
    let mut i: usize = 0;
    loop
        invariant
            0 <= i <= n,
            n == body@.len(),
            spec_parse_from(body@, i as int) is Some ==> spec_parse_from(body@, 0) == Some(
                views_of(acc@) + spec_parse_from(body@, i as int).unwrap(),
            ),
            spec_parse_from(body@, i as int) is None ==> spec_parse_from(body@, 0) is None,
        decreases n - i,
    {
        if i == n {
            assert(spec_parse_from(body@, i as int) == Some(Seq::<EntryModel>::empty()));
            assert(views_of(acc@) + Seq::<EntryModel>::empty() =~= views_of(acc@));
            return Ok(acc);
        }
        if n - i < 12 {
            return Err(TransferError::MalformedManifest);
        }
        let size = u64_from_le_bytes(slice_subrange(body, i, i + 8));
        let nlen32 = u32_from_le_bytes(slice_subrange(body, i + 8, i + 12));
        let nlen = nlen32 as usize;
        if n - i - 12 < nlen {
            return Err(TransferError::MalformedManifest);
        }
        let name = slice_subrange(body, i + 12, i + 12 + nlen);
        if !is_valid_utf8(name) {
            return Err(TransferError::MalformedManifest);
        }
        let path = slice_to_vec(name);
        let ghost e = EntryModel { size, path: body@.subrange(i as int + 12, i as int + 12 + nlen as int) };
        let ghost prev = acc@;
        acc.push(FileEntry { size, path });
        proof {
            assert(views_of(acc@) =~= views_of(prev).push(e));
            let next = i as int + 12 + nlen as int;
            if spec_parse_from(body@, next) is Some {
                assert(spec_parse_from(body@, i as int) == Some(
                    seq![e] + spec_parse_from(body@, next).unwrap(),
                ));
                assert(views_of(prev) + (seq![e] + spec_parse_from(body@, next).unwrap()) =~= views_of(
                    acc@,
                ) + spec_parse_from(body@, next).unwrap());
            } else {
                assert(spec_parse_from(body@, i as int) is None);
            }
        }
        i = i + 12 + nlen;
    }
}

/// Decodes a complete manifest buffer into its entries.
pub fn decode_manifest(buffer: &[u8]) -> (r: Result<Vec<FileEntry>, TransferError>)
    ensures
        match r {
            Ok(es) => spec_decode_manifest(buffer@) == Ok::<Seq<EntryModel>, TransferError>(
                views_of(es@),
            ),
            Err(e) => spec_decode_manifest(buffer@) == Err::<Seq<EntryModel>, TransferError>(e),
        },
{
    let n = buffer.len();
    if n < 8 {
        return Err(TransferError::MalformedManifest);
    }
    let nbody = match parse_header(slice_subrange(buffer, 0, 8)) {
        Ok(nbody) => nbody,
        Err(e) => {
            return Err(e);
        },
    };
    if !(nbody as usize == n - 8) {
        return Err(TransferError::MalformedManifest);
    }
    parse_records(slice_subrange(buffer, 8, n))
}

} // verus!
