//! Putting downloaded files together: assembling a file from the parts of
//! its chunks, checking it against its hash, and the small decisions around
//! copying and storing it.

use vstd::prelude::*;
use vstd::string::*;
use crate::download_manager::{ChunkPart, ChunkPartView, parts_view};
use crate::text::{hex_char, hex_digit};
use crate::outside::{
    chunk_bytes_safe, chunk_decode, push_char, sha1_digest, spec_chunk_decode, spec_sha1,
};

verus! {

/// Two lowercase hexadecimal digits per byte.
pub open spec fn hex_lower(b: Seq<u8>) -> Seq<char>
    decreases b.len(),
{
    if b.len() == 0 {
        Seq::empty()
    } else {
        hex_lower(b.drop_last()).push(hex_digit((b.last() / 16) as int)).push(hex_digit((b.last() % 16) as int))
    }
}

/// The bytes written as lowercase hexadecimal, two digits each.
pub fn to_hex_lower(b: &[u8]) -> (r: String)
    ensures
        r@ == hex_lower(b@),
{
    let mut r = String::new();
    let mut i: usize = 0;
    while i < b.len()
        invariant
            i <= b@.len(),
            r@ == hex_lower(b@.take(i as int)),
        decreases b@.len() - i,
    {
        let x = b[i];
        proof {
            assert(b@.take(i + 1).drop_last() =~= b@.take(i as int));
        }
        push_char(&mut r, hex_char(x / 16));
        push_char(&mut r, hex_char(x % 16));
        i = i + 1;
    }
    proof {
        assert(b@.take(b@.len() as int) =~= b@);
    }
    r
}

/// Whether the SHA-1 digest of `data`, in lowercase hexadecimal, is
/// `expected`.
pub open spec fn spec_hash_matches(data: Seq<u8>, expected: Seq<char>) -> bool {
    hex_lower(spec_sha1(data)) == expected
}

/// Tells whether `data` has the SHA-1 hash `expected` (lowercase hexadecimal).
pub fn hash_matches(data: &[u8], expected: &String) -> (r: bool)
    ensures
        r == spec_hash_matches(data@, expected@),
{
    let digest = sha1_digest(data);
    digest_matches(digest.as_slice(), expected)
}

/// Whether a digest, in lowercase hexadecimal, is `expected`.
pub fn digest_matches(digest: &[u8], expected: &String) -> (r: bool)
    ensures
        r == (hex_lower(digest@) == expected@),
{
    let hex = to_hex_lower(digest);
    hex == *expected
}

/// A file of a manifest found on disk before its download: with the right
/// hash it counts as downloaded; missing or different, it has to be
/// downloaded.
pub fn file_already_downloaded(contents: Option<&[u8]>, expected: &String) -> (r: bool)
    ensures
        r == match contents {
            Some(c) => spec_hash_matches(c@, expected@),
            None => false,
        },
{
    match contents {
        Some(c) => hash_matches(c, expected),
        None => false,
    }
}

/// What the assembly learns from one chunk file.
#[derive(Debug)]
pub enum ChunkData {
    /// The file could not be read or was empty; the assembly skips it.
    Unreadable,
    /// The file did not parse as a chunk; the assembly stops.
    Undecodable,
    /// The stated uncompressed size (if any) and the payload.
    Decoded(Option<u32>, Vec<u8>),
}

pub enum ChunkDataView {
    Unreadable,
    Undecodable,
    Decoded(Option<u32>, Seq<u8>),
}

impl View for ChunkData {
    type V = ChunkDataView;

    open spec fn view(&self) -> ChunkDataView {
        match self {
            ChunkData::Unreadable => ChunkDataView::Unreadable,
            ChunkData::Undecodable => ChunkDataView::Undecodable,
            ChunkData::Decoded(u, d) => ChunkDataView::Decoded(*u, d@),
        }
    }
}

/// What the assembly learns from the bytes of a chunk file.
pub open spec fn spec_chunk_data(bytes: Seq<u8>) -> ChunkDataView {
    if bytes.len() == 0 {
        ChunkDataView::Unreadable
    } else {
        match spec_chunk_decode(bytes) {
            Some((u, d)) => ChunkDataView::Decoded(u, d),
            None => ChunkDataView::Undecodable,
        }
    }
}

/// Interprets the bytes of a chunk file: an empty file is skipped, bytes the
/// chunk parser rejects stop the assembly.
pub fn chunk_data(bytes: Vec<u8>) -> (r: ChunkData)
    requires
        bytes@.len() == 0 || chunk_bytes_safe(bytes@),
    ensures
        r@ == spec_chunk_data(bytes@),
{
    if bytes.len() == 0 {
        return ChunkData::Unreadable;
    }
    chunk_data_of(chunk_decode(bytes))
}

/// What the assembly learns from what the chunk parser made of a non-empty
/// chunk file: the decoded chunk, or a stop when it was rejected.
pub fn chunk_data_of(decoded: Option<(Option<u32>, Vec<u8>)>) -> (r: ChunkData)
    ensures
        r@ == match decoded {
            Some((u, d)) => ChunkDataView::Decoded(u, d@),
            None => ChunkDataView::Undecodable,
        },
{
    match decoded {
        Some((u, d)) => ChunkData::Decoded(u, d),
        None => ChunkData::Undecodable,
    }
}

/// The number of bytes a decoded chunk offers: the stated uncompressed size,
/// or else the payload length when it fits in 32 bits, or else none.
pub open spec fn available(u: Option<u32>, d: Seq<u8>) -> int {
    match u {
        Some(x) => x as int,
        None => if d.len() <= u32::MAX {
            d.len() as int
        } else {
            0
        },
    }
}

/// Whether assembling `parts` from `chunks` stays inside each payload it
/// reads from (the assembly takes the part's bytes from the payload after
/// checking only the stated size).
pub open spec fn assembly_safe(parts: Seq<ChunkPartView>, chunks: Seq<ChunkDataView>) -> bool
    decreases parts.len(),
{
    if parts.len() == 0 || chunks.len() == 0 {
        true
    } else {
        let p = parts[0];
        let rest = assembly_safe(parts.subrange(1, parts.len() as int), chunks.subrange(1, chunks.len() as int));
        match chunks[0] {
            ChunkDataView::Unreadable => rest,
            ChunkDataView::Undecodable => true,
            ChunkDataView::Decoded(u, d) => p.offset + p.size <= u128::MAX && (available(u, d)
                < p.offset + p.size || (p.offset + p.size <= d.len() && rest)),
        }
    }
}

/// The bytes of a file assembled from its parts: for each part in order, the
/// part's bytes of its chunk; an unreadable chunk is skipped; a chunk that
/// did not parse, or that offers fewer bytes than the part ends at, stops
/// the assembly.
pub open spec fn assembled(parts: Seq<ChunkPartView>, chunks: Seq<ChunkDataView>) -> Seq<u8>
    decreases parts.len(),
{
    if parts.len() == 0 || chunks.len() == 0 {
        Seq::empty()
    } else {
        let p = parts[0];
        let rest = assembled(parts.subrange(1, parts.len() as int), chunks.subrange(1, chunks.len() as int));
        match chunks[0] {
            ChunkDataView::Unreadable => rest,
            ChunkDataView::Undecodable => Seq::empty(),
            ChunkDataView::Decoded(u, d) => if available(u, d) < p.offset + p.size {
                Seq::empty()
            } else {
                d.subrange(p.offset as int, (p.offset + p.size) as int) + rest
            },
        }
    }
}

pub open spec fn chunks_view(s: Seq<ChunkData>) -> Seq<ChunkDataView> {
    s.map_values(|c: ChunkData| c@)
}

proof fn lemma_skip_step<A>(s: Seq<A>, i: int)
    requires
        0 <= i < s.len(),
    ensures
        s.skip(i).subrange(1, s.skip(i).len() as int) == s.skip(i + 1),
        s.skip(i)[0] == s[i],
        s.skip(i).len() > 0,
{
    assert(s.skip(i).subrange(1, s.skip(i).len() as int) =~= s.skip(i + 1));
}

/// Assembles a file from its parts and the chunk files they point into (one
/// chunk per part, in order), as `assembled` describes.
pub fn extract_chunks(parts: &Vec<ChunkPart>, chunks: &Vec<ChunkData>) -> (r: Vec<u8>)
    requires
        parts@.len() == chunks@.len(),
        assembly_safe(parts_view(parts@), chunks_view(chunks@)),
    ensures
        r@ == assembled(parts_view(parts@), chunks_view(chunks@)),
{
    let ghost pv = parts_view(parts@);
    let ghost cv = chunks_view(chunks@);
    let mut out: Vec<u8> = Vec::new();
    let mut i: usize = 0;
    let mut stopped = false;
    proof {
        assert(pv.skip(0) =~= pv);
        assert(cv.skip(0) =~= cv);
    }
    while i < parts.len() && !stopped
        invariant
            parts@.len() == chunks@.len(),
            pv == parts_view(parts@),
            cv == chunks_view(chunks@),
            pv.len() == cv.len(),
            i <= parts@.len(),
            !stopped ==> out@ + assembled(pv.skip(i as int), cv.skip(i as int)) == assembled(pv, cv),
            !stopped ==> assembly_safe(pv.skip(i as int), cv.skip(i as int)),
            stopped ==> out@ == assembled(pv, cv),
        decreases parts@.len() - i,
    {
        proof {
            lemma_skip_step(pv, i as int);
            lemma_skip_step(cv, i as int);
            assert(pv[i as int] == parts@[i as int]@);
            assert(cv[i as int] == chunks@[i as int]@);
        }
        let p = &parts[i];
        match &chunks[i] {
            ChunkData::Unreadable => {},
            ChunkData::Undecodable => {
                proof {
                    assert(out@ + Seq::<u8>::empty() =~= out@);
                }
                stopped = true;
            },
            ChunkData::Decoded(u, d) => {
                let avail: u128 = match u {
                    Some(x) => *x as u128,
                    None => if d.len() <= 4294967295usize {
                        d.len() as u128
                    } else {
                        0
                    },
                };
                let end = p.offset + p.size;
                if avail < end {
                    proof {
                        assert(out@ + Seq::<u8>::empty() =~= out@);
                    }
                    stopped = true;
                } else {
                    let ghost before = out@;
                    let start = p.offset as usize;
                    let stop = end as usize;
                    let mut k: usize = start;
                    while k < stop
                        invariant
                            start <= k <= stop,
                            stop <= d@.len(),
                            out@ == before + d@.subrange(start as int, k as int),
                        decreases stop - k,
                    {
                        out.push(d[k]);
                        k = k + 1;
                        proof {
                            assert(out@ =~= before + d@.subrange(start as int, k as int));
                        }
                    }
                    proof {
                        let rest = assembled(pv.skip(i + 1), cv.skip(i + 1));
                        assert(before + d@.subrange(start as int, stop as int) + rest =~= before + (
                        d@.subrange(start as int, stop as int) + rest));
                    }
                }
            },
        }
        i = i + 1;
    }
    proof {
        if !stopped {
            assert(pv.skip(i as int).len() == 0);
            assert(out@ + Seq::<u8>::empty() =~= out@);
        }
    }
    out
}

/// What happens to one copy target of a finished file.
#[derive(Debug, PartialEq, Eq, Structural)]
pub enum CopyStep {
    /// The file exists there and must not be overwritten.
    Skip,
    /// The existing file is renamed to a backup first, then the copy is made.
    BackupThenCopy,
    /// The copy is made.
    Copy,
}

/// The step for a copy target, given whether the file is present there and
/// whether the target allows overwriting.
pub fn copy_step(present: bool, overwrite: bool) -> (r: CopyStep)
    ensures
        r == if present && !overwrite {
            CopyStep::Skip
        } else if present {
            CopyStep::BackupThenCopy
        } else {
            CopyStep::Copy
        },
{
    if present && !overwrite {
        CopyStep::Skip
    } else if present {
        CopyStep::BackupThenCopy
    } else {
        CopyStep::Copy
    }
}

/// The extension of the backup of a file with extension `ext`: the old
/// extension followed by ".bak", or ".bak" alone.
pub fn backup_extension(ext: Option<&str>) -> (r: String)
    ensures
        r@ == match ext {
            Some(e) => e@ + ".bak"@,
            None => ".bak"@,
        },
{
    let mut r = String::new();
    match ext {
        Some(e) => {
            r.append(e);
        },
        None => {},
    }
    r.append(".bak");
    r
}

/// The name of the temporary file of chunk `guid`.
pub fn chunk_file_name(guid: &str) -> (r: String)
    ensures
        r@ == guid@ + ".chunk"@,
{
    let mut r = String::new();
    r.append(guid);
    r.append(".chunk");
    r
}

/// The directory that holds temporary downloads: the first vault directory,
/// or else the configured temporary directory.
pub fn download_base_dir(vaults: &Vec<String>, temporary: &String) -> (r: String)
    ensures
        r == if vaults@.len() > 0 {
            vaults@[0]
        } else {
            *temporary
        },
{
    if vaults.len() > 0 {
        vaults[0].clone()
    } else {
        temporary.clone()
    }
}

/// Where the manifests of a download go, given the last component of its
/// target directory: none without one; the parent of a "data" directory;
/// else the directory itself (`Some(true)` stands for the parent).
pub fn manifest_in_parent(last_component: Option<&str>) -> (r: Option<bool>)
    ensures
        r == match last_component {
            Some(c) => Some(c@ == "data"@),
            None => None,
        },
{
    match last_component {
        Some(c) => {
            let d = String::from_str("data");
            let cs = String::from_str(c);
            Some(cs == d)
        },
        None => None,
    }
}

/// What happens to one entry of an engine archive.
#[derive(Debug, PartialEq, Eq, Structural)]
pub enum ExtractStep {
    /// Nothing is written: the entry has no safe name, or a file of its
    /// size is already there.
    Skip,
    /// The entry is a directory and is created.
    MakeDir,
    /// The entry's bytes are written out.
    WriteFile,
}

/// The step for an archive entry: its name must stay inside the target
/// (`safe_name`), an existing file of the same size is kept, a name ending
/// in '/' is a directory, anything else is written.
pub fn extract_step(safe_name: bool, existing_size: Option<u64>, entry_size: u64, name: &str) -> (r: ExtractStep)
    ensures
        r == if !safe_name {
            ExtractStep::Skip
        } else if existing_size == Some(entry_size) {
            ExtractStep::Skip
        } else if name@.len() > 0 && name@.last() == '/' {
            ExtractStep::MakeDir
        } else {
            ExtractStep::WriteFile
        },
{
    if !safe_name {
        return ExtractStep::Skip;
    }
    if existing_size == Some(entry_size) {
        return ExtractStep::Skip;
    }
    let n = crate::text::chars_of(name);
    if n.len() > 0 && n[n.len() - 1] == '/' {
        ExtractStep::MakeDir
    } else {
        ExtractStep::WriteFile
    }
}

/// How the download of an engine archive of `size` bytes starts, given the
/// size of what is already on disk.
#[derive(Debug)]
pub enum EngineFetch {
    /// All of it is there: report it as downloaded and finished.
    Complete,
    /// Part of it is there: ask for the rest with this range header value.
    Resume(String),
    /// Nothing is there: ask for all of it.
    Fresh,
}

/// The start of an engine archive download (see `EngineFetch`).
pub fn engine_fetch(existing_size: Option<u64>, size: u64) -> (r: EngineFetch)
    ensures
        existing_size is None ==> r is Fresh,
        existing_size == Some(size) ==> r is Complete,
        (existing_size matches Some(have) && have != size) ==> (r matches EngineFetch::Resume(h)
            && h@ == "bytes="@ + crate::text::nat_text(existing_size->0 as nat) + "-"@
            + crate::text::nat_text(size as nat)),
{
    match existing_size {
        None => EngineFetch::Fresh,
        Some(have) => {
            if have == size {
                EngineFetch::Complete
            } else {
                let mut h = String::from_str("bytes=");
                let a = crate::text::u64_text(have);
                h.append(a.as_str());
                h.append("-");
                let b = crate::text::u64_text(size);
                h.append(b.as_str());
                EngineFetch::Resume(h)
            }
        },
    }
}

} // verus!
