//! From the bytes of a layer to the entries of its archive: which compression
//! a media type stands for, decompression, and the listing of a tar stream.
//!
//! Decompression and the reading of tar headers are done by the `libflate`,
//! `zstd` and `tar` crates. What they return is not described here: it is
//! named, and the contracts of this library speak of those names.

use vstd::prelude::*;
use vstd::string::StrSliceExecFns;
use crate::bytes::reversed;
use crate::plan::{entry_views, ArchiveEntry, EntryView};

verus! {

/// `std::io::Error`, which the calls into the outside crates fail with; it is
/// carried through as it is, and nothing is said of what it holds.
#[verifier::external_type_specification]
#[verifier::external_body]
pub struct ExIoError(std::io::Error);

/// How the archive of a layer is compressed.
#[derive(Debug, Clone, Copy, PartialEq, Eq, Structural)]
pub enum Compression {
    /// A gzip stream.
    Gzip,
    /// A zstd stream.
    Zstd,
    /// No compression: the bytes are the tar stream.
    Identity,
}

/// The media type of a layer that is a plain tar archive.
pub open spec fn plain_tar_type() -> Seq<char> {
    "application/vnd.oci.image.layer.v1.tar"@
}

/// The compression that a media type stands for: zstd where it ends in
/// `+zstd`, none where it is the media type of a plain tar layer, and gzip in
/// every other case, also where no media type is given.
pub open spec fn compression_of(media_type: Option<Seq<char>>) -> Compression {
    match media_type {
        Some(t) => {
            if "+zstd"@.is_suffix_of(t) {
                Compression::Zstd
            } else if t == plain_tar_type() {
                Compression::Identity
            } else {
                Compression::Gzip
            }
        },
        None => Compression::Gzip,
    }
}

/// Whether the text `s` ends with the text `suffix`.
pub fn text_ends_with(s: &str, suffix: &str) -> (r: bool)
    ensures
        r == suffix@.is_suffix_of(s@),
{
    let n: usize = s.unicode_len();
    let m: usize = suffix.unicode_len();
    if m > n {
        return false;
    }
    let shift: usize = n - m;
    let mut i: usize = 0;
    while i < m
        invariant
            i <= m <= n,
            n == s@.len(),
            m == suffix@.len(),
            shift == n - m,
            forall|j: int| 0 <= j < i ==> s@[shift + j] == suffix@[j],
        decreases m - i,
    {
        if s.get_char(shift + i) != suffix.get_char(i) {
            assert(s@.subrange(s@.len() - suffix@.len(), s@.len() as int)[i as int]
                != suffix@[i as int]);
            return false;
        }
        i = i + 1;
    }
    assert(suffix@ =~= s@.subrange(s@.len() - suffix@.len(), s@.len() as int));
    true
}

/// The compression that the media type of a layer stands for.
pub fn compression_for(media_type: &Option<String>) -> (c: Compression)
    ensures
        c == compression_of(
            match media_type {
                Some(t) => Some(t@),
                None => None,
            },
        ),
{
    match media_type {
        Some(t) => {
            if text_ends_with(t.as_str(), "+zstd") {
                Compression::Zstd
            } else if text_ends_with(t.as_str(), "application/vnd.oci.image.layer.v1.tar")
                && text_ends_with("application/vnd.oci.image.layer.v1.tar", t.as_str()) {
                assert(t@ =~= t@.subrange(0, t@.len() as int));
                Compression::Identity
            } else {
                assert(t@ != plain_tar_type()) by {
                    if t@ == plain_tar_type() {
                        assert(t@ =~= t@.subrange(0, t@.len() as int));
                    }
                }
                Compression::Gzip
            }
        },
        None => Compression::Gzip,
    }
}

/// What `libflate` decodes from `data` read as one gzip stream; `None` where
/// it reports an error.
pub uninterp spec fn gzip_decoded(data: Seq<u8>) -> Option<Seq<u8>>;

/// What `zstd` decodes from `data`; `None` where it reports an error.
pub uninterp spec fn zstd_decoded(data: Seq<u8>) -> Option<Seq<u8>>;

/// What `tar` yields when it walks the entries of `archive`: for each entry
/// the bytes of its path and whether it is a directory, and `None` in the
/// place of an entry where it reports an error; `None` for the whole where the
/// walk cannot start.
pub uninterp spec fn tar_listing(archive: Seq<u8>) -> Option<Seq<Option<(Seq<u8>, bool)>>>;

/// What the walk yielded at one place, as `tar_listing` gives it.
pub open spec fn item_view(item: Result<ArchiveEntry, std::io::Error>) -> Option<(Seq<u8>, bool)> {
    match item {
        Ok(e) => Some((e.path@, e.is_dir)),
        Err(_) => None,
    }
}

/// What the walk yielded, as `tar_listing` gives it.
pub open spec fn item_views(items: Seq<Result<ArchiveEntry, std::io::Error>>) -> Seq<
    Option<(Seq<u8>, bool)>,
> {
    Seq::new(items.len(), |i: int| item_view(items[i]))
}

/// The first index at or after `i` at which the walk yielded an error; the
/// length of `items` where it yielded none.
pub open spec fn breaks_at(items: Seq<Option<(Seq<u8>, bool)>>, i: int) -> int
    decreases items.len() - i,
{
    if 0 <= i < items.len() && items[i] is Some {
        breaks_at(items, i + 1)
    } else if i < items.len() {
        i
    } else {
        items.len() as int
    }
}

/// `breaks_at` is the only index before which all is well and at which it is
/// not.
pub proof fn lemma_breaks_at(items: Seq<Option<(Seq<u8>, bool)>>, i: int, k: int)
    requires
        0 <= i <= k <= items.len(),
        forall|j: int| i <= j < k ==> items[j] is Some,
        k < items.len() ==> items[k] is None,
    ensures
        breaks_at(items, i) == k,
    decreases k - i,
{
    if i < k {
        lemma_breaks_at(items, i + 1, k);
    }
}

/// The entries of `archive` that can be read: those that the walk yields
/// before its first error.
pub open spec fn archive_entries(archive: Seq<u8>) -> Seq<(Seq<u8>, bool)> {
    match tar_listing(archive) {
        Some(items) => Seq::new(breaks_at(items, 0) as nat, |i: int| items[i].unwrap()),
        None => Seq::empty(),
    }
}

/// Whether `archive` can be read to its end: the walk starts and yields no
/// error.
pub open spec fn archive_whole(archive: Seq<u8>) -> bool {
    tar_listing(archive) matches Some(items) && breaks_at(items, 0) == items.len()
}

/// Entries as the pairs in which `tar_listing` gives them.
pub open spec fn entry_pairs(entries: Seq<EntryView>) -> Seq<(Seq<u8>, bool)> {
    Seq::new(entries.len(), |i: int| (entries[i].path, entries[i].is_dir))
}

/// The tar stream that `data` holds under compression `c`.
pub open spec fn decoded(c: Compression, data: Seq<u8>) -> Option<Seq<u8>> {
    match c {
        Compression::Gzip => gzip_decoded(data),
        Compression::Zstd => zstd_decoded(data),
        Compression::Identity => Some(data),
    }
}

/// Makes a `libflate::gzip::Decoder` over `data` and reads it to its end.
/// Claimed: the bytes read, or the error of either call, depend on `data`
/// alone; they are what `gzip_decoded` names.
#[verifier::external_body]
pub(crate) fn gunzip(data: &Vec<u8>) -> (r: Result<Vec<u8>, std::io::Error>)
    ensures
        match r {
            Ok(out) => gzip_decoded(data@) == Some(out@),
            Err(_) => gzip_decoded(data@) is None,
        },
{
    let mut decoder = libflate::gzip::Decoder::new(data.as_slice())?;
    let mut out = Vec::new();
    std::io::Read::read_to_end(&mut decoder, &mut out)?;
    Ok(out)
}

/// Calls `zstd::stream::decode_all` on `data`. Claimed: what it returns
/// depends on `data` alone; it is what `zstd_decoded` names.
#[verifier::external_body]
pub(crate) fn unzstd(data: &Vec<u8>) -> (r: Result<Vec<u8>, std::io::Error>)
    ensures
        match r {
            Ok(out) => zstd_decoded(data@) == Some(out@),
            Err(_) => zstd_decoded(data@) is None,
        },
{
    zstd::stream::decode_all(data.as_slice())
}

/// Walks `tar::Archive::entries` over `archive` and keeps of each entry what
/// `Entry::path_bytes` and `EntryType::is_dir` return, and each error in its
/// place. Claimed: the outcome depends on `archive` alone; it is what
/// `tar_listing` names.
#[verifier::external_body]
pub(crate) fn tar_entries(archive: &Vec<u8>) -> (r: Result<
    Vec<Result<ArchiveEntry, std::io::Error>>,
    std::io::Error,
>)
    ensures
        match r {
            Ok(items) => tar_listing(archive@) == Some(item_views(items@)),
            Err(_) => tar_listing(archive@) is None,
        },
{
    Ok(
        tar::Archive::new(archive.as_slice()).entries()?.map(
            |entry| entry.map(|e| ArchiveEntry {
                path: e.path_bytes().into_owned(),
                is_dir: e.header().entry_type().is_dir(),
            }),
        ).collect(),
    )
}

/// Lists the entries of `archive` that can be read, with the error at which
/// the reading broke, if it did.
pub fn list_entries(archive: &Vec<u8>) -> (r: (Vec<ArchiveEntry>, Option<std::io::Error>))
    ensures
        entry_pairs(entry_views(r.0@)) == archive_entries(archive@),
        r.1 is None <==> archive_whole(archive@),
{
    let items = match tar_entries(archive) {
        Ok(items) => items,
        Err(e) => {
            let none: Vec<ArchiveEntry> = Vec::new();
            assert(entry_pairs(entry_views(none@)) =~= Seq::empty());
            return (none, Some(e));
        },
    };
    let ghost all = item_views(items@);
    let ghost given = items@;
    let mut stack = reversed(items);
    let mut entries: Vec<ArchiveEntry> = Vec::new();
    loop
        invariant
            all == item_views(given),
            tar_listing(archive@) == Some(all),
            entries@.len() + stack@.len() == given.len(),
            stack@ == given.subrange(entries@.len() as int, given.len() as int).reverse(),
            forall|j: int|
                0 <= j < entries@.len() ==> (#[trigger] all[j]) == Some(
                    (entries@[j].path@, entries@[j].is_dir),
                ),
        decreases stack@.len(),
    {
        let ghost k = entries@.len() as int;
        if stack.len() == 0 {
            proof {
                assert forall|j: int| 0 <= j < k implies all[j] is Some by {}
                lemma_breaks_at(all, 0, k);
                assert(entry_pairs(entry_views(entries@)) =~= archive_entries(archive@));
            }
            return (entries, None);
        }
        let ghost rest = given.subrange(k, given.len() as int);
        let item = stack.pop().unwrap();
        proof {
            assert(item == rest[0]);
            assert(item == given[k]);
            assert(all[k] == item_view(item));
            assert(stack@ =~= given.subrange(k + 1, given.len() as int).reverse());
        }
        match item {
            Ok(e) => {
                entries.push(e);
            },
            Err(e) => {
                proof {
                    assert forall|j: int| 0 <= j < k implies all[j] is Some by {}
                    lemma_breaks_at(all, 0, k);
                    assert(entry_pairs(entry_views(entries@)) =~= archive_entries(archive@));
                }
                return (entries, Some(e));
            },
        }
    }
}

/// The tar stream of a layer: its bytes, decompressed as `c` says.
pub fn decompress(c: Compression, data: &Vec<u8>) -> (r: Result<Vec<u8>, std::io::Error>)
    ensures
        match r {
            Ok(out) => decoded(c, data@) == Some(out@),
            Err(_) => decoded(c, data@) is None,
        },
{
    match c {
        Compression::Gzip => gunzip(data),
        Compression::Zstd => unzstd(data),
        Compression::Identity => Ok(data.clone()),
    }
}

} // verus!
