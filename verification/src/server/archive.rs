//! Archives: which kind a file is, and where its entries go.
use vstd::prelude::*;
use crate::error::{AppError, AppResult};
use crate::paths;
use crate::server::files;
use crate::server::gitignore;
use crate::server::gitignore::IgnorePattern;
use crate::text;

verus! {

/// How a stream is compressed.
#[derive(Debug, Clone, Copy, PartialEq, Eq, Structural)]
pub enum Compression {
    Gzip,
    Bzip2,
    Xz,
    Zstd,
    Lz4,
}

/// What an archive is.
#[derive(Debug, Clone, Copy, PartialEq, Eq, Structural)]
pub enum ArchiveKind {
    Zip,
    SevenZip,
    Tar,
    CompressedTar(Compression),
    /// one compressed file, or a tar in disguise
    Single(Compression),
    Rar,
    Unknown,
}

/// How the size of an archive's contents is found.
#[derive(Debug, Clone, Copy, PartialEq, Eq, Structural)]
pub enum SizeMethod {
    /// the entries of a zip
    Zip,
    /// the entries of a tar inside gzip, or the size of the file itself when
    /// there is no tar inside
    Gzip,
    /// the entries of a tar
    Tar,
    /// not known, and taken as nothing
    Unknown,
}

pub open spec fn ends(name: Seq<char>, ext: Seq<char>) -> bool {
    ext.is_suffix_of(name)
}

/// What an archive is, by its name in lower case.
pub open spec fn kind_of(name: Seq<char>) -> ArchiveKind {
    if ends(name, ".rar"@) {
        ArchiveKind::Rar
    } else if ends(name, ".zip"@) {
        ArchiveKind::Zip
    } else if ends(name, ".7z"@) {
        ArchiveKind::SevenZip
    } else if ends(name, ".tar.gz"@) || ends(name, ".tgz"@) {
        ArchiveKind::CompressedTar(Compression::Gzip)
    } else if ends(name, ".tar.bz2"@) || ends(name, ".tbz2"@) || ends(name, ".tbz"@) {
        ArchiveKind::CompressedTar(Compression::Bzip2)
    } else if ends(name, ".tar.xz"@) || ends(name, ".txz"@) {
        ArchiveKind::CompressedTar(Compression::Xz)
    } else if ends(name, ".tar.zst"@) || ends(name, ".tzst"@) {
        ArchiveKind::CompressedTar(Compression::Zstd)
    } else if ends(name, ".tar.lz4"@) {
        ArchiveKind::CompressedTar(Compression::Lz4)
    } else if ends(name, ".tar"@) {
        ArchiveKind::Tar
    } else if ends(name, ".gz"@) {
        ArchiveKind::Single(Compression::Gzip)
    } else if ends(name, ".bz2"@) {
        ArchiveKind::Single(Compression::Bzip2)
    } else if ends(name, ".xz"@) {
        ArchiveKind::Single(Compression::Xz)
    } else if ends(name, ".zst"@) {
        ArchiveKind::Single(Compression::Zstd)
    } else if ends(name, ".lz4"@) {
        ArchiveKind::Single(Compression::Lz4)
    } else {
        ArchiveKind::Unknown
    }
}

/// The suffix of a compressed file.
pub open spec fn suffix_of(c: Compression) -> Seq<char> {
    match c {
        Compression::Gzip => ".gz"@,
        Compression::Bzip2 => ".bz2"@,
        Compression::Xz => ".xz"@,
        Compression::Zstd => ".zst"@,
        Compression::Lz4 => ".lz4"@,
    }
}

/// What an archive is, by its name.
pub fn archive_kind(name: &str) -> (r: ArchiveKind)
    ensures
        r == kind_of(files::lowercase(name@)),
{
    let l = files::to_lowercase(name);
    let n = l.as_str();
    if text::ends_with(n, ".rar") {
        ArchiveKind::Rar
    } else if text::ends_with(n, ".zip") {
        ArchiveKind::Zip
    } else if text::ends_with(n, ".7z") {
        ArchiveKind::SevenZip
    } else if text::ends_with(n, ".tar.gz") || text::ends_with(n, ".tgz") {
        ArchiveKind::CompressedTar(Compression::Gzip)
    } else if text::ends_with(n, ".tar.bz2") || text::ends_with(n, ".tbz2") || text::ends_with(
        n,
        ".tbz",
    ) {
        ArchiveKind::CompressedTar(Compression::Bzip2)
    } else if text::ends_with(n, ".tar.xz") || text::ends_with(n, ".txz") {
        ArchiveKind::CompressedTar(Compression::Xz)
    } else if text::ends_with(n, ".tar.zst") || text::ends_with(n, ".tzst") {
        ArchiveKind::CompressedTar(Compression::Zstd)
    } else if text::ends_with(n, ".tar.lz4") {
        ArchiveKind::CompressedTar(Compression::Lz4)
    } else if text::ends_with(n, ".tar") {
        ArchiveKind::Tar
    } else if text::ends_with(n, ".gz") {
        ArchiveKind::Single(Compression::Gzip)
    } else if text::ends_with(n, ".bz2") {
        ArchiveKind::Single(Compression::Bzip2)
    } else if text::ends_with(n, ".xz") {
        ArchiveKind::Single(Compression::Xz)
    } else if text::ends_with(n, ".zst") {
        ArchiveKind::Single(Compression::Zstd)
    } else if text::ends_with(n, ".lz4") {
        ArchiveKind::Single(Compression::Lz4)
    } else {
        ArchiveKind::Unknown
    }
}

/// Refuses what cannot be decompressed: RAR archives, and unknown formats.
pub fn check_supported(name: &str) -> (r: AppResult<ArchiveKind>)
    ensures
        match kind_of(files::lowercase(name@)) {
            ArchiveKind::Rar => r is Err && crate::error::is_bad_request(
                r->Err_0,
                "filesystem: rar archives are not supported"@,
            ),
            ArchiveKind::Unknown => r is Err && crate::error::is_bad_request(
                r->Err_0,
                "filesystem: unknown archive format"@,
            ),
            k => r == Ok::<ArchiveKind, AppError>(k),
        },
{
    match archive_kind(name) {
        ArchiveKind::Rar => Err(
            AppError::BadRequest("filesystem: rar archives are not supported".to_owned()),
        ),
        ArchiveKind::Unknown => Err(
            AppError::BadRequest("filesystem: unknown archive format".to_owned()),
        ),
        k => Ok(k),
    }
}

/// The name of the file inside a compressed one: without its suffix.
pub open spec fn inner_name(name: Seq<char>, c: Compression) -> Seq<char> {
    if ends(name, suffix_of(c)) {
        name.take(name.len() - suffix_of(c).len())
    } else {
        name
    }
}

/// The name of the file inside a compressed one.
pub fn stripped_name(name: &str, c: Compression) -> (r: String)
    ensures
        r@ == inner_name(name@, c),
{
    let ext = match c {
        Compression::Gzip => ".gz",
        Compression::Bzip2 => ".bz2",
        Compression::Xz => ".xz",
        Compression::Zstd => ".zst",
        Compression::Lz4 => ".lz4",
    };
    let a = text::chars_of(name);
    let b = text::chars_of(ext);
    if text::has_suffix(a.as_slice(), b.as_slice()) {
        let out = text::slice_of(a.as_slice(), 0, a.len() - b.len());
        assert(out@ =~= name@.take(name@.len() - suffix_of(c).len()));
        text::string_of(out.as_slice())
    } else {
        name.to_owned()
    }
}

/// How the size of an archive's contents is found.
pub fn size_method(name: &str) -> (r: SizeMethod)
    ensures
        r == ({
            let n = files::lowercase(name@);
            if ends(n, ".zip"@) {
                SizeMethod::Zip
            } else if ends(n, ".gz"@) || ends(n, ".tgz"@) {
                SizeMethod::Gzip
            } else if ends(n, ".tar"@) {
                SizeMethod::Tar
            } else {
                SizeMethod::Unknown
            }
        }),
{
    let l = files::to_lowercase(name);
    let n = l.as_str();
    if text::ends_with(n, ".zip") {
        SizeMethod::Zip
    } else if text::ends_with(n, ".gz") || text::ends_with(n, ".tgz") {
        SizeMethod::Gzip
    } else if text::ends_with(n, ".tar") {
        SizeMethod::Tar
    } else {
        SizeMethod::Unknown
    }
}

/// The sum of some lengths.
pub open spec fn sum(v: Seq<u64>) -> int
    decreases v.len(),
{
    if v.len() == 0 {
        0
    } else {
        sum(v.drop_last()) + v.last()
    }
}

/// The sum of the lengths of an archive's entries, as far as it can be counted.
pub fn total_size(sizes: &[u64]) -> (r: u64)
    ensures
        r == (if sum(sizes@) > u64::MAX {
            u64::MAX as int
        } else {
            sum(sizes@)
        }),
{
    let mut total: u64 = 0;
    let mut i: usize = 0;
    while i < sizes.len()
        invariant
            i <= sizes.len(),
            total == (if sum(sizes@.take(i as int)) > u64::MAX {
                u64::MAX as int
            } else {
                sum(sizes@.take(i as int))
            }),
        decreases sizes.len() - i,
    {
        assert(sizes@.take(i + 1).drop_last() =~= sizes@.take(i as int));
        total = if total > u64::MAX - sizes[i] {
            u64::MAX
        } else {
            total + sizes[i]
        };
        i = i + 1;
    }
    assert(sizes@.take(i as int) =~= sizes@);
    total
}

/// Whether the first bytes of a stream are a tar header: `ustar` at its place.
pub open spec fn is_tar_header(b: Seq<u8>) -> bool {
    b.len() >= 262 && b.subrange(257, 262) == seq![117u8, 115u8, 116u8, 97u8, 114u8]
}

/// Whether the first bytes of a stream are a tar header.
pub fn is_tar(b: &[u8]) -> (r: bool)
    ensures
        r == is_tar_header(b@),
{
    let r = b.len() >= 262 && b[257] == 117 && b[258] == 115 && b[259] == 116 && b[260] == 97
        && b[261] == 114;
    proof {
        if b@.len() >= 262 {
            let m = b@.subrange(257, 262);
            assert(m[0] == b@[257] && m[1] == b@[258] && m[2] == b@[259] && m[3] == b@[260] && m[4]
                == b@[261]);
            if r {
                assert(m =~= seq![117u8, 115u8, 116u8, 97u8, 114u8]);
            }
        }
    }
    r
}

/// Where an entry of an archive is put: nowhere when it climbs, or leads out of
/// the base.
pub fn extraction_target(base: &str, entry: &str) -> (r: Option<String>)
    ensures
        match r {
            Some(p) => p@ == paths::join(base@, entry@) && !files::climbs(entry@)
                && paths::starts_with(p@, base@),
            None => files::climbs(entry@) || !paths::starts_with(
                paths::join(base@, entry@),
                base@,
            ),
        },
{
    let c = paths::components_of(entry);
    if text::has_text(&c, "..") {
        return None;
    }
    let p = paths::join_path(base, entry);
    if paths::is_below(p.as_str(), base) {
        Some(p)
    } else {
        None
    }
}

/// Whether a path below the root goes into a backup: it is not ignored. The path
/// is given relative to the root.
pub fn is_walked(patterns: &[IgnorePattern], rel: &str) -> (r: bool)
    ensures
        r == !gitignore::ignored(
            gitignore::rules_of(patterns@),
            text::replaced(rel@, '\\', "/"@),
        ),
{
    !gitignore::matches_path(patterns, rel)
}

/// A file whose name ends in `.tar` is unpacked as a plain tar.
pub proof fn law_tar_suffix_means_tar(name: Seq<char>)
    requires
        ends(name, ".tar"@),
    ensures
        kind_of(name) == ArchiveKind::Tar,
{
    reveal_strlit(".tar");
    reveal_strlit(".rar");
    reveal_strlit(".zip");
    reveal_strlit(".7z");
    reveal_strlit(".tar.gz");
    reveal_strlit(".tgz");
    reveal_strlit(".tar.bz2");
    reveal_strlit(".tbz2");
    reveal_strlit(".tbz");
    reveal_strlit(".tar.xz");
    reveal_strlit(".txz");
    reveal_strlit(".tar.zst");
    reveal_strlit(".tzst");
    reveal_strlit(".tar.lz4");
    let n = name.len();
    let t = ".tar"@;
    assert(t == name.subrange(n - 4, n as int));
    assert(name[n - 1] == t[3] && name[n - 2] == t[2] && name[n - 3] == t[1] && name[n - 4] == t[0]);
    assert forall|ext: Seq<char>| #[trigger]
        ends(name, ext) && ext.len() > 0 implies ext.last() == 'r' by {
        assert(ext == name.subrange(n - ext.len(), n as int));
        assert(ext[ext.len() - 1] == name[n - 1]);
    }
    assert(".rar"@[1] == 'r');
    if ends(name, ".rar"@) {
        assert(".rar"@ == name.subrange(n - 4, n as int));
        assert(".rar"@[1] == name[n - 3]);
    }
}

/// What an archive is, by the end of its name.
pub proof fn law_kinds_of_archives(stem: Seq<char>)
    ensures
        kind_of(stem + ".rar"@) == ArchiveKind::Rar,
        kind_of(stem + ".zip"@) == ArchiveKind::Zip,
        kind_of(stem + ".7z"@) == ArchiveKind::SevenZip,
        kind_of(stem + ".tar.gz"@) == ArchiveKind::CompressedTar(Compression::Gzip),
        kind_of(stem + ".tgz"@) == ArchiveKind::CompressedTar(Compression::Gzip),
        kind_of(stem + ".tar.bz2"@) == ArchiveKind::CompressedTar(Compression::Bzip2),
        kind_of(stem + ".tbz2"@) == ArchiveKind::CompressedTar(Compression::Bzip2),
        kind_of(stem + ".tbz"@) == ArchiveKind::CompressedTar(Compression::Bzip2),
        kind_of(stem + ".tar.xz"@) == ArchiveKind::CompressedTar(Compression::Xz),
        kind_of(stem + ".txz"@) == ArchiveKind::CompressedTar(Compression::Xz),
        kind_of(stem + ".tar.zst"@) == ArchiveKind::CompressedTar(Compression::Zstd),
        kind_of(stem + ".tzst"@) == ArchiveKind::CompressedTar(Compression::Zstd),
        kind_of(stem + ".tar.lz4"@) == ArchiveKind::CompressedTar(Compression::Lz4),
{
    lemma_kind_rar(stem);
    lemma_kind_zip(stem);
    lemma_kind_7z(stem);
    lemma_kind_tar_gz(stem);
    lemma_kind_tgz(stem);
    lemma_kind_tar_bz2(stem);
    lemma_kind_tbz2(stem);
    lemma_kind_tbz(stem);
    lemma_kind_tar_xz(stem);
    lemma_kind_txz(stem);
    lemma_kind_tar_zst(stem);
    lemma_kind_tzst(stem);
    lemma_kind_tar_lz4(stem);
}

proof fn lemma_kind_rar(stem: Seq<char>)
    ensures
        kind_of(stem + ".rar"@) == ArchiveKind::Rar,
{
    lemma_ends_own(stem, ".rar"@);
}

proof fn lemma_kind_zip(stem: Seq<char>)
    ensures
        kind_of(stem + ".zip"@) == ArchiveKind::Zip,
{
    lemma_suffixes();
    lemma_ends_own(stem, ".zip"@);
    lemma_ends_other(stem, ".zip"@, ".rar"@, 1);
}

proof fn lemma_kind_7z(stem: Seq<char>)
    ensures
        kind_of(stem + ".7z"@) == ArchiveKind::SevenZip,
{
    lemma_suffixes();
    lemma_ends_own(stem, ".7z"@);
    lemma_ends_other(stem, ".7z"@, ".rar"@, 1);
    lemma_ends_other(stem, ".7z"@, ".zip"@, 1);
}

proof fn lemma_kind_tar_gz(stem: Seq<char>)
    ensures
        kind_of(stem + ".tar.gz"@) == ArchiveKind::CompressedTar(Compression::Gzip),
{
    lemma_suffixes();
    lemma_ends_own(stem, ".tar.gz"@);
    lemma_not_early(stem, ".tar.gz"@, 2);
}

proof fn lemma_kind_tgz(stem: Seq<char>)
    ensures
        kind_of(stem + ".tgz"@) == ArchiveKind::CompressedTar(Compression::Gzip),
{
    lemma_suffixes();
    lemma_ends_own(stem, ".tgz"@);
    lemma_not_early(stem, ".tgz"@, 2);
}

proof fn lemma_kind_tar_bz2(stem: Seq<char>)
    ensures
        kind_of(stem + ".tar.bz2"@) == ArchiveKind::CompressedTar(Compression::Bzip2),
{
    lemma_suffixes();
    lemma_ends_own(stem, ".tar.bz2"@);
    lemma_not_early(stem, ".tar.bz2"@, 1);
    lemma_not_gzip(stem, ".tar.bz2"@, 1);
}

proof fn lemma_kind_tbz2(stem: Seq<char>)
    ensures
        kind_of(stem + ".tbz2"@) == ArchiveKind::CompressedTar(Compression::Bzip2),
{
    lemma_suffixes();
    lemma_ends_own(stem, ".tbz2"@);
    lemma_not_early(stem, ".tbz2"@, 1);
    lemma_not_gzip(stem, ".tbz2"@, 1);
}

proof fn lemma_kind_tbz(stem: Seq<char>)
    ensures
        kind_of(stem + ".tbz"@) == ArchiveKind::CompressedTar(Compression::Bzip2),
{
    lemma_suffixes();
    lemma_ends_own(stem, ".tbz"@);
    lemma_not_early(stem, ".tbz"@, 2);
    lemma_not_gzip(stem, ".tbz"@, 2);
}

proof fn lemma_kind_tar_xz(stem: Seq<char>)
    ensures
        kind_of(stem + ".tar.xz"@) == ArchiveKind::CompressedTar(Compression::Xz),
{
    lemma_suffixes();
    lemma_ends_own(stem, ".tar.xz"@);
    lemma_not_early(stem, ".tar.xz"@, 2);
    lemma_not_gzip(stem, ".tar.xz"@, 2);
    lemma_not_bzip(stem, ".tar.xz"@, 1, 2);
}

proof fn lemma_kind_txz(stem: Seq<char>)
    ensures
        kind_of(stem + ".txz"@) == ArchiveKind::CompressedTar(Compression::Xz),
{
    lemma_suffixes();
    lemma_ends_own(stem, ".txz"@);
    lemma_not_early(stem, ".txz"@, 2);
    lemma_not_gzip(stem, ".txz"@, 2);
    lemma_not_bzip(stem, ".txz"@, 1, 2);
}

proof fn lemma_kind_tar_zst(stem: Seq<char>)
    ensures
        kind_of(stem + ".tar.zst"@) == ArchiveKind::CompressedTar(Compression::Zstd),
{
    lemma_suffixes();
    lemma_ends_own(stem, ".tar.zst"@);
    lemma_not_early(stem, ".tar.zst"@, 1);
    lemma_not_gzip(stem, ".tar.zst"@, 1);
    lemma_not_bzip(stem, ".tar.zst"@, 1, 1);
    lemma_not_xz(stem, ".tar.zst"@);
}

proof fn lemma_kind_tzst(stem: Seq<char>)
    ensures
        kind_of(stem + ".tzst"@) == ArchiveKind::CompressedTar(Compression::Zstd),
{
    lemma_suffixes();
    lemma_ends_own(stem, ".tzst"@);
    lemma_not_early(stem, ".tzst"@, 1);
    lemma_not_gzip(stem, ".tzst"@, 1);
    lemma_not_bzip(stem, ".tzst"@, 1, 1);
    lemma_not_xz(stem, ".tzst"@);
}

proof fn lemma_kind_tar_lz4(stem: Seq<char>)
    ensures
        kind_of(stem + ".tar.lz4"@) == ArchiveKind::CompressedTar(Compression::Lz4),
{
    lemma_suffixes();
    lemma_ends_own(stem, ".tar.lz4"@);
    lemma_not_early(stem, ".tar.lz4"@, 1);
    lemma_not_gzip(stem, ".tar.lz4"@, 1);
    lemma_not_bzip(stem, ".tar.lz4"@, 1, 1);
    lemma_not_xz(stem, ".tar.lz4"@);
    lemma_ends_other(stem, ".tar.lz4"@, ".tar.zst"@, 1);
    lemma_ends_other(stem, ".tar.lz4"@, ".tzst"@, 1);
}

proof fn lemma_suffixes()
    ensures
        ".rar"@ =~= seq!['.', 'r', 'a', 'r'],
        ".zip"@ =~= seq!['.', 'z', 'i', 'p'],
        ".7z"@ =~= seq!['.', '7', 'z'],
        ".tar.gz"@ =~= seq!['.', 't', 'a', 'r', '.', 'g', 'z'],
        ".tgz"@ =~= seq!['.', 't', 'g', 'z'],
        ".tar.bz2"@ =~= seq!['.', 't', 'a', 'r', '.', 'b', 'z', '2'],
        ".tbz2"@ =~= seq!['.', 't', 'b', 'z', '2'],
        ".tbz"@ =~= seq!['.', 't', 'b', 'z'],
        ".tar.xz"@ =~= seq!['.', 't', 'a', 'r', '.', 'x', 'z'],
        ".txz"@ =~= seq!['.', 't', 'x', 'z'],
        ".tar.zst"@ =~= seq!['.', 't', 'a', 'r', '.', 'z', 's', 't'],
        ".tzst"@ =~= seq!['.', 't', 'z', 's', 't'],
        ".tar.lz4"@ =~= seq!['.', 't', 'a', 'r', '.', 'l', 'z', '4'],
{
    reveal_strlit(".rar");
    reveal_strlit(".zip");
    reveal_strlit(".7z");
    reveal_strlit(".tar.gz");
    reveal_strlit(".tgz");
    reveal_strlit(".tar.bz2");
    reveal_strlit(".tbz2");
    reveal_strlit(".tbz");
    reveal_strlit(".tar.xz");
    reveal_strlit(".txz");
    reveal_strlit(".tar.zst");
    reveal_strlit(".tzst");
    reveal_strlit(".tar.lz4");
}

proof fn lemma_ends_own(stem: Seq<char>, ext: Seq<char>)
    ensures
        ends(stem + ext, ext),
{
    let s = stem + ext;
    assert(ext =~= s.subrange(s.len() - ext.len(), s.len() as int));
}

/// Two suffixes that differ `k` characters before the end are not suffixes of one name.
proof fn lemma_ends_other(stem: Seq<char>, ext: Seq<char>, other: Seq<char>, k: int)
    requires
        0 < k <= ext.len(),
        k <= other.len(),
        ext[ext.len() - k] != other[other.len() - k],
    ensures
        !ends(stem + ext, other),
{
    let s = stem + ext;
    if ends(s, other) {
        assert(other[other.len() - k] == s.subrange(s.len() - other.len(), s.len() as int)[
        other.len() - k]);
        assert(s[s.len() - k] == ext[ext.len() - k]);
    }
}

proof fn lemma_not_early(stem: Seq<char>, ext: Seq<char>, k: int)
    requires
        0 < k <= 2 <= ext.len(),
        ext.last() != 'r' && ext.last() != 'p',
        k == 1 ==> ext.last() != 'z',
        k == 2 ==> ext[ext.len() - 2] != '7',
    ensures
        !ends(stem + ext, ".rar"@),
        !ends(stem + ext, ".zip"@),
        !ends(stem + ext, ".7z"@),
{
    lemma_suffixes();
    lemma_ends_other(stem, ext, ".rar"@, 1);
    lemma_ends_other(stem, ext, ".zip"@, 1);
    lemma_ends_other(stem, ext, ".7z"@, k);
}

proof fn lemma_not_gzip(stem: Seq<char>, ext: Seq<char>, k: int)
    requires
        0 < k <= 2 <= ext.len(),
        k == 1 ==> ext.last() != 'z',
        k == 2 ==> ext[ext.len() - 2] != 'g',
    ensures
        !ends(stem + ext, ".tar.gz"@),
        !ends(stem + ext, ".tgz"@),
{
    lemma_suffixes();
    lemma_ends_other(stem, ext, ".tar.gz"@, k);
    lemma_ends_other(stem, ext, ".tgz"@, k);
}

proof fn lemma_not_bzip(stem: Seq<char>, ext: Seq<char>, j: int, k: int)
    requires
        j == 1 && 0 < k <= 2 <= ext.len(),
        ext.last() != '2',
        k == 1 ==> ext.last() != 'z',
        k == 2 ==> ext[ext.len() - 2] != 'b',
    ensures
        !ends(stem + ext, ".tar.bz2"@),
        !ends(stem + ext, ".tbz2"@),
        !ends(stem + ext, ".tbz"@),
{
    lemma_suffixes();
    lemma_ends_other(stem, ext, ".tar.bz2"@, j);
    lemma_ends_other(stem, ext, ".tbz2"@, j);
    lemma_ends_other(stem, ext, ".tbz"@, k);
}

proof fn lemma_not_xz(stem: Seq<char>, ext: Seq<char>)
    requires
        ext.len() > 0 && ext.last() != 'z',
    ensures
        !ends(stem + ext, ".tar.xz"@),
        !ends(stem + ext, ".txz"@),
{
    lemma_suffixes();
    lemma_ends_other(stem, ext, ".tar.xz"@, 1);
    lemma_ends_other(stem, ext, ".txz"@, 1);
}

/// A name that ends like none of these is no archive, and one that ends like a
/// compressed file, and not like a compressed archive, is a single file.
pub proof fn law_other_files(name: Seq<char>)
    requires
        !ends(name, ".rar"@) && !ends(name, ".zip"@) && !ends(name, ".7z"@) && !ends(
            name,
            ".tar.gz"@,
        ) && !ends(name, ".tgz"@) && !ends(name, ".tar.bz2"@) && !ends(name, ".tbz2"@) && !ends(
            name,
            ".tbz"@,
        ) && !ends(name, ".tar.xz"@) && !ends(name, ".txz"@) && !ends(name, ".tar.zst"@) && !ends(
            name,
            ".tzst"@,
        ) && !ends(name, ".tar.lz4"@) && !ends(name, ".tar"@),
    ensures
        ends(name, ".gz"@) ==> kind_of(name) == ArchiveKind::Single(Compression::Gzip),
        !ends(name, ".gz"@) && ends(name, ".bz2"@) ==> kind_of(name) == ArchiveKind::Single(
            Compression::Bzip2,
        ),
        !ends(name, ".gz"@) && !ends(name, ".bz2"@) && ends(name, ".xz"@) ==> kind_of(name)
            == ArchiveKind::Single(Compression::Xz),
        !ends(name, ".gz"@) && !ends(name, ".bz2"@) && !ends(name, ".xz"@) && ends(name, ".zst"@)
            ==> kind_of(name) == ArchiveKind::Single(Compression::Zstd),
        !ends(name, ".gz"@) && !ends(name, ".bz2"@) && !ends(name, ".xz"@) && !ends(name, ".zst"@)
            && ends(name, ".lz4"@) ==> kind_of(name) == ArchiveKind::Single(Compression::Lz4),
        !ends(name, ".gz"@) && !ends(name, ".bz2"@) && !ends(name, ".xz"@) && !ends(name, ".zst"@)
            && !ends(name, ".lz4"@) ==> kind_of(name) == ArchiveKind::Unknown,
{
}

/// A file that was compressed has the name without the suffix; a name without it stays.
pub proof fn law_inner_names(stem: Seq<char>, c: Compression)
    ensures
        inner_name(stem + suffix_of(c), c) == stem,
        !suffix_of(c).is_suffix_of(stem) ==> inner_name(stem, c) == stem,
        suffix_of(Compression::Gzip) == ".gz"@,
        suffix_of(Compression::Bzip2) == ".bz2"@,
        suffix_of(Compression::Xz) == ".xz"@,
        suffix_of(Compression::Zstd) == ".zst"@,
        suffix_of(Compression::Lz4) == ".lz4"@,
{
    let e = suffix_of(c);
    lemma_ends_own(stem, e);
    assert((stem + e).take((stem + e).len() - e.len()) =~= stem);
}

/// A tar header has `ustar` at its place, whatever else it holds.
pub proof fn law_tar_headers(b: Seq<u8>)
    ensures
        is_tar_header(b) <==> b.len() >= 262 && b[257] == 117 && b[258] == 115 && b[259] == 116
            && b[260] == 97 && b[261] == 114,
{
    if b.len() >= 262 {
        let s = b.subrange(257, 262);
        assert(s[0] == b[257] && s[1] == b[258] && s[2] == b[259] && s[3] == b[260] && s[4]
            == b[261]);
        if b[257] == 117 && b[258] == 115 && b[259] == 116 && b[260] == 97 && b[261] == 114 {
            assert(s =~= seq![117u8, 115u8, 116u8, 97u8, 114u8]);
        }
    }
}

} // verus!
