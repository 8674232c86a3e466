//! Plugin packages: the checks a zip archive passes before it is extracted.
use std::io::Cursor;
use vstd::prelude::*;
use crate::server::MAX_PLUGIN_UPLOAD_BYTES;
use crate::text::{chars_eq_str, chars_of, lower, lower_chars, slice_range};
use crate::web::{normalize_zip_entry_path, spec_zip_entry_path, ZipPathError};

verus! {

/// The most entries a plugin package may hold.
pub const MAX_ZIP_ENTRIES: usize = 100;
/// The most bytes a plugin package may unpack to: 50 MiB.
pub const MAX_ZIP_TOTAL_UNCOMPRESSED_BYTES: u64 = 52428800;

/// An uploaded file name ending in `.zip`, in any case.
pub open spec fn zip_file_name(name: Seq<char>) -> bool {
    let l = lower(name);
    l.len() >= 4 && l.subrange(l.len() - 4, l.len() as int) == ".zip"@
}

/// Why an uploaded plugin package is refused before it is opened.
#[derive(Debug, Clone, Copy, PartialEq, Eq, Structural)]
pub enum UploadError {
    /// The file name does not end in `.zip`.
    NotZipName,
    /// The file is larger than `MAX_PLUGIN_UPLOAD_BYTES`.
    TooLarge,
}

impl UploadError {
    /// The message shown to the user.
    pub open spec fn spec_message(&self) -> Seq<char> {
        match self {
            UploadError::NotZipName => "仅支持 .zip 插件包"@,
            UploadError::TooLarge => "插件包超过 10485760 bytes 限制"@,
        }
    }

    pub fn message(&self) -> (r: &'static str)
        ensures
            r@ == self.spec_message(),
    {
        match self {
            UploadError::NotZipName => "仅支持 .zip 插件包",
            UploadError::TooLarge => "插件包超过 10485760 bytes 限制",
        }
    }
}

/// Accepts an uploaded package by its file name, then by its size.
pub fn check_plugin_upload(file_name: &str, size: usize) -> (r: Result<(), UploadError>)
    ensures
        r == if !zip_file_name(file_name@) {
            Err(UploadError::NotZipName)
        } else if size > MAX_PLUGIN_UPLOAD_BYTES {
            Err(UploadError::TooLarge)
        } else {
            Ok(())
        },
{
    let c = chars_of(file_name);
    let l = lower_chars(c.as_slice());
    let n = l.len();
    proof {
        reveal_strlit(".zip");
    }
    if n < 4 {
        return Err(UploadError::NotZipName);
    }
    let tail = slice_range(l.as_slice(), n - 4, n);
    if !chars_eq_str(tail.as_slice(), ".zip") {
        return Err(UploadError::NotZipName);
    }
    if size > MAX_PLUGIN_UPLOAD_BYTES {
        return Err(UploadError::TooLarge);
    }
    Ok(())
}

/// What `zip::ZipArchive::new` finds in some bytes: the number of entries, or
/// `None` when the bytes are not a zip archive.
pub uninterp spec fn spec_zip_entry_count(bytes: Seq<u8>) -> Option<usize>;

/// Opens the bytes with `zip::ZipArchive::new` and gives `len()`. The contract
/// claims only that the outcome is a function of the bytes.
#[verifier::external_body]
fn zip_entry_count(payload: &[u8]) -> (r: Option<usize>)
    ensures
        r == spec_zip_entry_count(payload@),
{
    zip::ZipArchive::new(Cursor::new(payload)).ok().map(|archive| archive.len())
}

/// What `ZipArchive::by_index` gives for an entry of the archive the bytes
/// hold: its name and uncompressed size, or `None` when it cannot be read.
pub uninterp spec fn spec_zip_entry(bytes: Seq<u8>, index: usize) -> Option<(Seq<char>, u64)>;

/// Opens the bytes with `zip::ZipArchive::new`, reads entry `index` with
/// `by_index`, and gives `name()` and `size()`. The contract claims only that
/// the outcome is a function of the bytes and the index.
#[verifier::external_body]
fn zip_entry(payload: &[u8], index: usize) -> (r: Option<(String, u64)>)
    ensures
        match r {
            Some((name, size)) => spec_zip_entry(payload@, index) == Some((name@, size)),
            None => spec_zip_entry(payload@, index) is None,
        },
{
    let mut archive = zip::ZipArchive::new(Cursor::new(payload)).ok()?;
    let file = archive.by_index(index).ok()?;
    Some((file.name().to_string(), file.size()))
}

/// Why a plugin package is refused before extraction.
#[derive(Debug, Clone, Copy, PartialEq, Eq, Structural)]
pub enum ZipCheckError {
    /// The bytes are not a zip archive.
    NotZip,
    /// More than `MAX_ZIP_ENTRIES` entries.
    TooManyEntries,
    /// An entry cannot be read.
    EntryUnreadable,
    /// An entry's path would leave the extraction directory.
    Path(ZipPathError),
    /// The entries unpack to more than `MAX_ZIP_TOTAL_UNCOMPRESSED_BYTES`.
    TooLarge,
}

impl ZipCheckError {
    /// The message shown to the user.
    pub open spec fn spec_message(&self) -> Seq<char> {
        match self {
            ZipCheckError::NotZip => "插件包不是合法 zip 文件"@,
            ZipCheckError::TooManyEntries => "插件 zip 条目数超过 100"@,
            ZipCheckError::EntryUnreadable => "读取 zip 条目失败"@,
            ZipCheckError::Path(e) => e.spec_message(),
            ZipCheckError::TooLarge => "插件包解压总大小超过 50MB"@,
        }
    }

    pub fn message(&self) -> (r: &'static str)
        ensures
            r@ == self.spec_message(),
    {
        match self {
            ZipCheckError::NotZip => "插件包不是合法 zip 文件",
            ZipCheckError::TooManyEntries => "插件 zip 条目数超过 100",
            ZipCheckError::EntryUnreadable => "读取 zip 条目失败",
            ZipCheckError::Path(e) => e.message(),
            ZipCheckError::TooLarge => "插件包解压总大小超过 50MB",
        }
    }
}

/// `a + b`, saturating at `u64::MAX`.
pub open spec fn sat_add(a: u64, b: u64) -> u64 {
    if a + b > u64::MAX {
        u64::MAX
    } else {
        (a + b) as u64
    }
}

/// The check of entries `index..count`, `total` bytes being unpacked before them.
pub open spec fn zip_scan(bytes: Seq<u8>, count: usize, index: int, total: u64) -> Result<(), ZipCheckError>
    decreases count - index,
{
    if index >= count || index < 0 {
        Ok(())
    } else {
        match spec_zip_entry(bytes, index as usize) {
            None => Err(ZipCheckError::EntryUnreadable),
            Some((name, size)) => match spec_zip_entry_path(name) {
                Err(e) => Err(ZipCheckError::Path(e)),
                Ok(_) => if sat_add(total, size) > MAX_ZIP_TOTAL_UNCOMPRESSED_BYTES {
                    Err(ZipCheckError::TooLarge)
                } else {
                    zip_scan(bytes, count, index + 1, sat_add(total, size))
                },
            },
        }
    }
}

/// A package is accepted when it is an archive of at most `MAX_ZIP_ENTRIES`
/// entries, each readable, each with a path inside the extraction directory,
/// unpacking to at most `MAX_ZIP_TOTAL_UNCOMPRESSED_BYTES` in all.
pub open spec fn spec_zip_safety(bytes: Seq<u8>) -> Result<(), ZipCheckError> {
    match spec_zip_entry_count(bytes) {
        None => Err(ZipCheckError::NotZip),
        Some(count) => if count > MAX_ZIP_ENTRIES {
            Err(ZipCheckError::TooManyEntries)
        } else {
            zip_scan(bytes, count, 0, 0)
        },
    }
}

proof fn lemma_scan_accepts_entries(bytes: Seq<u8>, count: usize, index: int, total: u64)
    requires
        0 <= index,
        zip_scan(bytes, count, index, total) is Ok,
    ensures
        forall|i: int|
            index <= i < count ==> ((#[trigger] spec_zip_entry(bytes, i as usize)) matches Some((name, _))
                && spec_zip_entry_path(name) is Ok),
    decreases count - index,
{
    if index < count {
        let (name, size) = spec_zip_entry(bytes, index as usize)->0;
        lemma_scan_accepts_entries(bytes, count, index + 1, sat_add(total, size));
    }
}

/// Checks a plugin package before extraction (see `spec_zip_safety`); when it
/// is accepted, every entry's path is accepted too.
pub fn validate_zip_safety(payload: &[u8]) -> (r: Result<(), ZipCheckError>)
    ensures
        r == spec_zip_safety(payload@),
        r is Ok ==> (spec_zip_entry_count(payload@) matches Some(count) && forall|i: int|
            0 <= i < count ==> ((#[trigger] spec_zip_entry(payload@, i as usize)) matches Some((name, _))
                && spec_zip_entry_path(name) is Ok)),
{
    let count = match zip_entry_count(payload) {
        Some(n) => n,
        None => return Err(ZipCheckError::NotZip),
    };
    if count > MAX_ZIP_ENTRIES {
        return Err(ZipCheckError::TooManyEntries);
    }
    let mut total: u64 = 0;
    let mut index: usize = 0;
    while index < count
        invariant
            index <= count,
            count == spec_zip_entry_count(payload@)->0,
            spec_zip_entry_count(payload@) is Some,
            spec_zip_safety(payload@) == zip_scan(payload@, count, 0, 0),
            zip_scan(payload@, count, 0, 0) == zip_scan(payload@, count, index as int, total),
        decreases count - index,
    {
        let (name, size) = match zip_entry(payload, index) {
            Some(entry) => entry,
            None => return Err(ZipCheckError::EntryUnreadable),
        };
        match normalize_zip_entry_path(name.as_str()) {
            Ok(_) => {},
            Err(e) => return Err(ZipCheckError::Path(e)),
        }
        total = total.saturating_add(size);
        if total > MAX_ZIP_TOTAL_UNCOMPRESSED_BYTES {
            return Err(ZipCheckError::TooLarge);
        }
        index = index + 1;
    }
    proof {
        lemma_scan_accepts_entries(payload@, count, 0, 0);
    }
    Ok(())
}

} // verus!
