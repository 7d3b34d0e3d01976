//! Reading named entries out of a ZIP container held in memory, and the few text
//! operations on entry names and contents.
use vstd::prelude::*;
use vstd::utf8::{valid_utf8, decode_utf8};

verus! {

/// Why an entry could not be read out of an archive.
#[derive(Clone, Copy, Debug, PartialEq, Eq, Structural)]
pub enum ReadFailure {
    /// The container's index cannot be located or read.
    Malformed,
    /// The archive has no entry of that name.
    Missing,
    /// The entry exists but its contents cannot be read.
    Corrupt,
}

/// What reading the entry `name` out of the archive `archive` gives.
pub uninterp spec fn zip_entry(archive: Seq<u8>, name: Seq<char>) -> Result<Seq<u8>, ReadFailure>;

/// Relies on zip::ZipArchive::new over the bytes, ZipArchive::by_name_decrypt and
/// Read::read_to_end on the entry: the outcome depends on the bytes and the name
/// alone. The empty password is discarded by the zip crate for entries that are
/// not encrypted; an encrypted entry that it does not open counts as unreadable.
#[verifier::external_body]
pub(crate) fn read_entry(archive: &[u8], name: &str) -> (r: Result<Vec<u8>, ReadFailure>)
    ensures
        match r {
            Ok(v) => zip_entry(archive@, name@) == Ok::<Seq<u8>, ReadFailure>(v@),
            Err(e) => zip_entry(archive@, name@) == Err::<Seq<u8>, ReadFailure>(e),
        },
{
    let mut zip = match zip::ZipArchive::new(std::io::Cursor::new(archive)) {
        Ok(z) => z,
        Err(_) => return Err(ReadFailure::Malformed),
    };
    let mut file = match zip.by_name_decrypt(name, &[]) {
        Ok(Ok(f)) => f,
        Err(zip::result::ZipError::FileNotFound) => return Err(ReadFailure::Missing),
        _ => return Err(ReadFailure::Corrupt),
    };
    let mut out = Vec::new();
    match std::io::Read::read_to_end(&mut file, &mut out) {
        Ok(_) => Ok(out),
        Err(_) => Err(ReadFailure::Corrupt),
    }
}

/// Relies on String::from_utf8: it accepts exactly the valid UTF-8 byte sequences
/// and decodes them.
#[verifier::external_body]
pub(crate) fn utf8_text(bytes: Vec<u8>) -> (r: Option<String>)
    ensures
        r is Some <==> valid_utf8(bytes@),
        r matches Some(s) ==> s@ == decode_utf8(bytes@),
{
    String::from_utf8(bytes).ok()
}

/// The last segment of a `/`-separated path.
pub open spec fn leaf_of(path: Seq<char>) -> Seq<char>
    decreases path.len(),
{
    if path.len() == 0 {
        path
    } else if path.last() == '/' {
        Seq::empty()
    } else {
        leaf_of(path.drop_last()).push(path.last())
    }
}

/// Relies on str::rsplit_once: it splits at the last `/`, and finds none in a path
/// without one.
#[verifier::external_body]
fn split_leaf(path: &str) -> (r: String)
    ensures
        r@ == leaf_of(path@),
{
    match path.rsplit_once('/') {
        Some((_, leaf)) => leaf.to_owned(),
        None => path.to_owned(),
    }
}

/// The file name at the end of an entry path: what follows its last `/`.
pub fn leaf_name(path: &str) -> (r: String)
    ensures
        r@ == leaf_of(path@),
{
    split_leaf(path)
}

/// `needle` occurs in `hay` as a contiguous run.
pub open spec fn has_substring(hay: Seq<char>, needle: Seq<char>) -> bool {
    exists|i: int|
        0 <= i && i + needle.len() <= hay.len() && #[trigger] hay.subrange(i, i + needle.len())
            == needle
}

/// Relies on str::contains with a string pattern.
#[verifier::external_body]
fn str_contains(hay: &str, needle: &str) -> (r: bool)
    ensures
        r == has_substring(hay@, needle@),
{
    hay.contains(needle)
}

/// What `str::to_lowercase` gives for `s`.
pub uninterp spec fn lower_of(s: Seq<char>) -> Seq<char>;

/// Relies on str::to_lowercase: the result depends on the characters alone.
#[verifier::external_body]
fn lowercase(s: &str) -> (r: String)
    ensures
        r@ == lower_of(s@),
{
    s.to_lowercase()
}

/// Case-insensitive match of a name against a search filter.
pub open spec fn matches_filter_spec(name: Seq<char>, filter: Seq<char>) -> bool {
    has_substring(lower_of(name), lower_of(filter))
}

/// Whether the already lower-cased `name` contains the already lower-cased `filter`.
pub fn contains_folded(name: &str, filter: &str) -> (r: bool)
    ensures
        r == has_substring(name@, filter@),
{
    str_contains(name, filter)
}

/// Whether `name`, lower-cased, contains `filter`, lower-cased.
pub fn matches_filter(name: &str, filter: &str) -> (r: bool)
    ensures
        r == matches_filter_spec(name@, filter@),
{
    let n = lowercase(name);
    let f = lowercase(filter);
    contains_folded(n.as_str(), f.as_str())
}

} // verus!
