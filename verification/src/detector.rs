//! File format detection over file contents.
//!
//! Reading the file is the caller's concern; detection itself works on the
//! bytes: content sniffing first, the extension as a fallback, and a plain
//! octet-stream default. A simple heuristic flags PDF files that are likely
//! scans by comparing image and text object markers.

use vstd::prelude::*;

use crate::conversion::FileDetection;
use crate::text::str_eq;

verus! {

/// What content sniffing returns for these bytes. Relied on as a function
/// of the bytes alone.
pub uninterp spec fn sniffed_mime_of(bytes: Seq<u8>) -> Option<Seq<char>>;

/// What the extension table returns for this extension. Relied on as a
/// function of the extension alone.
pub uninterp spec fn ext_mime_of(ext: Seq<char>) -> Option<Seq<char>>;

/// Relies on infer's `get` and `Type::mime_type`: the sniffed MIME type of
/// the given bytes, determined by the bytes alone.
#[verifier::external_body]
fn sniff_mime(bytes: &[u8]) -> (r: Option<String>)
    ensures
        r.deep_view() == sniffed_mime_of(bytes@),
{
    infer::get(bytes).map(|t| t.mime_type().to_string())
}

/// Relies on mime_guess's `from_ext` and `MimeGuess::first_raw`: the first
/// MIME type guessed for the extension, determined by the extension alone.
#[verifier::external_body]
fn mime_from_ext(ext: &str) -> (r: Option<String>)
    ensures
        r.deep_view() == ext_mime_of(ext@),
{
    mime_guess::from_ext(ext).first_raw().map(|m| m.to_string())
}

/// Non-overlapping occurrences of `needle` in `hay`, counted left to
/// right.
pub open spec fn count_matches(hay: Seq<u8>, needle: Seq<u8>) -> nat
    decreases hay.len(),
{
    if needle.len() == 0 || hay.len() < needle.len() {
        0
    } else if hay.subrange(0, needle.len() as int) == needle {
        1 + count_matches(hay.skip(needle.len() as int), needle)
    } else {
        count_matches(hay.skip(1), needle)
    }
}

/// The byte marker of a PDF image object reference.
pub open spec fn image_marker() -> Seq<u8> {
    seq![47u8, 73u8, 109u8, 97u8, 103u8, 101u8]
}

/// The byte marker of a PDF text object reference.
pub open spec fn text_marker() -> Seq<u8> {
    seq![47u8, 84u8, 101u8, 120u8, 116u8]
}

/// The MIME type detection reports: the sniffed type when the content is
/// recognised, else the extension's first guess, else the octet-stream
/// default.
pub open spec fn spec_detected_mime(bytes: Seq<u8>, ext: Seq<char>) -> Seq<char> {
    match sniffed_mime_of(bytes) {
        Some(m) => m,
        None => match ext_mime_of(ext) {
            Some(m) => m,
            None => "application/octet-stream"@,
        },
    }
}

/// True when `needle` occurs at position `i` of `hay`.
fn matches_at(hay: &[u8], needle: &[u8], i: usize) -> (r: bool)
    requires
        i + needle@.len() <= hay@.len(),
    ensures
        r == (hay@.subrange(i as int, i + needle@.len()) == needle@),
{
    let hl = hay.len();
    let nl = needle.len();
    let mut k: usize = 0;
    while k < nl
        invariant
            k <= nl,
            nl == needle@.len(),
            hl == hay@.len(),
            i + needle@.len() <= hay@.len(),
            forall|m: int| 0 <= m < k ==> hay@[i + m] == needle@[m],
        decreases nl - k,
    {
        if hay[i + k] != needle[k] {
            proof {
                assert(hay@.subrange(i as int, i + needle@.len())[k as int] != needle@[k as int]);
            }
            return false;
        }
        k = k + 1;
    }
    proof {
        assert(hay@.subrange(i as int, i + needle@.len()) =~= needle@);
    }
    true
}

/// The step relation of the count: consuming a match or one byte.
proof fn lemma_count_step(hay: Seq<u8>, needle: Seq<u8>, i: int)
    requires
        needle.len() >= 1,
        0 <= i,
        i + needle.len() <= hay.len(),
    ensures
        hay.subrange(i, i + needle.len()) == needle ==> count_matches(hay.skip(i), needle) == 1
            + count_matches(hay.skip(i + needle.len()), needle),
        hay.subrange(i, i + needle.len()) != needle ==> count_matches(hay.skip(i), needle)
            == count_matches(hay.skip(i + 1), needle),
{
    let s = hay.skip(i);
    assert(s.subrange(0, needle.len() as int) =~= hay.subrange(i, i + needle.len()));
    assert(s.skip(needle.len() as int) =~= hay.skip(i + needle.len()));
    assert(s.skip(1) =~= hay.skip(i + 1));
}

/// Counting runs out when fewer bytes than a needle remain.
proof fn lemma_count_tail(hay: Seq<u8>, needle: Seq<u8>, i: int)
    requires
        needle.len() >= 1,
        0 <= i <= hay.len(),
        i + needle.len() > hay.len(),
    ensures
        count_matches(hay.skip(i), needle) == 0,
{
    assert(hay.skip(i).len() < needle.len());
}

/// Counts non-overlapping occurrences of `needle` in `hay`.
fn count_occurrences(hay: &[u8], needle: &[u8]) -> (r: usize)
    requires
        needle@.len() >= 1,
    ensures
        r == count_matches(hay@, needle@),
{
    let mut count: usize = 0;
    let mut i: usize = 0;
    let hl = hay.len();
    let nl = needle.len();
    proof {
        assert(hay@.skip(0) =~= hay@);
    }
    while i < hl && hl - i >= nl
        invariant
            needle@.len() >= 1,
            nl == needle@.len(),
            hl == hay@.len(),
            i <= hay@.len(),
            count <= i,
            count + count_matches(hay@.skip(i as int), needle@) == count_matches(hay@, needle@),
        decreases hay@.len() - i,
    {
        if matches_at(hay, needle, i) {
            proof {
                lemma_count_step(hay@, needle@, i as int);
            }
            count = count + 1;
            i = i + nl;
        } else {
            proof {
                lemma_count_step(hay@, needle@, i as int);
            }
            i = i + 1;
        }
    }
    proof {
        lemma_count_tail(hay@, needle@, i as int);
    }
    count
}

/// Detects file formats from bytes and names.
pub struct FileDetector;

impl FileDetector {
    /// Heuristic for scanned PDFs: many image object markers and almost no
    /// text object markers suggest a scan.
    pub fn is_likely_scanned_pdf(buffer: &[u8]) -> (r: bool)
        ensures
            r == (count_matches(buffer@, image_marker()) > 10 && count_matches(
                buffer@,
                text_marker(),
            ) < 5),
    {
        let image_needle: Vec<u8> = vec![47u8, 73u8, 109u8, 97u8, 103u8, 101u8];
        let text_needle: Vec<u8> = vec![47u8, 84u8, 101u8, 120u8, 116u8];
        proof {
            assert(image_needle@ =~= image_marker());
            assert(text_needle@ =~= text_marker());
        }
        let image_count = count_occurrences(buffer, image_needle.as_slice());
        let text_count = count_occurrences(buffer, text_needle.as_slice());
        image_count > 10 && text_count < 5
    }

    /// Detects the MIME type and scan heuristic of one file from its name,
    /// size, modification time, and (leading) bytes, which the caller has
    /// already read.
    pub fn detect_bytes(
        path: String,
        extension: String,
        size_bytes: u64,
        bytes: &[u8],
        modified_secs: Option<u64>,
    ) -> (r: FileDetection)
        ensures
            r.path@ == path@,
            r.extension@ == extension@,
            r.size_bytes == size_bytes,
            r.modified_secs == modified_secs,
            r.mime_type@ == spec_detected_mime(bytes@, extension@),
            r.is_scanned_pdf == (spec_detected_mime(bytes@, extension@) == "application/pdf"@
                && count_matches(bytes@, image_marker()) > 10 && count_matches(
                bytes@,
                text_marker(),
            ) < 5),
    {
        let mime_type: String = match sniff_mime(bytes) {
            Some(m) => m,
            None => match mime_from_ext(extension.as_str()) {
                Some(m) => m,
                None => "application/octet-stream".to_owned(),
            },
        };
        let is_pdf = str_eq(mime_type.as_str(), "application/pdf");
        let is_scanned_pdf = is_pdf && Self::is_likely_scanned_pdf(bytes);
        FileDetection { path, mime_type, extension, size_bytes, is_scanned_pdf, modified_secs }
    }
}

} // verus!
