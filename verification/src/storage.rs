//! Workspace bookkeeping and content hashing.
//!
//! Directory creation and file reading are the caller's concern; the
//! storage record tracks which directories were chosen, and hashing works
//! on bytes already read.

use sha2::Digest;
use vstd::prelude::*;

verus! {

/// What the digest of these bytes is. Relied on as a function of the bytes
/// alone; its definition is the hash function's.
pub uninterp spec fn sha256_of(bytes: Seq<u8>) -> Seq<u8>;

/// The lowercase hex digit of a nibble.
pub open spec fn hex_digit(n: u8) -> char
    recommends
        n < 16,
{
    if n < 10 {
        (48 + n) as char
    } else {
        (87 + n) as char
    }
}

/// Lowercase hex encoding: two digits per byte, high nibble first.
pub open spec fn hex_of(bytes: Seq<u8>) -> Seq<char> {
    Seq::new(
        bytes.len() * 2,
        |i: int|
            if i % 2 == 0 {
                hex_digit(bytes[i / 2] / 16)
            } else {
                hex_digit(bytes[i / 2] % 16)
            },
    )
}

/// Relies on sha2's `Sha256`: the 32-byte digest of the given bytes,
/// determined by the bytes alone.
#[verifier::external_body]
fn sha256(content: &[u8]) -> (r: Vec<u8>)
    ensures
        r@ == sha256_of(content@),
        r@.len() == 32,
{
    sha2::Sha256::digest(content).to_vec()
}

/// Relies on hex's `encode`: the lowercase hex text of the given bytes,
/// two digits per byte with the high nibble first.
#[verifier::external_body]
fn hex_encode(bytes: &Vec<u8>) -> (r: String)
    ensures
        r@ == hex_of(bytes@),
{
    hex::encode(bytes)
}

/// Storage bookkeeping: the workspace and cache directories, once chosen.
pub struct Storage {
    workspace_dir: Option<String>,
    cache_dir: Option<String>,
}

/// Mathematical model of a [`Storage`].
pub ghost struct StorageView {
    pub workspace_dir: Option<Seq<char>>,
    pub cache_dir: Option<Seq<char>>,
}

impl View for Storage {
    type V = StorageView;

    closed spec fn view(&self) -> StorageView {
        StorageView {
            workspace_dir: self.workspace_dir.deep_view(),
            cache_dir: self.cache_dir.deep_view(),
        }
    }
}

impl Storage {
    /// Storage with no directories chosen yet.
    pub fn new() -> (r: Storage)
        ensures
            r@.workspace_dir is None,
            r@.cache_dir is None,
    {
        Storage { workspace_dir: None, cache_dir: None }
    }

    /// Records the chosen workspace and cache directories; creating them
    /// on disk is the caller's concern.
    pub fn init(&mut self, workspace_dir: String, cache_dir: String)
        ensures
            final(self)@.workspace_dir == Some(workspace_dir@),
            final(self)@.cache_dir == Some(cache_dir@),
    {
        self.workspace_dir = Some(workspace_dir);
        self.cache_dir = Some(cache_dir);
    }

    /// The chosen workspace directory.
    pub fn workspace_dir(&self) -> (r: Option<&String>)
        ensures
            r.deep_view() == self@.workspace_dir,
    {
        self.workspace_dir.as_ref()
    }

    /// The chosen cache directory.
    pub fn cache_dir(&self) -> (r: Option<&String>)
        ensures
            r.deep_view() == self@.cache_dir,
    {
        self.cache_dir.as_ref()
    }

    /// The cache key of file contents: the lowercase hex text of their
    /// digest.
    pub fn compute_hash(content: &[u8]) -> (r: String)
        ensures
            r@ == hex_of(sha256_of(content@)),
            r@.len() == 64,
    {
        let digest = sha256(content);
        hex_encode(&digest)
    }
}

impl Default for Storage {
    fn default() -> (r: Self)
        ensures
            r@.workspace_dir is None,
            r@.cache_dir is None,
    {
        Storage::new()
    }
}

} // verus!
