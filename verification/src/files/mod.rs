//! Files: the application data layout, the size rules for thumbnails and
//! upload copies, output naming, the content fingerprint of a file, and the
//! JPEG header scan behind scaled decoding.

pub mod calendar;
pub mod decode;
pub mod fingerprint;
pub mod naming;
pub mod preview;
pub mod thumb;

pub use calendar::date_yymmdd;
pub use fingerprint::content_hash_bytes;
pub use naming::{normalize_ext, output_ext_from_path, output_filename, sanitize_filename};

use std::path::PathBuf;
use vstd::prelude::*;
use vstd::std_specs::convert::IntoSpec;

verus! {

/// Long edge of a thumbnail, in pixels.
pub const THUMB_MAX: u32 = 512;

/// Long edge above which an upload copy is made.
pub const UPLOAD_MAX_EDGE: u32 = 2048;

/// Size in bytes above which an upload copy is made.
pub const UPLOAD_MAX_BYTES: u64 = 3 * 1024 * 1024;

/// Whether an image needs a separate upload copy: either edge is longer than
/// `UPLOAD_MAX_EDGE`, or the file is larger than `UPLOAD_MAX_BYTES`. All
/// three inputs come from the file header and its length, so the answer is
/// known before decoding.
pub fn is_oversize(w: u32, h: u32, byte_len: u64) -> (r: bool)
    ensures
        r == (w > UPLOAD_MAX_EDGE || h > UPLOAD_MAX_EDGE || byte_len > UPLOAD_MAX_BYTES),
{
    w > UPLOAD_MAX_EDGE || h > UPLOAD_MAX_EDGE || byte_len > UPLOAD_MAX_BYTES
}

#[verifier::external_type_specification]
#[verifier::external_body]
pub struct ExPathBuf(PathBuf);

/// `root.join(name)`: the path `name` under `root`, written with the
/// separator of the platform the program was built for.
pub uninterp spec fn joined(root: PathBuf, name: Seq<char>) -> PathBuf;

/// `PathBuf::join`. Trusted: the result is `joined` of the base path and
/// the name (a function of the two for a given build; no property of the
/// path's text is stated, since a `PathBuf` has no view here).
#[verifier::external_body]
fn join_name(root: &PathBuf, name: &str) -> (r: PathBuf)
    ensures
        r == joined(*root, name@),
{
    root.join(name)
}

/// The application data directory and its fixed layout.
pub struct DataDirs {
    pub root: PathBuf,
}

impl DataDirs {
    /// The layout under `root` (anything that converts into a path): its
    /// root is `root.into()`, as std's conversion of that type gives it.
    pub fn new<R: Into<PathBuf>>(root: R) -> (r: Self)
        ensures
            <R as IntoSpec<PathBuf>>::obeys_into_spec() ==> r.root == root.into_spec(),
    {
        DataDirs { root: root.into() }
    }

    /// The database file, `root/gendesk.db`.
    pub fn db(&self) -> (r: PathBuf)
        ensures
            r == joined(self.root, "gendesk.db"@),
    {
        join_name(&self.root, "gendesk.db")
    }

    /// Imported reference images, `root/refs`.
    pub fn refs(&self) -> (r: PathBuf)
        ensures
            r == joined(self.root, "refs"@),
    {
        join_name(&self.root, "refs")
    }

    /// Thumbnails, `root/thumbs`.
    pub fn thumbs(&self) -> (r: PathBuf)
        ensures
            r == joined(self.root, "thumbs"@),
    {
        join_name(&self.root, "thumbs")
    }

    /// Cached preview thumbnails of work-order reference images,
    /// `root/previews`; a pure cache, safe to delete at any time.
    pub fn previews(&self) -> (r: PathBuf)
        ensures
            r == joined(self.root, "previews"@),
    {
        join_name(&self.root, "previews")
    }

    /// Accepted outputs, `root/outputs`.
    pub fn outputs(&self) -> (r: PathBuf)
        ensures
            r == joined(self.root, "outputs"@),
    {
        join_name(&self.root, "outputs")
    }

    /// Generated results awaiting review, `root/results`.
    pub fn results(&self) -> (r: PathBuf)
        ensures
            r == joined(self.root, "results"@),
    {
        join_name(&self.root, "results")
    }

    /// The trash, `root/trash`.
    pub fn trash(&self) -> (r: PathBuf)
        ensures
            r == joined(self.root, "trash"@),
    {
        join_name(&self.root, "trash")
    }

    /// Logs, `root/logs`.
    pub fn logs(&self) -> (r: PathBuf)
        ensures
            r == joined(self.root, "logs"@),
    {
        join_name(&self.root, "logs")
    }

    /// Image-to-video clips and their covers, `root/clips`.
    pub fn clips(&self) -> (r: PathBuf)
        ensures
            r == joined(self.root, "clips"@),
    {
        join_name(&self.root, "clips")
    }
}

} // verus!
