//! Storage backend interface: the capability set the engine drives.
//!
//! Implementations perform real I/O (a local filesystem, a device reached
//! through a bridge tool), so the library states nothing about their
//! effects; the engine's guarantees are over the action plan it derives.

use crate::entry::{
    check_hex_token, hex2u32, hex_token, hex_val, lemma_hex_token_fits, mode_word_kind, sfs_view,
    FileMode, SyncFile, SyncFileV,
};
use crate::path::unix_join;
use crate::strutil::{cut_line, find_to, scan_to, strip_cr, valid_name};
use vstd::prelude::*;

verus! {

/// Ceiling on backend-driven traversal steps. Every verified function of
/// this library terminates, so a walk fed by backend listings carries this
/// bound as a defense against a misbehaving backend that keeps producing
/// entries (a listing cycle); a real hierarchy stays far below it.
pub const TRAVERSAL_LIMIT: u64 = 0x1_0000_0000;

/// Why a synchronization run stopped.
#[derive(Debug)]
pub enum SyncError {
    /// An entry's absolute path does not carry the expected snapshot root;
    /// a defect in tree construction, never a transient condition.
    PrefixMismatch,
    /// A path that is not slash-normalized reached tree construction.
    MalformedPath,
    /// A symlink was encountered; no symlink-handling policy is defined.
    SymlinkUnsupported,
    /// A backend listing does not parse into the expected record shape.
    MalformedListing,
    /// A listed child contradicts its parent listing (bad name or path).
    InconsistentListing,
    /// A backend kept producing entries past the engine's traversal bound.
    ScanLimit,
    /// A backend operation failed; carries the attempted action and path
    /// so the failure can be diagnosed without re-running, and the
    /// backend's own message.
    Backend { action: String, path: String, message: String },
}

/// Capability set of one storage backend side. Listing returns immediate
/// children only, excluding the two self-referential names; creating an
/// existing directory is not an error; directory deletion is recursive.
pub trait FileSystem {
    fn mkdir(&mut self, path: &str) -> Result<(), SyncError>;

    fn list_dir(&mut self, path: &str) -> Result<Vec<SyncFile>, SyncError>;

    fn rm(&mut self, path: &str) -> Result<(), SyncError>;

    fn rm_dir(&mut self, path: &str) -> Result<(), SyncError>;

    fn set_mtime(&mut self, path: &str, timestamp: u32) -> Result<(), SyncError>;

    /// All files below `path`, together with its empty directories: the
    /// first vector holds file entries only, the second directory entries
    /// only; a symlink anywhere below is fatal.
    fn get_all_files(&mut self, path: &str) -> (r: Result<
        (Vec<SyncFile>, Vec<SyncFile>),
        SyncError,
    >)
        ensures
            r matches Ok(p) ==> (forall|k: int|
                0 <= k < p.0@.len() ==> (#[trigger] p.0@[k]).mode == FileMode::File) && (forall|
                k: int,
            |
                0 <= k < p.1@.len() ==> (#[trigger] p.1@[k]).mode == FileMode::Dir),
    {
        let mut pending = self.list_dir(path)?;
        let mut files: Vec<SyncFile> = Vec::new();
        let mut dirs: Vec<SyncFile> = Vec::new();
        let mut budget: u64 = TRAVERSAL_LIMIT;
        loop
            invariant
                forall|k: int| 0 <= k < files@.len() ==> (#[trigger] files@[k]).mode
                    == FileMode::File,
                forall|k: int| 0 <= k < dirs@.len() ==> (#[trigger] dirs@[k]).mode
                    == FileMode::Dir,
            decreases budget,
        {
            if budget == 0 {
                return Err(SyncError::ScanLimit);
            }
            budget = budget - 1;
            match pending.pop() {
                None => {
                    return Ok((files, dirs));
                },
                Some(f) => {
                    match f.mode {
                        FileMode::File => {
                            files.push(f);
                        },
                        FileMode::Dir => {
                            let mut l = self.list_dir(f.path.as_str())?;
                            if l.len() > 0 {
                                pending.append(&mut l);
                            } else {
                                dirs.push(f);
                            }
                        },
                        FileMode::Symlink => {
                            return Err(SyncError::SymlinkUnsupported);
                        },
                    }
                },
            }
        }
    }
}

/// Cross-backend copy capability: copy entries that live on a `SRC`
/// backend into this backend. `timestamp` asks the copy to preserve the
/// given source modification time.
pub trait FSCopyFrom<SRC: FileSystem>: FileSystem {
    fn copy(&mut self, from: &str, to: &str, timestamp: Option<u32>) -> Result<(), SyncError>;

    /// Whole-subtree copy. The default walks the tree and copies entry by
    /// entry; a backend may override it with one native transfer. Its
    /// observable effect is backend state, which this interface leaves
    /// unspecified, so no postcondition is stated.
    fn copy_dir(&mut self, from: &str, to: &str) -> Result<(), SyncError> {
        let mut pending: Vec<(String, String)> = Vec::new();
        pending.push((from.to_owned(), to.to_owned()));
        let mut budget: u64 = TRAVERSAL_LIMIT;
        loop
            decreases budget,
        {
            if budget == 0 {
                return Err(SyncError::ScanLimit);
            }
            budget = budget - 1;
            match pending.pop() {
                None => {
                    return Ok(());
                },
                Some((f, t)) => {
                    self.mkdir(t.as_str())?;
                    let listing = self.list_dir(f.as_str())?;
                    let mut i: usize = 0;
                    while i < listing.len()
                        decreases listing.len() - i,
                    {
                        let to_path = unix_join(t.as_str(), listing[i].name.as_str());
                        match listing[i].mode {
                            FileMode::File => {
                                self.copy(listing[i].path.as_str(), to_path.as_str(), None)?;
                            },
                            FileMode::Dir => {
                                pending.push((listing[i].path.clone(), to_path));
                            },
                            FileMode::Symlink => {
                                return Err(SyncError::SymlinkUnsupported);
                            },
                        }
                        i = i + 1;
                    }
                },
            }
        }
    }
}

/// Verdict on one listing line.
pub enum LineParse {
    /// A self-referential name, excluded from listings.
    Skip,
    /// A well-formed child record.
    Entry(SyncFileV),
    /// Not the expected record shape: a backend contract violation.
    Bad,
}

/// Decode one listing line: three space-separated fixed-width hex tokens
/// (mode word, size, modification epoch) and the entry name, which may
/// itself contain spaces. The two self-referential names are skipped
/// after the first two tokens parse, before the epoch is looked at.
pub open spec fn parse_ls_line(line: Seq<char>, dir: Seq<char>) -> LineParse {
    let a = scan_to(line, 0, ' ');
    if a >= line.len() {
        LineParse::Bad
    } else {
        let mode_tok = line.subrange(0, a);
        if !hex_token(mode_tok) {
            LineParse::Bad
        } else {
            let b = scan_to(line, a + 1, ' ');
            if b >= line.len() {
                LineParse::Bad
            } else {
                let size_tok = line.subrange(a + 1, b);
                if !hex_token(size_tok) {
                    LineParse::Bad
                } else {
                    let c = scan_to(line, b + 1, ' ');
                    if c >= line.len() {
                        LineParse::Bad
                    } else {
                        let ts_tok = line.subrange(b + 1, c);
                        let name = line.subrange(c + 1, line.len() as int);
                        if name == seq!['.'] || name == seq!['.', '.'] {
                            LineParse::Skip
                        } else if !hex_token(ts_tok) {
                            LineParse::Bad
                        } else if !valid_name(name) {
                            LineParse::Bad
                        } else {
                            match mode_word_kind(hex_val(mode_tok) as u32) {
                                None => LineParse::Bad,
                                Some(k) => LineParse::Entry(
                                    SyncFileV {
                                        mode: k,
                                        size: hex_val(size_tok) as u32,
                                        timestamp: hex_val(ts_tok) as u32,
                                        name,
                                        path: dir + seq!['/'] + name,
                                    },
                                ),
                            }
                        }
                    }
                }
            }
        }
    }
}

/// Decode a whole listing, line by line from position `i`; any line that
/// does not parse makes the whole listing malformed.
pub open spec fn parse_ls(s: Seq<char>, dir: Seq<char>, i: int) -> Option<Seq<SyncFileV>>
    decreases s.len() - i,
{
    if i >= s.len() {
        Some(Seq::<SyncFileV>::empty())
    } else {
        let e = scan_to(s, i, '\n');
        if e < i || e > s.len() {
            None
        } else {
            let line = strip_cr(s.subrange(i, e));
            let rest = if e < s.len() {
                parse_ls(s, dir, e + 1)
            } else {
                Some(Seq::<SyncFileV>::empty())
            };
            match parse_ls_line(line, dir) {
                LineParse::Bad => None,
                LineParse::Skip => rest,
                LineParse::Entry(f) => match rest {
                    None => None,
                    Some(r) => Some(seq![f] + r),
                },
            }
        }
    }
}

/// A directory path a listing may be decoded against: non-empty, no
/// trailing separator.
pub open spec fn dir_ok(d: Seq<char>) -> bool {
    d.len() > 0 && d[d.len() - 1] != '/'
}

/// Decode one listing line at run time.
fn parse_line_exec(line: &str, dir: &str) -> (r: Result<Option<SyncFile>, SyncError>)
    requires
        dir_ok(dir@),
    ensures
        match r {
            Ok(Some(sf)) => parse_ls_line(line@, dir@) == LineParse::Entry(sf@),
            Ok(None) => parse_ls_line(line@, dir@) is Skip,
            Err(e) => parse_ls_line(line@, dir@) is Bad && e is MalformedListing,
        },
{
    let n = line.unicode_len();
    let a = find_to(line, 0, ' ');
    if a >= n {
        return Err(SyncError::MalformedListing);
    }
    let mode_tok = line.substring_char(0, a);
    if !check_hex_token(mode_tok) {
        return Err(SyncError::MalformedListing);
    }
    let b = find_to(line, a + 1, ' ');
    if b >= n {
        return Err(SyncError::MalformedListing);
    }
    let size_tok = line.substring_char(a + 1, b);
    if !check_hex_token(size_tok) {
        return Err(SyncError::MalformedListing);
    }
    let c = find_to(line, b + 1, ' ');
    if c >= n {
        return Err(SyncError::MalformedListing);
    }
    let ts_tok = line.substring_char(b + 1, c);
    let name = line.substring_char(c + 1, n);
    proof {
        reveal_strlit(".");
        reveal_strlit("..");
        assert("."@ =~= seq!['.']);
        assert(".."@ =~= seq!['.', '.']);
    }
    if crate::strutil::str_eq(name, ".") || crate::strutil::str_eq(name, "..") {
        return Ok(None);
    }
    if !check_hex_token(ts_tok) {
        return Err(SyncError::MalformedListing);
    }
    if !crate::strutil::check_valid_name(name) {
        return Err(SyncError::MalformedListing);
    }
    proof {
        lemma_hex_token_fits(mode_tok@);
        lemma_hex_token_fits(size_tok@);
        lemma_hex_token_fits(ts_tok@);
    }
    let mode_word = hex2u32(mode_tok);
    match FileMode::try_from_u32(mode_word) {
        None => Err(SyncError::MalformedListing),
        Some(mode) => {
            let size = hex2u32(size_tok);
            let timestamp = hex2u32(ts_tok);
            let path = unix_join(dir, name);
            let sf = SyncFile { mode, size, timestamp, name: name.to_owned(), path };
            Ok(Some(sf))
        },
    }
}

/// Decode a backend's whole listing of one directory into child entries,
/// with each child's path rooted at `dir`. A line that does not parse
/// into the expected record shape is fatal, as is a decode directory
/// that is not slash-normalized.
pub fn parse_ls_output(op: &str, dir: &str) -> (r: Result<Vec<SyncFile>, SyncError>)
    ensures
        match r {
            Ok(v) => dir_ok(dir@) && Some(sfs_view(v@)) == parse_ls(op@, dir@, 0),
            Err(e) => (!dir_ok(dir@) && e is MalformedPath) || (dir_ok(dir@) && parse_ls(
                op@,
                dir@,
                0,
            ) is None && e is MalformedListing),
        },
{
    let dn = dir.unicode_len();
    if dn == 0 || dir.get_char(dn - 1) == '/' {
        return Err(SyncError::MalformedPath);
    }
    let n = op.unicode_len();
    let mut files: Vec<SyncFile> = Vec::new();
    let mut p: usize = 0;
    proof {
        assert(sfs_view(files@) =~= Seq::<SyncFileV>::empty());
    }
    while p < n
        invariant
            0 <= p <= n,
            n == op@.len(),
            dir_ok(dir@),
            parse_ls(op@, dir@, 0) == match parse_ls(op@, dir@, p as int) {
                None => None::<Seq<SyncFileV>>,
                Some(rest) => Some(sfs_view(files@) + rest),
            },
        decreases n - p,
    {
        proof {
            crate::strutil::lemma_scan_to(op@, p as int, '\n');
        }
        let e = find_to(op, p, '\n');
        let line = cut_line(op, p, e);
        let ghost fv0 = sfs_view(files@);
        match parse_line_exec(line.as_str(), dir) {
            Err(err) => {
                return Err(err);
            },
            Ok(None) => {
            },
            Ok(Some(sf)) => {
                let ghost sfv = sf@;
                files.push(sf);
                proof {
                    assert(sfs_view(files@) =~= fv0.push(sfv));
                    if e < n {
                        match parse_ls(op@, dir@, e + 1) {
                            None => {
                            },
                            Some(rest) => {
                                assert(fv0 + (seq![sfv] + rest) =~= fv0.push(sfv) + rest);
                            },
                        }
                    } else {
                        assert(fv0 + (seq![sfv] + Seq::<SyncFileV>::empty()) =~= fv0.push(sfv)
                            + Seq::<SyncFileV>::empty());
                    }
                }
            },
        }
        if e < n {
            p = e + 1;
        } else {
            proof {
                if parse_ls(op@, dir@, p as int) is Some {
                    assert(parse_ls(op@, dir@, n as int) == Some(Seq::<SyncFileV>::empty()));
                }
            }
            p = n;
        }
    }
    proof {
        assert(parse_ls(op@, dir@, n as int) == Some(Seq::<SyncFileV>::empty()));
        assert(sfs_view(files@) + Seq::<SyncFileV>::empty() =~= sfs_view(files@));
    }
    Ok(files)
}

} // verus!
