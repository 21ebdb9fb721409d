//! Entry model: the value type describing one filesystem object.

use vstd::prelude::*;

verus! {

/// The kind of one filesystem object, decoded from a backend mode word.
#[derive(Clone, Copy, Debug, PartialEq, Eq, Structural, Hash)]
pub enum FileMode {
    File,
    Dir,
    Symlink,
}

/// The three recognized bit patterns of a backend mode word, or `None` for
/// any other word (a malformed listing).
pub open spec fn mode_word_kind(mode: u32) -> Option<FileMode> {
    if mode >> 13 == 0b100 {
        Some(FileMode::File)
    } else if mode >> 13 == 0b010 {
        Some(FileMode::Dir)
    } else if mode >> 13 == 0b101 {
        Some(FileMode::Symlink)
    } else {
        None
    }
}

impl FileMode {
    /// Decode a backend mode word whose type bits are known to be one of the
    /// three recognized patterns; `try_from_u32` checks an arbitrary word.
    pub fn from_u32(mode: u32) -> (r: Self)
        requires
            mode_word_kind(mode) is Some,
        ensures
            mode_word_kind(mode) == Some(r),
    {
        let bits = mode >> 13;
        if bits == 0b100 {
            FileMode::File
        } else if bits == 0b010 {
            FileMode::Dir
        } else {
            FileMode::Symlink
        }
    }

    /// Decode an arbitrary backend mode word; an unrecognized word yields
    /// `None` and is treated by callers as a malformed listing.
    pub fn try_from_u32(mode: u32) -> (r: Option<Self>)
        ensures
            r == mode_word_kind(mode),
    {
        let bits = mode >> 13;
        if bits == 0b100 {
            Some(FileMode::File)
        } else if bits == 0b010 {
            Some(FileMode::Dir)
        } else if bits == 0b101 {
            Some(FileMode::Symlink)
        } else {
            None
        }
    }

    /// Classify an entry from the three metadata predicates a local backend
    /// reports; anything that is neither file, directory nor symlink yields
    /// `None` (a malformed listing).
    pub fn from_flags(is_dir: bool, is_file: bool, is_symlink: bool) -> (r: Option<Self>)
        ensures
            is_dir ==> r == Some(FileMode::Dir),
            !is_dir && is_file ==> r == Some(FileMode::File),
            !is_dir && !is_file && is_symlink ==> r == Some(FileMode::Symlink),
            !is_dir && !is_file && !is_symlink ==> r is None,
    {
        if is_dir {
            Some(FileMode::Dir)
        } else if is_file {
            Some(FileMode::File)
        } else if is_symlink {
            Some(FileMode::Symlink)
        } else {
            None
        }
    }
}

/// One filesystem object with its metadata, as a backend lists it.
pub struct SyncFile {
    /// File, directory or symlink.
    pub mode: FileMode,
    /// Byte count; 0 for directories.
    pub size: u32,
    /// Modification time, truncated Unix seconds.
    pub timestamp: u32,
    /// Final path component.
    pub name: String,
    /// Full path on its own backend, forward-slash separated.
    pub path: String,
}

/// Mathematical image of a `SyncFile`.
pub struct SyncFileV {
    pub mode: FileMode,
    pub size: u32,
    pub timestamp: u32,
    pub name: Seq<char>,
    pub path: Seq<char>,
}

impl View for SyncFile {
    type V = SyncFileV;

    open spec fn view(&self) -> SyncFileV {
        SyncFileV {
            mode: self.mode,
            size: self.size,
            timestamp: self.timestamp,
            name: self.name@,
            path: self.path@,
        }
    }
}

impl SyncFile {
    /// A deep copy whose abstract value equals the original's.
    pub fn duplicate(&self) -> (r: SyncFile)
        ensures
            r@ == self@,
    {
        SyncFile {
            mode: self.mode,
            size: self.size,
            timestamp: self.timestamp,
            name: self.name.clone(),
            path: self.path.clone(),
        }
    }
}

/// Numeric value of one hexadecimal digit, or an unused value for other
/// characters.
pub open spec fn hex_digit_val(c: char) -> nat {
    if '0' <= c && c <= '9' {
        (c as nat - '0' as nat) as nat
    } else if 'a' <= c && c <= 'f' {
        (c as nat - 'a' as nat + 10) as nat
    } else if 'A' <= c && c <= 'F' {
        (c as nat - 'A' as nat + 10) as nat
    } else {
        0
    }
}

pub open spec fn is_hex_digit(c: char) -> bool {
    ('0' <= c && c <= '9') || ('a' <= c && c <= 'f') || ('A' <= c && c <= 'F')
}

/// Value of a big-endian string of hexadecimal digits.
pub open spec fn hex_val(s: Seq<char>) -> nat
    decreases s.len(),
{
    if s.len() == 0 {
        0
    } else {
        hex_val(s.drop_last()) * 16 + hex_digit_val(s.last())
    }
}

/// 16 to the n-th power.
pub open spec fn pow16(n: nat) -> nat
    decreases n,
{
    if n == 0 {
        1nat
    } else {
        16 * pow16((n - 1) as nat)
    }
}

pub proof fn lemma_hex_val_bound(s: Seq<char>)
    ensures
        hex_val(s) < pow16(s.len()),
    decreases s.len(),
{
    if s.len() > 0 {
        lemma_hex_val_bound(s.drop_last());
    }
}

proof fn lemma_pow16_mono(a: nat, b: nat)
    requires
        a <= b,
    ensures
        pow16(a) <= pow16(b),
    decreases b,
{
    if a < b && b > 0 {
        lemma_pow16_mono(a, (b - 1) as nat);
    }
}

/// Abstraction of a sequence of entries.
pub open spec fn sfs_view(s: Seq<SyncFile>) -> Seq<SyncFileV> {
    Seq::new(s.len(), |i: int| s[i]@)
}

/// A listing token: one to eight hexadecimal digits, as the backend's
/// fixed-width records carry numbers.
pub open spec fn hex_token(t: Seq<char>) -> bool {
    1 <= t.len() <= 8 && forall|i: int| 0 <= i < t.len() ==> is_hex_digit(#[trigger] t[i])
}

/// Check `hex_token` at run time.
pub fn check_hex_token(t: &str) -> (r: bool)
    ensures
        r == hex_token(t@),
{
    let n = t.unicode_len();
    if n < 1 || n > 8 {
        return false;
    }
    let mut i: usize = 0;
    while i < n
        invariant
            0 <= i <= n,
            n == t@.len(),
            forall|k: int| 0 <= k < i ==> is_hex_digit(#[trigger] t@[k]),
        decreases n - i,
    {
        let c = t.get_char(i);
        let v = c as u32;
        let is_digit = (48 <= v && v <= 57) || (97 <= v && v <= 102) || (65 <= v && v <= 70);
        if !is_digit {
            assert(!is_hex_digit(t@[i as int]));
            return false;
        }
        i = i + 1;
    }
    true
}

/// The value of a hex token fits 32 bits.
pub proof fn lemma_hex_token_fits(t: Seq<char>)
    requires
        hex_token(t),
    ensures
        hex_val(t) < 0x1_0000_0000,
{
    lemma_hex_val_bound(t);
    lemma_pow16_mono(t.len(), 8);
    assert(pow16(8) == 0x1_0000_0000) by {
        reveal_with_fuel(pow16, 9);
    }
}

/// Parse a string of 1 to 8 hexadecimal digits.
///
/// The backend's listing records sizes, epochs and mode words this way;
/// a string outside this shape is a malformed listing that callers check
/// with `parse_hex` first.
pub fn hex2u32(s: &str) -> (r: u32)
    requires
        1 <= s@.len() <= 8,
        forall|i: int| 0 <= i < s@.len() ==> is_hex_digit(#[trigger] s@[i]),
    ensures
        r == hex_val(s@),
{
    let n = s.unicode_len();
    let mut acc: u32 = 0;
    let mut i: usize = 0;
    while i < n
        invariant
            1 <= n <= 8,
            n == s@.len(),
            0 <= i <= n,
            forall|k: int| 0 <= k < s@.len() ==> is_hex_digit(#[trigger] s@[k]),
            acc == hex_val(s@.subrange(0, i as int)),
        decreases n - i,
    {
        let c = s.get_char(i);
        let v: u32 = char_hex_val(c);
        proof {
            lemma_hex_val_bound(s@.subrange(0, i as int));
            lemma_pow16_mono(i as nat, 7);
            assert(s@.subrange(0, i as int + 1).drop_last() =~= s@.subrange(0, i as int));
            assert(s@.subrange(0, i as int + 1).last() == s@[i as int]);
            assert(pow16(7) == 0x10000000) by {
                reveal_with_fuel(pow16, 8);
            }
        }
        acc = acc * 16 + v;
        i = i + 1;
    }
    proof {
        assert(s@.subrange(0, n as int) =~= s@);
    }
    acc
}

/// Numeric value of one hexadecimal digit character.
fn char_hex_val(c: char) -> (r: u32)
    requires
        is_hex_digit(c),
    ensures
        r == hex_digit_val(c),
        r < 16,
{
    let v = c as u32;
    if v >= 97 {
        v - 87
    } else if v >= 65 {
        v - 55
    } else {
        v - 48
    }
}

} // verus!
