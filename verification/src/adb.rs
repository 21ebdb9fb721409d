//! Decision logic around the bridge tool: classifying an invocation's
//! output, finding the shell sentinel, and reading the device list.
//! The process handling itself lives outside the library.

use crate::strutil::{
    cut_line, scan_to, spec_contains, str_contains, str_starts_with, strip_cr,
};
use vstd::prelude::*;

verus! {

/// An error around the bridge tool: a process-level failure, or an error
/// the tool itself reported.
#[derive(Debug)]
pub enum AdbErr {
    IO(String),
    Adb(String),
}

/// Classify one finished bridge invocation by its two output streams:
/// anything on the error stream is the tool's error; otherwise output
/// that announces an error is one; otherwise the output stands.
pub fn classify_adb_output(stderr: String, stdout: String) -> (r: Result<String, AdbErr>)
    ensures
        match r {
            Ok(s) => stderr@.len() == 0 && !"adb: error:"@.is_prefix_of(stdout@) && s@ == stdout@,
            Err(e) => match e {
                AdbErr::Adb(m) => (stderr@.len() > 0 && m@ == stderr@) || (stderr@.len() == 0
                    && "adb: error:"@.is_prefix_of(stdout@) && m@ == stdout@),
                AdbErr::IO(_) => false,
            },
        },
{
    if stderr.as_str().unicode_len() > 0 {
        Err(AdbErr::Adb(stderr))
    } else if str_starts_with(stdout.as_str(), "adb: error:") {
        Err(AdbErr::Adb(stdout))
    } else {
        Ok(stdout)
    }
}

/// The marker the shell runner appends to a command so it can see where
/// the command's output ends.
pub open spec fn spec_cmd_end() -> Seq<char> {
    seq!['A', 'D', 'B', 'S', 'Y', 'N', 'C', 'E', 'N', 'D']
}

/// The whitespace the shell may append after the sentinel.
pub open spec fn is_shell_space(c: char) -> bool {
    c == ' ' || c == '\t' || c == '\r' || c == '\n'
}

/// A buffer with its trailing whitespace removed.
pub open spec fn trim_end_spaces(s: Seq<char>) -> Seq<char>
    decreases s.len(),
{
    if s.len() > 0 && is_shell_space(s.last()) {
        trim_end_spaces(s.drop_last())
    } else {
        s
    }
}

proof fn lemma_trim_take(s: Seq<char>, t: int)
    requires
        0 <= t <= s.len(),
        forall|k: int| t <= k < s.len() ==> is_shell_space(#[trigger] s[k]),
        t == 0 || !is_shell_space(s[t - 1]),
    ensures
        trim_end_spaces(s) == s.take(t),
    decreases s.len(),
{
    if s.len() == t {
        assert(s.take(t) =~= s);
    } else {
        assert(is_shell_space(s.last()));
        lemma_trim_take(s.drop_last(), t);
        assert(s.drop_last().take(t) =~= s.take(t));
    }
}

fn is_shell_space_at(buf: &str, i: usize) -> (r: bool)
    requires
        i < buf@.len(),
    ensures
        r == is_shell_space(buf@[i as int]),
{
    let c = buf.get_char(i);
    c == ' ' || c == '\t' || c == '\r' || c == '\n'
}

/// Position after which only whitespace follows.
fn trim_point(buf: &str) -> (r: usize)
    ensures
        r <= buf@.len(),
        trim_end_spaces(buf@) == buf@.take(r as int),
{
    let n = buf.unicode_len();
    let mut t: usize = n;
    while t > 0 && is_shell_space_at(buf, t - 1)
        invariant
            0 <= t <= n,
            n == buf@.len(),
            forall|k: int| t <= k < n ==> is_shell_space(#[trigger] buf@[k]),
        decreases t,
    {
        t = t - 1;
    }
    proof {
        lemma_trim_take(buf@, t as int);
    }
    t
}

/// Whether the buffered shell output is complete: ignoring trailing
/// whitespace, it ends with the sentinel.
pub fn shell_response_complete(buf: &str) -> (r: bool)
    ensures
        r == spec_cmd_end().is_suffix_of(trim_end_spaces(buf@)),
{
    proof {
        reveal_strlit("ADBSYNCEND");
        assert("ADBSYNCEND"@ =~= spec_cmd_end());
    }
    let t = trim_point(buf);
    if t < 10 {
        assert(trim_end_spaces(buf@).len() < 10);
        return false;
    }
    let piece = buf.substring_char(t - 10, t);
    let r = crate::strutil::str_eq(piece, "ADBSYNCEND");
    proof {
        let trimmed = trim_end_spaces(buf@);
        assert(trimmed.subrange(trimmed.len() - 10, trimmed.len() as int) =~= buf@.subrange(
            t - 10,
            t as int,
        ));
        assert(spec_cmd_end().is_suffix_of(trimmed) == (trimmed.subrange(
            trimmed.len() - 10,
            trimmed.len() as int,
        ) == spec_cmd_end()));
    }
    r
}

/// A complete response with the sentinel (and the whitespace after it)
/// removed: the command's own output.
pub fn shell_response_extract(buf: &str) -> (r: String)
    requires
        spec_cmd_end().is_suffix_of(trim_end_spaces(buf@)),
    ensures
        r@ == trim_end_spaces(buf@).take(trim_end_spaces(buf@).len() - 10),
{
    let t = trim_point(buf);
    let piece = buf.substring_char(0, t - 10);
    proof {
        let trimmed = trim_end_spaces(buf@);
        assert(buf@.subrange(0, t - 10) =~= trimmed.take(trimmed.len() - 10));
    }
    piece.to_owned()
}

/// The token that marks a listed device as attached and authorized.
pub open spec fn spec_tab_device() -> Seq<char> {
    seq!['\t', 'd', 'e', 'v', 'i', 'c', 'e']
}

/// Number of lines, from position `i` on, that carry the device marker.
pub open spec fn count_device_lines(s: Seq<char>, i: int) -> int
    decreases s.len() - i,
{
    if i >= s.len() {
        0int
    } else {
        let e = scan_to(s, i, '\n');
        if e < i || e > s.len() {
            0int
        } else {
            let line = strip_cr(s.subrange(i, e));
            (if spec_contains(line, spec_tab_device()) {
                1int
            } else {
                0int
            }) + if e < s.len() {
                count_device_lines(s, e + 1)
            } else {
                0int
            }
        }
    }
}

/// Count the lines of a device listing that announce an attached,
/// authorized device.
pub fn count_devices(devices: &str) -> (r: usize)
    ensures
        r == count_device_lines(devices@, 0),
{
    let n = devices.unicode_len();
    let mut p: usize = 0;
    let mut cnt: usize = 0;
    while p < n
        invariant
            0 <= p <= n,
            n == devices@.len(),
            cnt <= p,
            cnt + count_device_lines(devices@, p as int) == count_device_lines(devices@, 0),
        decreases n - p,
    {
        proof {
            reveal_strlit("\tdevice");
            assert("\tdevice"@ =~= spec_tab_device());
            crate::strutil::lemma_scan_to(devices@, p as int, '\n');
        }
        let e = crate::strutil::find_to(devices, p, '\n');
        let line = cut_line(devices, p, e);
        if str_contains(line.as_str(), "\tdevice") {
            cnt = cnt + 1;
        }
        if e < n {
            p = e + 1;
        } else {
            p = n;
        }
    }
    cnt
}

/// Read the device list: one attached device means connected, none means
/// not connected (a caller may then try discovery), and more than one is
/// an error the caller surfaces.
pub fn adb_connect(devices: &str) -> (r: Result<bool, AdbErr>)
    ensures
        match r {
            Ok(b) => count_device_lines(devices@, 0) <= 1 && b == (count_device_lines(devices@, 0)
                == 1),
            Err(e) => count_device_lines(devices@, 0) > 1 && e is Adb,
        },
{
    let n = count_devices(devices);
    if n == 0 {
        Ok(false)
    } else if n == 1 {
        Ok(true)
    } else {
        Err(AdbErr::Adb("more than 1 device connected".to_owned()))
    }
}

} // verus!
