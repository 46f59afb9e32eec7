//! Waiting for the RP2040 boot-ROM drive (`RPI-RP2`) to appear and finding
//! where it is mounted.

use vstd::prelude::*;
use vstd::string::{StrSliceExecFns, StringExecFns};
use crate::text::{
    chars_of, fields, find_non_whitespace, find_whitespace, lemma_skip_whitespace_bounds,
    lemma_skip_word_bounds, skip_whitespace, skip_word,
};

verus! {

/// Index of the first newline at or after `i`, or the length of the text.
pub open spec fn line_end(s: Seq<char>, i: int) -> int
    decreases s.len() - i,
{
    if i < 0 || i >= s.len() {
        s.len() as int
    } else if s[i] == '\n' {
        i
    } else {
        line_end(s, i + 1)
    }
}

/// Where the mount table `text` (lines of whitespace-separated fields, as
/// `/proc/mounts`) says `device` is mounted, looking at the lines from the one
/// that starts at `i`: the second field of the first line that has at least
/// two fields and whose first field is the device.
pub open spec fn mount_point_from(text: Seq<char>, device: Seq<char>, i: int) -> Option<Seq<char>>
    decreases text.len() - i,
{
    if i < 0 || i > text.len() {
        None
    } else {
        let e = line_end(text, i);
        let f = fields(text, i, e);
        if f.len() >= 2 && f[0] == device {
            Some(f[1])
        } else if e >= text.len() {
            None
        } else {
            proof {
                lemma_line_end_bounds(text, i);
            }
            mount_point_from(text, device, e + 1)
        }
    }
}

/// The line end lies between `i` and the end of the text.
pub proof fn lemma_line_end_bounds(s: Seq<char>, i: int)
    requires
        0 <= i <= s.len(),
    ensures
        i <= line_end(s, i) <= s.len(),
        line_end(s, i) < s.len() ==> s[line_end(s, i)] == '\n',
    decreases s.len() - i,
{
    if i < s.len() && s[i] != '\n' {
        lemma_line_end_bounds(s, i + 1);
    }
}

fn find_newline(s: &Vec<char>, i: usize) -> (r: usize)
    requires
        i <= s@.len(),
    ensures
        r == line_end(s@, i as int),
{
    let mut j = i;
    while j < s.len() && s[j] != '\n'
        invariant
            i <= j <= s@.len(),
            line_end(s@, i as int) == line_end(s@, j as int),
        decreases s@.len() - j,
    {
        j = j + 1;
    }
    j
}

fn same_chars(s: &Vec<char>, a: usize, b: usize, t: &Vec<char>) -> (r: bool)
    requires
        a <= b <= s@.len(),
    ensures
        r == (s@.subrange(a as int, b as int) == t@),
{
    if b - a != t.len() {
        assert(s@.subrange(a as int, b as int).len() != t@.len());
        return false;
    }
    let mut k: usize = 0;
    while k < t.len()
        invariant
            a <= b <= s@.len(),
            b - a == t@.len(),
            k <= t@.len(),
            forall|q: int| 0 <= q < k ==> s@[a + q] == t@[q],
        decreases t@.len() - k,
    {
        if s[a + k] != t[k] {
            assert(s@.subrange(a as int, b as int)[k as int] != t@[k as int]);
            return false;
        }
        k = k + 1;
    }
    assert(s@.subrange(a as int, b as int) =~= t@);
    true
}

/// Where the mount table says `device` is mounted.
pub fn mount_point_of(mounts: &str, device: &str) -> (r: Option<String>)
    ensures
        match r {
            Some(m) => mount_point_from(mounts@, device@, 0) == Some(m@),
            None => mount_point_from(mounts@, device@, 0) is None,
        },
{
    let text = chars_of(mounts);
    let dev = chars_of(device);
    let n = text.len();
    let mut i: usize = 0;
    loop
        invariant
            i <= n == text@.len(),
            text@ == mounts@,
            dev@ == device@,
            mount_point_from(mounts@, device@, 0) == mount_point_from(mounts@, device@, i as int),
        decreases n - i,
    {
        let e = find_newline(&text, i);
        proof {
            lemma_line_end_bounds(text@, i as int);
        }
        let a = find_non_whitespace(&text, i, e);
        proof {
            lemma_skip_whitespace_bounds(text@, i as int, e as int);
        }
        if a < e {
            let b = find_whitespace(&text, a, e);
            proof {
                lemma_skip_word_bounds(text@, a as int, e as int);
            }
            let c = find_non_whitespace(&text, b, e);
            proof {
                lemma_skip_whitespace_bounds(text@, b as int, e as int);
                assert(fields(text@, i as int, e as int) == seq![text@.subrange(a as int, b as int)] + fields(
                    text@,
                    b as int,
                    e as int,
                ));
            }
            if c < e {
                let d = find_whitespace(&text, c, e);
                proof {
                    lemma_skip_word_bounds(text@, c as int, e as int);
                    assert(fields(text@, b as int, e as int) == seq![text@.subrange(c as int, d as int)]
                        + fields(text@, d as int, e as int));
                }
                let ghost f = fields(text@, i as int, e as int);
                assert(f.len() >= 2);
                assert(f[0] == text@.subrange(a as int, b as int));
                assert(f[1] == text@.subrange(c as int, d as int));
                if same_chars(&text, a, b, &dev) {
                    return Some(String::from_str(mounts.substring_char(c, d)));
                }
            } else {
                proof {
                    assert(fields(text@, b as int, e as int) =~= Seq::<Seq<char>>::empty());
                }
            }
        } else {
            proof {
                assert(fields(text@, i as int, e as int) =~= Seq::<Seq<char>>::empty());
            }
        }
        if e >= n {
            return None;
        }
        i = e + 1;
    }
}

/// What one look for the boot-ROM drive found.
pub enum Rp2Observation {
    /// The deadline has passed.
    TimedOut,
    /// `/dev/disk/by-label/RPI-RP2` does not exist.
    Absent,
    /// The drive exists: the text of `/proc/mounts` and the canonical path of
    /// the device (each empty when it could not be read).
    Present {
        /// The mount table.
        mounts: String,
        /// The device path.
        device: String,
    },
}

/// What to do next while waiting for the boot-ROM drive.
#[derive(Debug, PartialEq, Eq)]
pub enum Rp2Action {
    /// The drive is mounted here: done.
    Mounted(String),
    /// Mount this device on a temporary mount point: done if that succeeds,
    /// otherwise wait.
    Mount(String),
    /// Sleep 500 ms and look again.
    Wait,
    /// Stop: the drive did not appear in time.
    GiveUp,
}

/// One step of waiting for the boot-ROM drive: give up after the deadline;
/// wait while it is absent; once present, use its mount point from the mount
/// table, or mount it when the table does not list it.
pub fn wait_for_rpi_rp2(observation: Rp2Observation) -> (r: Rp2Action)
    ensures
        match observation {
            Rp2Observation::TimedOut => r == Rp2Action::GiveUp,
            Rp2Observation::Absent => r == Rp2Action::Wait,
            Rp2Observation::Present { mounts, device } => match mount_point_from(mounts@, device@, 0) {
                Some(m) => r matches Rp2Action::Mounted(p) && p@ == m,
                None => r matches Rp2Action::Mount(d) && d@ == device@,
            },
        },
{
    match observation {
        Rp2Observation::TimedOut => Rp2Action::GiveUp,
        Rp2Observation::Absent => Rp2Action::Wait,
        Rp2Observation::Present { mounts, device } => match mount_point_of(mounts.as_str(), device.as_str()) {
            Some(m) => Rp2Action::Mounted(m),
            None => Rp2Action::Mount(device),
        },
    }
}

} // verus!
