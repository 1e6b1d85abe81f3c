//! Whether a mount point is in use: the decision over what looking at the
//! mount point showed.
use vstd::prelude::*;
use vstd::string::*;
use crate::text::to_chars;

verus! {

/// The error number of "transport endpoint is not connected": what is left
/// of a mount whose process died.
pub const ENOTCONN: i32 = 107;

/// `needle` stands in `hay` at `at`, within one line.
pub open spec fn occurs_at(hay: Seq<char>, needle: Seq<char>, at: int) -> bool {
    &&& 0 <= at
    &&& at + needle.len() <= hay.len()
    &&& hay.subrange(at, at + needle.len()) == needle
    &&& forall|k: int| 0 <= k < needle.len() ==> needle[k] != '\n'
}

/// Some line of `hay` holds `needle`.
pub open spec fn occurs_in_a_line(hay: Seq<char>, needle: Seq<char>) -> bool {
    exists|at: int| #[trigger] occurs_at(hay, needle, at)
}

/// A mount is in use at a path: the path is a mount point, or looking at it
/// fails because the other end is gone, or the table of mounts names it.
pub open spec fn mount_detected_spec(
    accessible: bool,
    is_mountpoint: bool,
    os_error: Option<i32>,
    listed: bool,
) -> bool {
    (accessible && is_mountpoint) || (!accessible && os_error == Some(ENOTCONN)) || listed
}

/// Whether some line of `content` holds `path`.
pub fn mentions(content: &str, path: &str) -> (r: bool)
    ensures
        r == occurs_in_a_line(content@, path@),
{
    let hay = to_chars(content);
    let needle = to_chars(path);
    let mut k: usize = 0;
    while k < needle.len()
        invariant
            needle@ == path@,
            k <= needle.len(),
            forall|j: int| 0 <= j < k ==> needle@[j] != '\n',
        decreases needle.len() - k,
    {
        if needle[k] == '\n' {
            proof {
                assert forall|at: int| !#[trigger] occurs_at(content@, path@, at) by {}
            }
            return false;
        }
        k += 1;
    }
    if needle.len() > hay.len() {
        proof {
            assert forall|at: int| !#[trigger] occurs_at(content@, path@, at) by {}
        }
        return false;
    }
    let last = hay.len() - needle.len();
    let mut at: usize = 0;
    while at <= last
        invariant
            hay@ == content@,
            needle@ == path@,
            last == hay.len() - needle.len(),
            at <= last + 1,
            forall|j: int| 0 <= j < needle.len() ==> needle@[j] != '\n',
            forall|a: int| 0 <= a < at ==> !#[trigger] occurs_at(content@, path@, a),
        decreases last + 1 - at,
    {
        let mut j: usize = 0;
        let mut same = true;
        while j < needle.len() && same
            invariant
                hay@ == content@,
                needle@ == path@,
                at + needle.len() <= hay.len(),
                j <= needle.len(),
                same ==> forall|i: int| 0 <= i < j ==> hay@[at + i] == needle@[i],
                !same ==> exists|i: int| 0 <= i < needle.len() && hay@[at + i] != needle@[i],
            decreases needle.len() - j, if same { 1int } else { 0int },
        {
            if hay[at + j] != needle[j] {
                same = false;
            } else {
                j += 1;
            }
        }
        if same {
            proof {
                assert(content@.subrange(at as int, at + needle.len()) =~= path@);
                assert(occurs_at(content@, path@, at as int));
            }
            return true;
        }
        proof {
            let i = choose|i: int| 0 <= i < needle.len() && hay@[at + i] != needle@[i];
            assert(content@.subrange(at as int, at + needle.len())[i] == hay@[at + i]);
        }
        at += 1;
    }
    proof {
        assert forall|a: int| !#[trigger] occurs_at(content@, path@, a) by {}
    }
    false
}

/// Whether a mount is in use at a path, given what looking at the path
/// showed: whether it is accessible, whether it is a mount point, the error
/// number where it is not accessible, and whether the table of mounts names
/// it.
pub fn is_mounted(accessible: bool, is_mountpoint: bool, os_error: Option<i32>, listed: bool) -> (r:
    bool)
    ensures
        r == mount_detected_spec(accessible, is_mountpoint, os_error, listed),
{
    if accessible {
        if is_mountpoint {
            return true;
        }
    } else {
        match os_error {
            Some(code) => {
                if code == ENOTCONN {
                    return true;
                }
            },
            None => {},
        }
    }
    listed
}

} // verus!
