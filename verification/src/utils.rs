//! Filename helpers used when mapping link targets between source and
//! build extensions.

use vstd::prelude::*;
use vstd::string::StrSliceExecFns;
use crate::text::{chars_of, copy_range, string_from_chars};

verus! {

/// The index of the last `.` in `s`, or `-1` if there is none.
pub open spec fn rfind_dot(s: Seq<char>) -> int
    decreases s.len(),
{
    if s.len() == 0 {
        -1
    } else if s.last() == '.' {
        s.len() - 1
    } else {
        rfind_dot(s.drop_last())
    }
}

/// The name part of a filename: everything before the last dot, or the
/// whole filename when it has no dot.
pub open spec fn name_part(s: Seq<char>) -> Seq<char> {
    if rfind_dot(s) < 0 {
        s
    } else {
        s.take(rfind_dot(s))
    }
}

/// The extension of a filename: everything after the last dot, or empty
/// when it has no dot.
pub open spec fn ext_part(s: Seq<char>) -> Seq<char> {
    if rfind_dot(s) < 0 {
        Seq::empty()
    } else {
        s.skip(rfind_dot(s) + 1)
    }
}

proof fn lemma_rfind_dot_scan(s: Seq<char>, j: int)
    requires
        0 <= j <= s.len(),
        forall|k: int| j <= k < s.len() ==> s[k] != '.',
    ensures
        rfind_dot(s) == rfind_dot(s.take(j)),
    decreases s.len() - j,
{
    if j == s.len() {
        assert(s.take(j) =~= s);
    } else {
        lemma_rfind_dot_scan(s.drop_last(), j);
        assert(s.drop_last().take(j) =~= s.take(j));
    }
}

/// Separate a filename into name and extension at the last dot.  Every
/// character after the last dot is the extension; everything before it is
/// the name.  A filename without a dot is all name and has an empty
/// extension.
pub fn separate_filename_ext<'a>(filename: &'a str) -> (r: (String, &'a str))
    ensures
        r.0@ == name_part(filename@),
        r.1@ == ext_part(filename@),
{
    let cs = chars_of(filename);
    let n: usize = cs.len();
    let mut j: usize = n;
    while j > 0 && cs[j - 1] != '.'
        invariant
            j <= n,
            n == cs@.len(),
            cs@ == filename@,
            forall|k: int| j <= k < n ==> cs@[k] != '.',
        decreases j,
    {
        j = j - 1;
    }
    proof {
        lemma_rfind_dot_scan(filename@, j as int);
    }
    if j == 0 {
        proof {
            assert(filename@.take(0) =~= Seq::<char>::empty());
            assert(rfind_dot(Seq::<char>::empty()) == -1);
            reveal_strlit("");
            assert(""@ =~= Seq::<char>::empty());
        }
        (string_from_chars(&cs), "")
    } else {
        proof {
            assert(filename@.take(j as int).last() == filename@[j - 1]);
            assert(rfind_dot(filename@.take(j as int)) == j - 1);
            assert(filename@.subrange(j as int, n as int) =~= filename@.skip(j as int));
        }
        let name = copy_range(&cs, 0, j - 1);
        proof {
            assert(name@ =~= filename@.take(j - 1));
        }
        let ext = filename.substring_char(j, n);
        (string_from_chars(&name), ext)
    }
}

} // verus!
