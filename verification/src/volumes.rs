//! Enumeration of candidate storage volumes and selection of the accessible
//! ones.
//!
//! The probe itself (asking the host whether a candidate root is an
//! accessible directory) is filesystem work and stays outside; it hands the
//! answers in as one boolean per candidate, in candidate order.

use vstd::prelude::*;
use vstd::string::StrSliceExecFns;
use vstd::string::StringExecFns;

verus! {

/// The candidate volume letters, in enumeration order.
pub open spec fn drive_letters() -> Seq<char> {
    "ABCDEFGHIJKLMNOPQRSTUVWXYZ"@
}

/// The root label of the candidate volume at `i`: its letter followed by
/// `":\"`.
pub open spec fn drive_label(i: int) -> Seq<char> {
    seq![drive_letters()[i], ':', '\\']
}

/// The labels of the accessible candidates among the first `n`, in
/// candidate order.
pub open spec fn accessible_labels(acc: Seq<bool>, n: int) -> Seq<Seq<char>>
    decreases n,
{
    if n <= 0 {
        Seq::empty()
    } else if acc[n - 1] {
        accessible_labels(acc, n - 1).push(drive_label(n - 1))
    } else {
        accessible_labels(acc, n - 1)
    }
}

/// The 26 candidate volume roots, `"A:\"` through `"Z:\"`, in order.
pub fn volume_candidates() -> (r: Vec<String>)
    ensures
        r@.len() == 26,
        forall|i: int| 0 <= i < 26 ==> r@[i]@ == drive_label(i),
{
    let letters = "ABCDEFGHIJKLMNOPQRSTUVWXYZ";
    let mut r: Vec<String> = Vec::new();
    let mut i: usize = 0;
    while i < 26
        invariant
            i <= 26,
            r@.len() == i,
            letters@ == drive_letters(),
            forall|k: int| 0 <= k < i ==> r@[k]@ == drive_label(k),
        decreases 26 - i,
    {
        proof {
            reveal_strlit("ABCDEFGHIJKLMNOPQRSTUVWXYZ");
        }
        let letter = letters.substring_char(i, i + 1);
        let label = String::from_str(letter).concat(":\\");
        proof {
            reveal_strlit(":\\");
            assert(label@ =~= drive_label(i as int));
        }
        r.push(label);
        i = i + 1;
    }
    r
}

/// The volume list: the candidates whose probe answered "accessible", in
/// candidate order.  Inaccessible candidates are omitted, never an error.
pub fn scan_drive(accessible: &Vec<bool>) -> (r: Vec<String>)
    requires
        accessible@.len() == 26,
    ensures
        r@.map_values(|s: String| s@) == accessible_labels(accessible@, 26),
{
    let candidates = volume_candidates();
    let mut r: Vec<String> = Vec::new();
    let mut i: usize = 0;
    proof {
        assert(r@.map_values(|s: String| s@) =~= accessible_labels(accessible@, 0));
    }
    while i < 26
        invariant
            i <= 26,
            accessible@.len() == 26,
            candidates@.len() == 26,
            forall|k: int| 0 <= k < 26 ==> candidates@[k]@ == drive_label(k),
            r@.map_values(|s: String| s@) == accessible_labels(accessible@, i as int),
        decreases 26 - i,
    {
        if accessible[i] {
            let ghost prev = r@;
            r.push(candidates[i].clone());
            proof {
                assert(r@.map_values(|s: String| s@) =~= prev.map_values(|s: String| s@).push(
                    candidates@[i as int]@,
                ));
            }
        }
        i = i + 1;
    }
    r
}

} // verus!
