//! Small helpers for owned text: views of string collections and copies whose
//! contents are known to the verifier.

use vstd::prelude::*;

verus! {

/// The contents of a sequence of strings, element by element.
pub open spec fn texts(v: Seq<String>) -> Seq<Seq<char>> {
    Seq::new(v.len(), |i: int| v[i]@)
}

/// The contents of an optional string.
pub open spec fn opt_text(o: Option<String>) -> Option<Seq<char>> {
    match o {
        Some(s) => Some(s@),
        None => None,
    }
}

pub proof fn lemma_texts_push(v: Seq<String>, s: String)
    ensures
        texts(v.push(s)) == texts(v).push(s@),
{
    assert(texts(v.push(s)) =~= texts(v).push(s@));
}

/// Copies a list of strings.
pub fn clone_strings(v: &Vec<String>) -> (r: Vec<String>)
    ensures
        texts(r@) == texts(v@),
{
    let mut out: Vec<String> = Vec::new();
    let mut i: usize = 0;
    while i < v.len()
        invariant
            i <= v.len(),
            out.len() == i,
            forall|j: int| 0 <= j < i ==> out[j]@ == v[j]@,
        decreases v.len() - i,
    {
        out.push(v[i].clone());
        i += 1;
    }
    assert(texts(out@) =~= texts(v@));
    out
}

/// Copies an optional string.
pub fn clone_opt_string(o: &Option<String>) -> (r: Option<String>)
    ensures
        opt_text(r) == opt_text(*o),
{
    match o {
        Some(s) => Some(s.clone()),
        None => None,
    }
}

/// Position of the first string in `v` equal to `needle`, if there is one.
pub fn find_text(v: &Vec<String>, needle: &String) -> (r: Option<usize>)
    ensures
        match r {
            Some(i) => i < v.len() && v[i as int]@ == needle@ && forall|j: int|
                0 <= j < i ==> v[j]@ != needle@,
            None => !texts(v@).contains(needle@),
        },
{
    let mut i: usize = 0;
    while i < v.len()
        invariant
            i <= v.len(),
            forall|j: int| 0 <= j < i ==> v[j]@ != needle@,
        decreases v.len() - i,
    {
        if v[i] == *needle {
            return Some(i);
        }
        i += 1;
    }
    proof {
        if texts(v@).contains(needle@) {
            let k = choose|k: int| 0 <= k < texts(v@).len() && texts(v@)[k] == needle@;
            assert(v[k]@ == needle@);
        }
    }
    None
}

/// Whether no string occurs twice in `v`.
pub fn all_distinct(v: &Vec<String>) -> (b: bool)
    ensures
        b == texts(v@).no_duplicates(),
{
    let mut i: usize = 0;
    while i < v.len()
        invariant
            i <= v.len(),
            forall|a: int, b: int| 0 <= a < b < i ==> v[a]@ != v[b]@,
        decreases v.len() - i,
    {
        let mut j: usize = 0;
        while j < i
            invariant
                j <= i,
                i < v.len(),
                forall|a: int| 0 <= a < j ==> v[a]@ != v[i as int]@,
            decreases i - j,
        {
            if v[j] == v[i] {
                assert(texts(v@)[j as int] == texts(v@)[i as int]);
                return false;
            }
            j += 1;
        }
        i += 1;
    }
    assert forall|a: int, b: int|
        0 <= a < texts(v@).len() && 0 <= b < texts(v@).len() && a != b implies texts(v@)[a]
        != texts(v@)[b] by {
        if a < b {
            assert(v[a]@ != v[b]@);
        } else {
            assert(v[b]@ != v[a]@);
        }
    }
    true
}

} // verus!
