//! Joining a directory and a path segment, and telling which paths the
//! file system cannot hold.

use vstd::prelude::*;

verus! {

/// `seg` appended to `base` as a further path component: an absolute `seg`
/// replaces `base`; otherwise a `'/'` separates the two unless `base` is empty
/// or already ends with one. No normalisation takes place.
pub open spec fn joined(base: Seq<char>, seg: Seq<char>) -> Seq<char> {
    if seg.len() > 0 && seg[0] == '/' {
        seg
    } else if base.len() == 0 || base.last() == '/' {
        base + seg
    } else {
        base + seq!['/'] + seg
    }
}

/// A path holding a NUL character cannot be handed to the file system.
pub open spec fn has_nul(s: Seq<char>) -> bool {
    exists|i: int| 0 <= i < s.len() && s[i] == '\0'
}

/// Joining two NUL-free paths gives a NUL-free path.
pub proof fn lemma_joined_no_nul(base: Seq<char>, seg: Seq<char>)
    requires
        !has_nul(base),
        !has_nul(seg),
    ensures
        !has_nul(joined(base, seg)),
{
    let j = joined(base, seg);
    assert forall|i: int| 0 <= i < j.len() implies j[i] != '\0' by {
        if !(seg.len() > 0 && seg[0] == '/') {
            if base.len() == 0 || base.last() == '/' {
                if i >= base.len() {
                    assert(j[i] == seg[i - base.len()]);
                } else {
                    assert(j[i] == base[i]);
                }
            } else {
                if i > base.len() {
                    assert(j[i] == seg[i - base.len() - 1]);
                } else if i < base.len() {
                    assert(j[i] == base[i]);
                }
            }
        }
    }
}

/// `base` joined with `seg` as a further path component.
pub fn join_path(base: &str, seg: &str) -> (r: String)
    ensures
        r@ == joined(base@, seg@),
{
    let seg_len = seg.unicode_len();
    let base_len = base.unicode_len();
    if seg_len > 0 && seg.get_char(0) == '/' {
        String::from_str(seg)
    } else if base_len == 0 || base.get_char(base_len - 1) == '/' {
        String::from_str(base).concat(seg)
    } else {
        proof { reveal_strlit("/"); }
        String::from_str(base).concat("/").concat(seg)
    }
}

/// Whether `s` holds a NUL character.
pub fn contains_nul(s: &str) -> (r: bool)
    ensures
        r == has_nul(s@),
{
    let n = s.unicode_len();
    let mut i: usize = 0;
    while i < n
        invariant
            n == s@.len(),
            i <= n,
            forall|j: int| 0 <= j < i ==> s@[j] != '\0',
        decreases n - i,
    {
        if s.get_char(i) == '\0' {
            return true;
        }
        i = i + 1;
    }
    false
}

} // verus!
