//! File paths as text, with `/` between their parts.

use vstd::prelude::*;
use crate::text::{push_all, slice_of};

verus! {

/// What stands between the parts of a path.
pub const SEPARATOR: char = '/';

/// Whether `p` starts at the root of the file system.
pub open spec fn has_root(p: Seq<char>) -> bool {
    p.len() > 0 && p[0] == SEPARATOR
}

/// Whether `p` starts at the root of the file system.
pub fn is_rooted(p: &Vec<char>) -> (r: bool)
    ensures
        r == has_root(p@),
{
    p.len() > 0 && p[0] == SEPARATOR
}

/// `p` seen from the directory `base`: `p` itself where it has a root or
/// `base` is empty, else `base`, one separator, and `p`.
pub open spec fn join(base: Seq<char>, p: Seq<char>) -> Seq<char> {
    if has_root(p) || base.len() == 0 {
        p
    } else if base.last() == SEPARATOR {
        base + p
    } else {
        base + seq![SEPARATOR] + p
    }
}

/// `p` seen from the directory `base`.
pub fn joined(base: &Vec<char>, p: &Vec<char>) -> (r: Vec<char>)
    ensures
        r@ == join(base@, p@),
{
    let mut r: Vec<char> = Vec::new();
    if !is_rooted(p) && base.len() > 0 {
        push_all(&mut r, base);
        if base[base.len() - 1] != SEPARATOR {
            r.push(SEPARATOR);
        }
    }
    push_all(&mut r, p);
    r
}

/// How many characters of `p` stand before its last separator; -1 where it
/// holds none.
pub open spec fn last_separator(p: Seq<char>) -> int
    decreases p.len(),
{
    if p.len() == 0 {
        -1
    } else if p.last() == SEPARATOR {
        p.len() - 1
    } else {
        last_separator(p.drop_last())
    }
}

/// The directory that holds `p`: what stands before the last separator of
/// `p`; the root for a name directly under the root, and nothing for a bare
/// name.
pub open spec fn parent(p: Seq<char>) -> Seq<char> {
    let at = last_separator(p);
    if at < 0 {
        Seq::empty()
    } else if at == 0 {
        seq![SEPARATOR]
    } else {
        p.take(at)
    }
}

/// The directory that holds `p`.
pub fn parent_of(p: &Vec<char>) -> (r: Vec<char>)
    ensures
        r@ == parent(p@),
{
    let mut end: usize = p.len();
    assert(p@.take(end as int) == p@);
    while end > 0 && p[end - 1] != SEPARATOR
        invariant
            end <= p.len(),
            last_separator(p@) == last_separator(p@.take(end as int)),
        decreases end,
    {
        assert(p@.take(end as int).drop_last() == p@.take(end - 1));
        end -= 1;
    }
    if end == 0 {
        Vec::new()
    } else if end == 1 {
        let mut r: Vec<char> = Vec::new();
        r.push(SEPARATOR);
        r
    } else {
        slice_of(p, 0, end - 1)
    }
}

} // verus!
