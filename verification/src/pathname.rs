//! Byte-string paths and the little arithmetic the engine does on them.
//!
//! Paths are plain byte strings with `/` as the separator. The engine only
//! ever joins paths, reads the file name after the last separator, and
//! swaps the extension after the last dot of that file name.

use vstd::prelude::*;

use crate::bytes::append_bytes;

verus! {

/// A path that starts at the root.
pub open spec fn is_absolute_path(p: Seq<u8>) -> bool {
    p.len() > 0 && p[0] == 0x2f
}

/// The index of the last occurrence of `b` in `p`, or `-1` if none.
pub open spec fn last_byte_index(p: Seq<u8>, b: u8) -> int
    decreases p.len(),
{
    if p.len() == 0 {
        -1
    } else if p.last() == b {
        p.len() - 1
    } else {
        last_byte_index(p.drop_last(), b)
    }
}

/// The file name of a path: everything after the last separator.
pub open spec fn path_file_name(p: Seq<u8>) -> Seq<u8> {
    p.skip(last_byte_index(p, 0x2f) + 1)
}

/// The index of the dot that starts the extension, or `-1`: the last dot,
/// unless it is the first byte of the file name.
pub open spec fn ext_dot_index(p: Seq<u8>) -> int {
    let d = last_byte_index(p, 0x2e);
    if d > last_byte_index(p, 0x2f) + 1 {
        d
    } else {
        -1
    }
}

/// The extension of a path, without its dot, if there is one.
pub open spec fn path_extension(p: Seq<u8>) -> Option<Seq<u8>> {
    if ext_dot_index(p) >= 0 {
        Option::Some(p.skip(ext_dot_index(p) + 1))
    } else {
        Option::None
    }
}

/// `p` with its extension replaced by `ext`, or removed when `ext` is
/// empty.
pub open spec fn path_with_extension(p: Seq<u8>, ext: Seq<u8>) -> Seq<u8> {
    let stem = if ext_dot_index(p) >= 0 {
        p.take(ext_dot_index(p))
    } else {
        p
    };
    if ext.len() == 0 {
        stem
    } else {
        stem + seq![0x2eu8] + ext
    }
}

/// `base` extended by `rel`: `rel` itself when absolute, else the two
/// joined with exactly one separator between them.
pub open spec fn path_join(base: Seq<u8>, rel: Seq<u8>) -> Seq<u8> {
    if is_absolute_path(rel) || base.len() == 0 {
        rel
    } else if base.last() == 0x2f {
        base + rel
    } else {
        base + seq![0x2fu8] + rel
    }
}

/// The last occurrence of a byte lies inside the string, when there is
/// one.
pub proof fn lemma_last_byte_index_range(p: Seq<u8>, b: u8)
    ensures
        -1 <= last_byte_index(p, b) < p.len(),
    decreases p.len(),
{
    if p.len() == 0 {
    } else if p.last() == b {
    } else {
        lemma_last_byte_index_range(p.drop_last(), b);
    }
}

/// A file name is never longer than its path.
pub proof fn lemma_file_name_len(p: Seq<u8>)
    ensures
        path_file_name(p).len() <= p.len(),
{
    lemma_last_byte_index_range(p, 0x2f);
}

/// Whether the path starts at the root.
pub fn is_absolute(p: &[u8]) -> (r: bool)
    ensures
        r == is_absolute_path(p@),
{
    p.len() > 0 && p[0] == 0x2f
}

/// The index of the last occurrence of `b`, if any.
pub fn find_last_byte(p: &[u8], b: u8) -> (r: Option<usize>)
    ensures
        match r {
            Some(i) => i == last_byte_index(p@, b) && i < p@.len(),
            None => last_byte_index(p@, b) == -1,
        },
{
    let mut i = p.len();
    proof {
        assert(p@.take(p@.len() as int) =~= p@);
    }
    while i > 0
        invariant
            0 <= i <= p@.len(),
            last_byte_index(p@, b) == last_byte_index(p@.take(i as int), b),
        decreases i,
    {
        if p[i - 1] == b {
            proof {
                assert(p@.take(i as int).last() == p@[i - 1]);
            }
            return Some(i - 1);
        }
        proof {
            assert(p@.take(i as int).last() == p@[i - 1]);
            assert(p@.take(i as int).drop_last() =~= p@.take(i - 1));
        }
        i = i - 1;
    }
    proof {
        assert(p@.take(0) =~= Seq::<u8>::empty());
    }
    None
}

/// Copies the file name of `p`: everything after the last separator.
pub fn file_name(p: &[u8]) -> (r: Vec<u8>)
    ensures
        r@ == path_file_name(p@),
{
    let n = p.len();
    let start = match find_last_byte(p, 0x2f) {
        Some(i) => i + 1,
        None => 0,
    };
    let tail = vstd::slice::slice_subrange(p, start, p.len());
    proof {
        assert(tail@ =~= path_file_name(p@));
    }
    vstd::slice::slice_to_vec(tail)
}

fn ext_dot(p: &[u8]) -> (r: Option<usize>)
    ensures
        match r {
            Some(i) => ext_dot_index(p@) == i && i < p@.len(),
            None => ext_dot_index(p@) == -1,
        },
{
    let n = p.len();
    let dot = find_last_byte(p, 0x2e);
    let slash = find_last_byte(p, 0x2f);
    match (dot, slash) {
        (Some(d), Some(s)) => {
            if d > s + 1 {
                Some(d)
            } else {
                None
            }
        },
        (Some(d), None) => {
            if d > 0 {
                Some(d)
            } else {
                None
            }
        },
        _ => None,
    }
}

/// `p` with its extension replaced by `ext`, or removed when `ext` is
/// empty.
pub fn with_extension(p: &[u8], ext: &[u8]) -> (r: Vec<u8>)
    ensures
        r@ == path_with_extension(p@, ext@),
{
    let stem = match ext_dot(p) {
        Some(d) => vstd::slice::slice_subrange(p, 0, d),
        None => p,
    };
    proof {
        assert(stem@ =~= if ext_dot_index(p@) >= 0 {
            p@.take(ext_dot_index(p@))
        } else {
            p@
        });
    }
    let mut r = vstd::slice::slice_to_vec(stem);
    if ext.len() > 0 {
        r.push(0x2e);
        append_bytes(&mut r, ext);
        proof {
            assert(r@ =~= stem@ + seq![0x2eu8] + ext@);
        }
    }
    r
}

/// The extension of `p`, without its dot, if there is one.
pub fn extension(p: &[u8]) -> (r: Option<Vec<u8>>)
    ensures
        match r {
            Some(e) => path_extension(p@) == Option::Some(e@),
            None => path_extension(p@) is None,
        },
{
    let n = p.len();
    match ext_dot(p) {
        Some(d) => {
            let tail = vstd::slice::slice_subrange(p, d + 1, n);
            proof {
                assert(tail@ =~= p@.skip(ext_dot_index(p@) + 1));
            }
            Some(vstd::slice::slice_to_vec(tail))
        },
        None => None,
    }
}

/// Joins `base` and `rel` as `path_join` describes.
pub fn join(base: &[u8], rel: &[u8]) -> (r: Vec<u8>)
    ensures
        r@ == path_join(base@, rel@),
{
    if is_absolute(rel) || base.len() == 0 {
        return vstd::slice::slice_to_vec(rel);
    }
    let mut r = vstd::slice::slice_to_vec(base);
    if base[base.len() - 1] != 0x2f {
        r.push(0x2f);
    }
    append_bytes(&mut r, rel);
    proof {
        assert(base@.last() == base@[base@.len() - 1]);
        if base@.last() == 0x2f {
            assert(r@ =~= base@ + rel@);
        } else {
            assert(r@ =~= base@ + seq![0x2fu8] + rel@);
        }
    }
    r
}

} // verus!
