//! Small verified helpers on byte strings.
//!
//! The library models names, paths and corpus text as byte strings, so the
//! usual trimming, suffix and search operations are defined here once, each
//! against a spec-level definition on `Seq<u8>`.

use vstd::prelude::*;

verus! {

/// The bytes Rust counts as ASCII whitespace: space, tab, line feed,
/// form feed, carriage return.
pub open spec fn is_ascii_ws(b: u8) -> bool {
    b == 0x20 || b == 0x09 || b == 0x0a || b == 0x0c || b == 0x0d
}

/// `s` with every trailing ASCII-whitespace byte removed.
pub open spec fn trim_end_spec(s: Seq<u8>) -> Seq<u8>
    decreases s.len(),
{
    if s.len() > 0 && is_ascii_ws(s.last()) {
        trim_end_spec(s.drop_last())
    } else {
        s
    }
}

/// `suf` is a suffix of `s`.
pub open spec fn is_suffix_of(suf: Seq<u8>, s: Seq<u8>) -> bool {
    suf.len() <= s.len() && s.skip(s.len() - suf.len()) == suf
}

/// The pattern `pat` occurs in `data` starting at index `i`.
pub open spec fn match_at(data: Seq<u8>, pat: Seq<u8>, i: int) -> bool {
    0 <= i && i + pat.len() <= data.len() && data.subrange(i, i + pat.len()) == pat
}

/// No occurrence of `pat` starts in `data` before index `end`.
pub open spec fn no_match_before(data: Seq<u8>, pat: Seq<u8>, end: int) -> bool {
    forall|i: int| 0 <= i < end ==> !match_at(data, pat, i)
}

/// `pat` does not occur in `data` at all.
pub open spec fn no_match(data: Seq<u8>, pat: Seq<u8>) -> bool {
    no_match_before(data, pat, data.len() as int)
}

/// The views of a vector of byte vectors.
pub open spec fn views_of(chunks: Seq<Vec<u8>>) -> Seq<Seq<u8>> {
    chunks.map_values(|c: Vec<u8>| c@)
}

/// Byte-for-byte equality of two slices.
pub fn bytes_eq(a: &[u8], b: &[u8]) -> (r: bool)
    ensures
        r == (a@ == b@),
{
    if a.len() != b.len() {
        assert(a@ != b@) by {
            assert(a@.len() != b@.len());
        }
        return false;
    }
    let n = a.len();
    let mut i: usize = 0;
    while i < n
        invariant
            n == a@.len() == b@.len(),
            0 <= i <= n,
            forall|j: int| 0 <= j < i ==> a@[j] == b@[j],
        decreases n - i,
    {
        if a[i] != b[i] {
            return false;
        }
        i = i + 1;
    }
    proof {
        assert(a@ =~= b@);
    }
    true
}

/// Whether `s` ends with the bytes of `suf`.
pub fn ends_with(s: &[u8], suf: &[u8]) -> (r: bool)
    ensures
        r == is_suffix_of(suf@, s@),
{
    if suf.len() > s.len() {
        return false;
    }
    let tail = vstd::slice::slice_subrange(s, s.len() - suf.len(), s.len());
    bytes_eq(tail, suf)
}

/// Whether `pat` occurs in `data` starting at `i`.
pub fn matches_at(data: &[u8], pat: &[u8], i: usize) -> (r: bool)
    requires
        i <= data@.len(),
    ensures
        r == match_at(data@, pat@, i as int),
{
    if pat.len() > data.len() - i {
        return false;
    }
    let window = vstd::slice::slice_subrange(data, i, i + pat.len());
    bytes_eq(window, pat)
}

/// A copy of `s` with trailing ASCII whitespace removed.
pub fn trim_end(s: &[u8]) -> (r: Vec<u8>)
    ensures
        r@ == trim_end_spec(s@),
{
    let mut end = s.len();
    proof {
        assert(s@.take(end as int) =~= s@);
    }
    loop
        invariant
            0 <= end <= s@.len(),
            trim_end_spec(s@) == trim_end_spec(s@.take(end as int)),
        ensures
            0 <= end <= s@.len(),
            trim_end_spec(s@) == trim_end_spec(s@.take(end as int)),
            end > 0 ==> !is_ascii_ws(s@[end - 1]),
        decreases end,
    {
        if end == 0 {
            break;
        }
        let b = s[end - 1];
        if !(b == 0x20 || b == 0x09 || b == 0x0a || b == 0x0c || b == 0x0d) {
            break;
        }
        proof {
            assert(s@.take(end as int).drop_last() =~= s@.take(end - 1));
        }
        end = end - 1;
    }
    proof {
        if end > 0 {
            assert(s@.take(end as int).last() == s@[end - 1]);
        }
        assert(trim_end_spec(s@.take(end as int)) == s@.take(end as int));
    }
    let r = vstd::slice::slice_subrange(s, 0, end);
    proof {
        assert(r@ =~= s@.take(end as int));
    }
    vstd::slice::slice_to_vec(r)
}

/// `s` with every leading ASCII-whitespace byte removed.
pub open spec fn trim_start_spec(s: Seq<u8>) -> Seq<u8>
    decreases s.len(),
{
    if s.len() > 0 && is_ascii_ws(s[0]) {
        trim_start_spec(s.skip(1))
    } else {
        s
    }
}

/// `s` with leading and trailing ASCII whitespace removed.
pub open spec fn trim_spec(s: Seq<u8>) -> Seq<u8> {
    trim_end_spec(trim_start_spec(s))
}

/// A copy of `s` with leading and trailing ASCII whitespace removed.
pub fn trim(s: &[u8]) -> (r: Vec<u8>)
    ensures
        r@ == trim_spec(s@),
{
    let n = s.len();
    let mut start: usize = 0;
    proof {
        assert(s@.skip(0) =~= s@);
    }
    loop
        invariant
            n == s@.len(),
            0 <= start <= n,
            trim_start_spec(s@) == trim_start_spec(s@.skip(start as int)),
        ensures
            0 <= start <= n,
            trim_start_spec(s@) == s@.skip(start as int),
        decreases n - start,
    {
        let ghost t = s@.skip(start as int);
        if start == n {
            proof {
                assert(trim_start_spec(t) == t);
            }
            break;
        }
        proof {
            assert(t[0] == s@[start as int]);
            assert(t.skip(1) =~= s@.skip(start + 1));
        }
        let b = s[start];
        if !(b == 0x20 || b == 0x09 || b == 0x0a || b == 0x0c || b == 0x0d) {
            proof {
                assert(trim_start_spec(t) == t);
            }
            break;
        }
        start = start + 1;
    }
    let tail = vstd::slice::slice_subrange(s, start, n);
    proof {
        assert(tail@ =~= s@.skip(start as int));
    }
    trim_end(tail)
}

/// Splits `data` on non-overlapping, leftmost occurrences of `sep`,
/// with `acc` the part of the current chunk read so far.
pub open spec fn split_on_from(data: Seq<u8>, sep: Seq<u8>, acc: Seq<u8>) -> Seq<Seq<u8>>
    decreases data.len(),
{
    if sep.len() == 0 || data.len() < sep.len() {
        seq![acc + data]
    } else if data.take(sep.len() as int) == sep {
        seq![acc] + split_on_from(data.skip(sep.len() as int), sep, Seq::<u8>::empty())
    } else {
        split_on_from(data.skip(1), sep, acc.push(data[0]))
    }
}

/// The chunks of `data` between non-overlapping, leftmost occurrences of
/// `sep`. One separator yields two chunks; no separator yields one.
pub open spec fn split_on(data: Seq<u8>, sep: Seq<u8>) -> Seq<Seq<u8>> {
    split_on_from(data, sep, Seq::<u8>::empty())
}

/// Splits `s` on every occurrence of the byte `sep`.
pub fn split_byte(s: &[u8], sep: u8) -> (r: Vec<Vec<u8>>)
    ensures
        views_of(r@) == split_on(s@, seq![sep]),
{
    let ghost sep_seq = seq![sep];
    let mut chunks: Vec<Vec<u8>> = Vec::new();
    let mut cur: Vec<u8> = Vec::new();
    let n = s.len();
    let mut i: usize = 0;
    proof {
        assert(s@.skip(0) =~= s@);
        assert(views_of(chunks@) =~= Seq::<Seq<u8>>::empty());
    }
    while i < n
        invariant
            n == s@.len(),
            0 <= i <= n,
            split_on(s@, seq![sep]) =~= views_of(chunks@) + split_on_from(
                s@.skip(i as int),
                seq![sep],
                cur@,
            ),
        decreases n - i,
    {
        let ghost t = s@.skip(i as int);
        proof {
            assert(t[0] == s@[i as int]);
            assert(t.skip(1) =~= s@.skip(i + 1));
            assert(t.take(1) =~= seq![t[0]]);
        }
        let b = s[i];
        if b == sep {
            proof {
                assert(t.take(1) == seq![sep]);
                assert(split_on_from(t, seq![sep], cur@) == seq![cur@] + split_on_from(
                    t.skip(1),
                    seq![sep],
                    Seq::<u8>::empty(),
                ));
            }
            chunks.push(cur);
            cur = Vec::new();
            proof {
                assert(views_of(chunks@) =~= views_of(chunks@.drop_last()) + seq![
                    chunks@.last()@,
                ]);
            }
        } else {
            proof {
                assert(t.take(1) != seq![sep]) by {
                    assert(t.take(1)[0] == t[0]);
                }
                assert(split_on_from(t, seq![sep], cur@) == split_on_from(
                    t.skip(1),
                    seq![sep],
                    cur@.push(t[0]),
                ));
            }
            cur.push(b);
        }
        i = i + 1;
    }
    proof {
        assert(s@.skip(n as int) =~= Seq::<u8>::empty());
        assert(split_on_from(Seq::<u8>::empty(), seq![sep], cur@) == seq![cur@ + Seq::<u8>::empty()]);
        assert(cur@ + Seq::<u8>::empty() =~= cur@);
    }
    chunks.push(cur);
    proof {
        assert(views_of(chunks@) =~= views_of(chunks@.drop_last()) + seq![chunks@.last()@]);
    }
    chunks
}

/// The whitespace-separated tokens of `s`, with `cur` the token read so
/// far: runs of ASCII whitespace separate tokens and leave no empties.
pub open spec fn ws_tokens_from(s: Seq<u8>, cur: Seq<u8>) -> Seq<Seq<u8>>
    decreases s.len(),
{
    if s.len() == 0 {
        if cur.len() == 0 {
            seq![]
        } else {
            seq![cur]
        }
    } else if is_ascii_ws(s[0]) {
        (if cur.len() == 0 {
            seq![]
        } else {
            seq![cur]
        }) + ws_tokens_from(s.skip(1), Seq::<u8>::empty())
    } else {
        ws_tokens_from(s.skip(1), cur.push(s[0]))
    }
}

/// The whitespace-separated tokens of `s`.
pub open spec fn ws_tokens(s: Seq<u8>) -> Seq<Seq<u8>> {
    ws_tokens_from(s, Seq::<u8>::empty())
}

/// Splits `s` into its whitespace-separated tokens.
pub fn split_whitespace(s: &[u8]) -> (r: Vec<Vec<u8>>)
    ensures
        views_of(r@) == ws_tokens(s@),
{
    let mut tokens: Vec<Vec<u8>> = Vec::new();
    let mut cur: Vec<u8> = Vec::new();
    let n = s.len();
    let mut i: usize = 0;
    proof {
        assert(s@.skip(0) =~= s@);
        assert(views_of(tokens@) =~= Seq::<Seq<u8>>::empty());
    }
    while i < n
        invariant
            n == s@.len(),
            0 <= i <= n,
            ws_tokens(s@) =~= views_of(tokens@) + ws_tokens_from(s@.skip(i as int), cur@),
        decreases n - i,
    {
        let ghost t = s@.skip(i as int);
        proof {
            assert(t[0] == s@[i as int]);
            assert(t.skip(1) =~= s@.skip(i + 1));
        }
        let b = s[i];
        if b == 0x20 || b == 0x09 || b == 0x0a || b == 0x0c || b == 0x0d {
            proof {
                assert(is_ascii_ws(t[0]));
                assert(ws_tokens_from(t, cur@) == (if cur@.len() == 0 {
                    seq![]
                } else {
                    seq![cur@]
                }) + ws_tokens_from(t.skip(1), Seq::<u8>::empty()));
            }
            if cur.len() > 0 {
                tokens.push(cur);
                cur = Vec::new();
                proof {
                    assert(views_of(tokens@) =~= views_of(tokens@.drop_last()) + seq![
                        tokens@.last()@,
                    ]);
                }
            } else {
                proof {
                    assert(cur@ =~= Seq::<u8>::empty());
                }
            }
        } else {
            proof {
                assert(!is_ascii_ws(t[0]));
                assert(ws_tokens_from(t, cur@) == ws_tokens_from(t.skip(1), cur@.push(t[0])));
            }
            cur.push(b);
        }
        i = i + 1;
    }
    proof {
        assert(s@.skip(n as int) =~= Seq::<u8>::empty());
    }
    if cur.len() > 0 {
        tokens.push(cur);
        proof {
            assert(views_of(tokens@) =~= views_of(tokens@.drop_last()) + seq![tokens@.last()@]);
        }
    }
    tokens
}

/// `pre` is a prefix of `s`.
pub open spec fn is_prefix_of(pre: Seq<u8>, s: Seq<u8>) -> bool {
    pre.len() <= s.len() && s.take(pre.len() as int) == pre
}

/// Strict lexicographic order on byte strings.
pub open spec fn bytes_lt(a: Seq<u8>, b: Seq<u8>) -> bool
    decreases a.len(),
{
    if b.len() == 0 {
        false
    } else if a.len() == 0 {
        true
    } else if a[0] < b[0] {
        true
    } else if a[0] > b[0] {
        false
    } else {
        bytes_lt(a.skip(1), b.skip(1))
    }
}

/// Compares two byte strings lexicographically.
pub fn bytes_less(a: &[u8], b: &[u8]) -> (r: bool)
    ensures
        r == bytes_lt(a@, b@),
{
    let mut i: usize = 0;
    proof {
        assert(a@.skip(0) =~= a@);
        assert(b@.skip(0) =~= b@);
    }
    loop
        invariant
            0 <= i <= a@.len(),
            i <= b@.len(),
            bytes_lt(a@, b@) == bytes_lt(a@.skip(i as int), b@.skip(i as int)),
        ensures
            bytes_lt(a@, b@) == bytes_lt(a@.skip(i as int), b@.skip(i as int)),
            i == a@.len() || i == b@.len() || a@[i as int] != b@[i as int],
        decreases a@.len() - i,
    {
        if i == a.len() || i == b.len() {
            break;
        }
        proof {
            let sa = a@.skip(i as int);
            let sb = b@.skip(i as int);
            assert(sa[0] == a@[i as int] && sb[0] == b@[i as int]);
            assert(sa.skip(1) =~= a@.skip(i + 1));
            assert(sb.skip(1) =~= b@.skip(i + 1));
        }
        if a[i] != b[i] {
            break;
        }
        i = i + 1;
    }
    proof {
        let sa = a@.skip(i as int);
        let sb = b@.skip(i as int);
        if i < a@.len() && i < b@.len() {
            assert(sa[0] == a@[i as int] && sb[0] == b@[i as int]);
        }
    }
    if i == a.len() {
        i < b.len()
    } else if i == b.len() {
        false
    } else {
        a[i] < b[i]
    }
}

/// `s` with every occurrence of `from` replaced by `to`.
pub open spec fn replaced_byte(s: Seq<u8>, from: u8, to: u8) -> Seq<u8> {
    s.map_values(
        |b: u8|
            if b == from {
                to
            } else {
                b
            },
    )
}

/// Replaces every occurrence of `from` by `to`.
pub fn replace_byte(s: &[u8], from: u8, to: u8) -> (r: Vec<u8>)
    ensures
        r@ == replaced_byte(s@, from, to),
{
    let mut r: Vec<u8> = Vec::new();
    let n = s.len();
    let mut i: usize = 0;
    while i < n
        invariant
            n == s@.len(),
            0 <= i <= n,
            r@.len() == i,
            forall|j: int| 0 <= j < i ==> r@[j] == replaced_byte(s@, from, to)[j],
        decreases n - i,
    {
        let b = s[i];
        if b == from {
            r.push(to);
        } else {
            r.push(b);
        }
        i = i + 1;
    }
    proof {
        assert(r@ =~= replaced_byte(s@, from, to));
    }
    r
}

/// Appends all of `src` to `dst`.
pub fn append_bytes(dst: &mut Vec<u8>, src: &[u8])
    ensures
        final(dst)@ == old(dst)@ + src@,
{
    let n = src.len();
    let mut i: usize = 0;
    while i < n
        invariant
            n == src@.len(),
            0 <= i <= n,
            dst@ == old(dst)@ + src@.take(i as int),
        decreases n - i,
    {
        dst.push(src[i]);
        proof {
            assert(old(dst)@ + src@.take(i + 1) =~= (old(dst)@ + src@.take(i as int)).push(
                src@[i as int],
            ));
        }
        i = i + 1;
    }
    proof {
        assert(old(dst)@ + src@.take(n as int) =~= old(dst)@ + src@);
    }
}

/// The first index of byte `b` in `s`, if any.
pub fn find_byte(s: &[u8], b: u8) -> (r: Option<usize>)
    ensures
        match r {
            Some(i) => i < s@.len() && s@[i as int] == b && forall|j: int|
                0 <= j < i ==> s@[j] != b,
            None => forall|j: int| 0 <= j < s@.len() ==> s@[j] != b,
        },
{
    let n = s.len();
    let mut i: usize = 0;
    while i < n
        invariant
            n == s@.len(),
            0 <= i <= n,
            forall|j: int| 0 <= j < i ==> s@[j] != b,
        decreases n - i,
    {
        if s[i] == b {
            return Some(i);
        }
        i = i + 1;
    }
    None
}

} // verus!
