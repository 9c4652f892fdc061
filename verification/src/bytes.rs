//! Byte strings: file paths and names as the kernel takes them.

use vstd::prelude::*;

verus! {

/// The path separator `/`.
pub const SEPARATOR: u8 = 47;

/// Whether `needle` occurs in `hay` as a run of consecutive bytes.
pub open spec fn occurs_in(needle: Seq<u8>, hay: Seq<u8>) -> bool {
    exists|k: int| occurs_at(needle, hay, k)
}

/// Whether `needle` occurs in `hay` at offset `k`.
pub open spec fn occurs_at(needle: Seq<u8>, hay: Seq<u8>, k: int) -> bool {
    0 <= k && k + needle.len() <= hay.len() && hay.subrange(k, k + needle.len()) == needle
}

/// Whether the byte zero occurs in `s`.
pub open spec fn has_nul(s: Seq<u8>) -> bool {
    exists|i: int| 0 <= i < s.len() && s[i] == 0
}

/// `s` as a C string: its bytes and the terminating zero.
pub open spec fn c_string(s: Seq<u8>) -> Seq<u8> {
    s.push(0)
}

/// The path of the entry `name` in the directory `dir`: the two parts with
/// one separator between them, unless `dir` is empty or brings its own.
pub open spec fn joined(dir: Seq<u8>, name: Seq<u8>) -> Seq<u8> {
    if dir.len() == 0 || dir.last() == 47 {
        dir + name
    } else {
        dir.push(47) + name
    }
}

/// Whether two byte strings hold the same bytes.
pub fn bytes_eq(a: &[u8], b: &[u8]) -> (same: bool)
    ensures
        same == (a@ == b@),
{
    if a.len() != b.len() {
        return false;
    }
    let mut i: usize = 0;
    while i < a.len()
        invariant
            i <= a.len(),
            a.len() == b.len(),
            a@.take(i as int) == b@.take(i as int),
        decreases a.len() - i,
    {
        if a[i] != b[i] {
            return false;
        }
        assert(a@.take(i + 1) =~= a@.take(i as int).push(a@[i as int]));
        assert(b@.take(i + 1) =~= b@.take(i as int).push(b@[i as int]));
        i += 1;
    }
    assert(a@.take(i as int) =~= a@);
    assert(b@.take(i as int) =~= b@);
    true
}

/// Whether `needle` occurs in `hay` at offset `k`.
fn matches_at(needle: &[u8], hay: &[u8], k: usize) -> (found: bool)
    requires
        k + needle.len() <= hay.len(),
    ensures
        found == occurs_at(needle@, hay@, k as int),
{
    let mut j: usize = 0;
    while j < needle.len()
        invariant
            j <= needle.len(),
            k + needle.len() <= hay.len(),
            forall|t: int| 0 <= t < j ==> hay@[k + t] == needle@[t],
        decreases needle.len() - j,
    {
        if hay[k + j] != needle[j] {
            assert(hay@.subrange(k as int, k + needle.len())[j as int] != needle@[j as int]);
            return false;
        }
        j += 1;
    }
    assert(hay@.subrange(k as int, k + needle.len()) =~= needle@);
    true
}

/// Whether `needle` occurs anywhere in `hay`.
pub fn contains_bytes(hay: &[u8], needle: &[u8]) -> (found: bool)
    ensures
        found == occurs_in(needle@, hay@),
{
    if needle.len() > hay.len() {
        return false;
    }
    let last: usize = hay.len() - needle.len();
    let mut k: usize = 0;
    loop
        invariant
            k <= last,
            last == hay.len() - needle.len(),
            forall|t: int| 0 <= t < k ==> !occurs_at(needle@, hay@, t),
        decreases last - k,
    {
        if matches_at(needle, hay, k) {
            return true;
        }
        if k == last {
            return false;
        }
        k += 1;
    }
}

/// Whether the byte zero occurs in `s`.
pub fn contains_nul(s: &[u8]) -> (found: bool)
    ensures
        found == has_nul(s@),
{
    let mut i: usize = 0;
    while i < s.len()
        invariant
            i <= s.len(),
            forall|t: int| 0 <= t < i ==> s@[t] != 0,
        decreases s.len() - i,
    {
        if s[i] == 0 {
            return true;
        }
        i += 1;
    }
    false
}

/// Appends the bytes of `tail` to `buf`.
pub fn append(buf: &mut Vec<u8>, tail: &[u8])
    ensures
        final(buf)@ == old(buf)@ + tail@,
{
    let mut i: usize = 0;
    while i < tail.len()
        invariant
            i <= tail.len(),
            buf@ == old(buf)@ + tail@.take(i as int),
        decreases tail.len() - i,
    {
        buf.push(tail[i]);
        assert(tail@.take(i + 1) =~= tail@.take(i as int).push(tail@[i as int]));
        assert(buf@ =~= old(buf)@ + tail@.take(i + 1));
        i += 1;
    }
    assert(tail@.take(i as int) =~= tail@);
}

/// The path of the entry `name` in the directory `dir`.
pub fn join(dir: &[u8], name: &[u8]) -> (path: Vec<u8>)
    ensures
        path@ == joined(dir@, name@),
{
    let mut path: Vec<u8> = Vec::new();
    append(&mut path, dir);
    assert(path@ =~= dir@);
    if dir.len() > 0 && dir[dir.len() - 1] != SEPARATOR {
        path.push(SEPARATOR);
    }
    append(&mut path, name);
    path
}

} // verus!
