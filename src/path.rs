//! Paths as byte strings, and the path of an entry inside a directory.
use vstd::prelude::*;

verus! {

/// The byte that separates the components of a path.
pub const SEPARATOR: u8 = 47;

/// `n` can be the name of one entry of a directory: a single component,
/// neither empty nor `.` nor `..`, holding no separator and no NUL byte.
pub open spec fn is_entry_name(n: Seq<u8>) -> bool {
    &&& n.len() > 0
    &&& n != seq![46u8]
    &&& n != seq![46u8, 46u8]
    &&& forall|i: int| 0 <= i < n.len() ==> n[i] != SEPARATOR && n[i] != 0u8
}

/// Joining a component to `dir` puts a separator in between: `dir` is not
/// empty and does not already end with one.
pub open spec fn needs_separator(dir: Seq<u8>) -> bool {
    dir.len() > 0 && dir.last() != SEPARATOR
}

/// The path of the entry called `name` directly inside `dir`.
pub open spec fn child_of(dir: Seq<u8>, name: Seq<u8>) -> Seq<u8> {
    if needs_separator(dir) {
        dir + seq![SEPARATOR] + name
    } else {
        dir + name
    }
}

/// `p` is the path of an entry directly inside `dir`.
pub open spec fn is_child_of(dir: Seq<u8>, p: Seq<u8>) -> bool {
    exists|n: Seq<u8>| is_entry_name(n) && p == child_of(dir, n)
}

/// Two entries of one directory have the same path only if they have the
/// same name.
pub proof fn lemma_child_of_injective(dir: Seq<u8>, a: Seq<u8>, b: Seq<u8>)
    ensures
        child_of(dir, a) == child_of(dir, b) ==> a == b,
{
    if child_of(dir, a) == child_of(dir, b) {
        let k = child_of(dir, a).len() - a.len();
        assert(child_of(dir, a).subrange(k, child_of(dir, a).len() as int) =~= a);
        assert(child_of(dir, b).subrange(k, child_of(dir, b).len() as int) =~= b);
    }
}

/// Appends the bytes of `src` to `dst`.
fn append_bytes(dst: &mut Vec<u8>, src: &Vec<u8>)
    ensures
        final(dst)@ == old(dst)@ + src@,
{
    let mut i: usize = 0;
    while i < src.len()
        invariant
            i <= src@.len(),
            dst@ == old(dst)@ + src@.subrange(0, i as int),
        decreases src@.len() - i,
    {
        dst.push(src[i]);
        i = i + 1;
        assert(src@.subrange(0, i as int) =~= src@.subrange(0, i - 1) + seq![src@[i - 1]]);
    }
    assert(src@.subrange(0, i as int) =~= src@);
}

/// The path of the entry called `name` directly inside `dir`: `dir`, a
/// separator where `dir` does not already end with one, then `name`.
pub fn child_path(dir: &Vec<u8>, name: &Vec<u8>) -> (r: Vec<u8>)
    ensures
        r@ == child_of(dir@, name@),
{
    let mut r: Vec<u8> = Vec::new();
    append_bytes(&mut r, dir);
    if dir.len() > 0 && dir[dir.len() - 1] != SEPARATOR {
        r.push(SEPARATOR);
    }
    append_bytes(&mut r, name);
    assert(r@ =~= child_of(dir@, name@));
    r
}

} // verus!
