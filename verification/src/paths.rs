//! Paths, as the sequences of their components.

use vstd::prelude::*;

verus! {

/// The components of a path, each as its bytes.
pub open spec fn components(path: Seq<Vec<u8>>) -> Seq<Seq<u8>> {
    Seq::new(path.len(), |i: int| path[i]@)
}

/// Whether a path lies in a directory or is that directory, both given by
/// their components.
pub open spec fn lies_in(path: Seq<Seq<u8>>, dir: Seq<Seq<u8>>) -> bool {
    dir.is_prefix_of(path)
}

fn same_bytes(a: &[u8], b: &[u8]) -> (r: bool)
    ensures
        r == (a@ == b@),
{
    if a.len() != b.len() {
        return false;
    }
    for i in 0..a.len()
        invariant
            a@.len() == b@.len(),
            forall|j: int| 0 <= j < i ==> a@[j] == b@[j],
    {
        if a[i] != b[i] {
            return false;
        }
    }
    assert(a@ == b@);
    true
}

/// Whether a path lies in a directory or is that directory.
pub fn is_within(path: &[Vec<u8>], dir: &[Vec<u8>]) -> (r: bool)
    ensures
        r == lies_in(components(path@), components(dir@)),
{
    if dir.len() > path.len() {
        return false;
    }
    for i in 0..dir.len()
        invariant
            dir@.len() <= path@.len(),
            forall|j: int| 0 <= j < i ==> components(dir@)[j] == #[trigger] components(path@)[j],
    {
        if !same_bytes(path[i].as_slice(), dir[i].as_slice()) {
            assert(components(dir@)[i as int] != components(path@)[i as int]);
            assert(components(path@).subrange(0, dir@.len() as int)[i as int] == components(
                path@,
            )[i as int]);
            return false;
        }
    }
    assert(components(path@).subrange(0, dir@.len() as int) == components(dir@));
    true
}

/// The component of a path behind a directory it lies in, if there is one.
pub open spec fn next_component(path: Seq<Seq<u8>>, dir: Seq<Seq<u8>>) -> Option<Seq<u8>> {
    if path.len() > dir.len() {
        Some(path[dir.len() as int])
    } else {
        None
    }
}

/// Whether a path lies in the directory of the given name that stands in
/// another one, which it lies in.
pub fn is_within_named(path: &[Vec<u8>], dir: &[Vec<u8>], name: &[u8]) -> (r: bool)
    ensures
        r == (next_component(components(path@), components(dir@)) == Some(name@)),
{
    path.len() > dir.len() && same_bytes(path[dir.len()].as_slice(), name)
}

/// A path that lies in a directory which lies in another one lies in that
/// one too.
pub proof fn law_lies_in_is_transitive(path: Seq<Seq<u8>>, dir: Seq<Seq<u8>>, outer: Seq<Seq<u8>>)
    requires
        lies_in(path, dir),
        lies_in(dir, outer),
    ensures
        lies_in(path, outer),
{
    assert(path.subrange(0, outer.len() as int) == dir.subrange(0, outer.len() as int)) by {
        assert forall|i: int| 0 <= i < outer.len() implies path.subrange(0, outer.len() as int)[i]
            == dir.subrange(0, outer.len() as int)[i] by {
            assert(path.subrange(0, dir.len() as int)[i] == path[i]);
        }
    }
}

/// A path lies in a directory exactly if it is that directory with further
/// components behind it.
pub proof fn law_lies_in_means_extends(path: Seq<Seq<u8>>, dir: Seq<Seq<u8>>)
    ensures
        lies_in(path, dir) <==> exists|rest: Seq<Seq<u8>>| path == #[trigger] (dir + rest),
{
    if lies_in(path, dir) {
        assert(path == dir + path.skip(dir.len() as int));
    }
    if exists|rest: Seq<Seq<u8>>| path == #[trigger] (dir + rest) {
        let rest = choose|rest: Seq<Seq<u8>>| path == #[trigger] (dir + rest);
        assert(path.subrange(0, dir.len() as int) == dir);
    }
}

} // verus!
