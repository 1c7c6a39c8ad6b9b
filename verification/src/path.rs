//! Paths as sequences of components.
use vstd::prelude::*;

verus! {

/// The components of `names`, each as its characters.
pub open spec fn names_view(names: Seq<String>) -> Seq<Seq<char>> {
    names.map_values(|name: String| name@)
}

/// A copy of `names`.
pub fn clone_names(names: &Vec<String>) -> (copy: Vec<String>)
    ensures
        names_view(copy@) == names_view(names@),
{
    let mut copy: Vec<String> = Vec::new();
    let mut i: usize = 0;
    while i < names.len()
        invariant
            i <= names.len(),
            copy@.len() == i,
            forall|k: int| 0 <= k < i ==> copy@[k]@ == names@[k]@,
        decreases names.len() - i,
    {
        copy.push(names[i].clone());
        i += 1;
    }
    assert(names_view(copy@) =~= names_view(names@));
    copy
}

/// The path of the entry `name` in the directory `path`.
pub fn child(path: &Vec<String>, name: &String) -> (entry: Vec<String>)
    ensures
        names_view(entry@) == names_view(path@).push(name@),
{
    let mut entry = clone_names(path);
    let ghost before = entry@;
    entry.push(name.clone());
    assert(names_view(entry@) =~= names_view(before).push(name@));
    entry
}

/// `path` is `base` or lies below it: the components of `base` begin `path`.
pub open spec fn below(base: Seq<Seq<char>>, path: Seq<Seq<char>>) -> bool {
    base.is_prefix_of(path)
}

/// The way from `base` down to `path`, where `path` is `base` or lies below it.
pub open spec fn way(base: Seq<Seq<char>>, path: Seq<Seq<char>>) -> Seq<Seq<char>> {
    path.skip(base.len() as int)
}

/// Neither path is the other or lies below it.
pub open spec fn apart(a: Seq<Seq<char>>, b: Seq<Seq<char>>) -> bool {
    !below(a, b) && !below(b, a)
}

/// Whether `path` is `base` or lies below it.
pub fn is_below(base: &Vec<String>, path: &Vec<String>) -> (b: bool)
    ensures
        b == below(names_view(base@), names_view(path@)),
{
    let ghost upper = names_view(base@);
    let ghost lower = names_view(path@);
    let n = base.len();
    if n > path.len() {
        return false;
    }
    let mut i: usize = 0;
    while i < n
        invariant
            i <= n,
            n == base@.len(),
            n <= path@.len(),
            upper == names_view(base@),
            lower == names_view(path@),
            forall|k: int| 0 <= k < i ==> upper[k] == lower[k],
        decreases n - i,
    {
        if base[i] != path[i] {
            assert(upper[i as int] != lower[i as int]);
            return false;
        }
        i += 1;
    }
    assert(upper =~= lower.subrange(0, n as int));
    true
}

/// Whether neither path is the other or lies below it.
pub fn are_apart(a: &Vec<String>, b: &Vec<String>) -> (r: bool)
    ensures
        r == apart(names_view(a@), names_view(b@)),
{
    !is_below(a, b) && !is_below(b, a)
}

/// A path is below itself, on the empty way; an entry of a path below a root
/// is below the root, one name further down the same way.
pub proof fn lemma_below_entry(base: Seq<Seq<char>>, path: Seq<Seq<char>>, name: Seq<char>)
    ensures
        below(base, base),
        way(base, base) == Seq::<Seq<char>>::empty(),
        below(base, path) ==> below(base, path.push(name)) && way(base, path.push(name)) == way(
            base,
            path,
        ).push(name),
{
    assert(base.subrange(0, base.len() as int) =~= base);
    assert(way(base, base) =~= Seq::<Seq<char>>::empty());
    if below(base, path) {
        assert(path.push(name).subrange(0, base.len() as int) =~= path.subrange(
            0,
            base.len() as int,
        ));
        assert(way(base, path.push(name)) =~= way(base, path).push(name));
    }
}

/// A path is its root and the way down from it.
pub proof fn lemma_way(base: Seq<Seq<char>>, rel: Seq<Seq<char>>, path: Seq<Seq<char>>)
    ensures
        below(base, base + rel),
        way(base, base + rel) == rel,
        below(base, path) ==> base + way(base, path) == path,
{
    assert((base + rel).subrange(0, base.len() as int) =~= base);
    assert(way(base, base + rel) =~= rel);
    if below(base, path) {
        assert(base + way(base, path) =~= path);
    }
}

/// What lies below a path lies below every path above it, and two paths
/// above one path lie one above the other.
pub proof fn lemma_above(a: Seq<Seq<char>>, b: Seq<Seq<char>>, c: Seq<Seq<char>>)
    ensures
        below(a, b) && below(b, c) ==> below(a, c),
        below(a, c) && below(b, c) ==> below(a, b) || below(b, a),
        forall|k: int| 0 <= k <= c.len() ==> below(#[trigger] c.take(k), c),
{
    if below(a, b) && below(b, c) {
        assert(c.subrange(0, a.len() as int) =~= b.subrange(0, a.len() as int));
    }
    if below(a, c) && below(b, c) {
        if a.len() <= b.len() {
            assert(b.subrange(0, a.len() as int) =~= c.subrange(0, a.len() as int));
        } else {
            assert(a.subrange(0, b.len() as int) =~= c.subrange(0, b.len() as int));
        }
    }
    assert forall|k: int| 0 <= k <= c.len() implies below(#[trigger] c.take(k), c) by {
        assert(c.subrange(0, c.take(k).len() as int) =~= c.take(k));
    }
}

} // verus!
