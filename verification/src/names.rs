//! Finding a name in a sequence of names.

use vstd::prelude::*;

verus! {

/// Whether `i` is the first position at which `name` stands in `names`.
pub open spec fn is_first(names: Seq<Seq<char>>, name: Seq<char>, i: int) -> bool {
    &&& 0 <= i < names.len()
    &&& names[i] == name
    &&& forall|j: int| 0 <= j < i ==> names[j] != name
}

/// The first position at which `name` stands in `names`, where it stands
/// there at all.
pub open spec fn first_index(names: Seq<Seq<char>>, name: Seq<char>) -> int {
    choose|i: int| is_first(names, name, i)
}

/// A position that is known to be first is the first position.
pub proof fn lemma_first_index(names: Seq<Seq<char>>, name: Seq<char>, i: int)
    requires
        is_first(names, name, i),
    ensures
        names.contains(name),
        first_index(names, name) == i,
{
    let k = first_index(names, name);
    assert(is_first(names, name, k));
    if k < i {
        assert(names[k] != name);
    } else if i < k {
        assert(names[i] != name);
    }
}

/// A name that occurs has a first position.
pub proof fn lemma_contains_first(names: Seq<Seq<char>>, name: Seq<char>)
    requires
        names.contains(name),
    ensures
        is_first(names, name, first_index(names, name)),
    decreases names.len(),
{
    let k = choose|k: int| 0 <= k < names.len() && names[k] == name;
    if forall|j: int| 0 <= j < k ==> names[j] != name {
        assert(is_first(names, name, k));
    } else {
        let j = choose|j: int| 0 <= j < k && names[j] == name;
        let front = names.take(k);
        assert(front[j] == name);
        assert(front.contains(name));
        lemma_contains_first(front, name);
        let f = first_index(front, name);
        assert(is_first(front, name, f));
        assert(names[f] == front[f]);
        assert forall|j: int| 0 <= j < f implies names[j] != name by {
            assert(names[j] == front[j]);
        }
        assert(is_first(names, name, f));
    }
}

} // verus!
