//! Routes: the coordinates shared by the file tree and the instance tree.

use vstd::prelude::*;
use vstd::std_specs::cmp::PartialEqSpecImpl;

verus! {

/// An ordered path of name segments that addresses one node of a tree.
///
/// The empty route addresses the root; every further segment names a child of
/// the node reached so far. Segments are opaque names: `.` and `..` have no
/// special meaning.
#[derive(Debug)]
pub struct Route {
    pub segments: Vec<String>,
}

/// The segments of a sequence of strings, each as its characters.
pub open spec fn segment_views(segments: Seq<String>) -> Seq<Seq<char>> {
    segments.map_values(|s: String| s@)
}

impl View for Route {
    type V = Seq<Seq<char>>;

    open spec fn view(&self) -> Seq<Seq<char>> {
        segment_views(self.segments@)
    }
}

impl Route {
    /// The routes that `routes` stand for, in their order.
    pub open spec fn views(routes: Seq<Route>) -> Seq<Seq<Seq<char>>> {
        routes.map_values(|route: Route| route@)
    }

    /// The route made of `segments`, in their order.
    pub fn new(segments: Vec<String>) -> (route: Route)
        ensures
            route.segments == segments,
            route@ == segment_views(segments@),
    {
        Route { segments }
    }

    /// The route whose segments are copies of `segments`, in their order.
    pub fn from_segments(segments: &Vec<String>) -> (route: Route)
        ensures
            route@ == segment_views(segments@),
    {
        let route = Route { segments: clone_segments(segments, segments.len()) };
        assert(route@ =~= segment_views(segments@));
        route
    }

    /// The route of the root: no segments.
    pub fn root() -> (route: Route)
        ensures
            route@ == Seq::<Seq<char>>::empty(),
    {
        let route = Route { segments: Vec::new() };
        assert(route@ =~= Seq::<Seq<char>>::empty());
        route
    }

    /// The number of segments.
    pub fn len(&self) -> (n: usize)
        ensures
            n == self@.len(),
    {
        self.segments.len()
    }

    /// Whether this route addresses the root.
    pub fn is_root(&self) -> (b: bool)
        ensures
            b == (self@.len() == 0),
    {
        self.segments.len() == 0
    }

    /// The last segment: the own name of the node addressed. The root has none.
    pub fn name(&self) -> (name: Option<&String>)
        ensures
            self@.len() == 0 ==> name is None,
            self@.len() > 0 ==> name is Some && name.unwrap()@ == self@.last(),
    {
        let n = self.segments.len();
        if n == 0 {
            None
        } else {
            Some(&self.segments[n - 1])
        }
    }

    /// The route of the enclosing node: all but the last segment. The root has
    /// none.
    pub fn parent(&self) -> (parent: Option<Route>)
        ensures
            self@.len() == 0 ==> parent is None,
            self@.len() > 0 ==> parent is Some && parent.unwrap()@ == self@.drop_last(),
    {
        let n = self.segments.len();
        if n == 0 {
            None
        } else {
            let segments = clone_segments(&self.segments, n - 1);
            let parent = Route { segments };
            assert(parent@ =~= self@.drop_last());
            Some(parent)
        }
    }

    /// The route of the child called `name` of the node addressed.
    pub fn child(&self, name: &str) -> (child: Route)
        ensures
            child@ == self@.push(name@),
    {
        let mut segments = clone_segments(&self.segments, self.segments.len());
        assert(segment_views(segments@) =~= self@);
        segments.push(name.to_owned());
        let child = Route { segments };
        assert forall|i: int| 0 <= i < self@.len() implies child@[i] == self@[i] by {
            assert(child@[i] == segment_views(child.segments@.drop_last())[i]);
        }
        assert(child@ =~= self@.push(name@));
        child
    }
}

/// Copies the first `count` segments of `segments`.
fn clone_segments(segments: &Vec<String>, count: usize) -> (copy: Vec<String>)
    requires
        count <= segments.len(),
    ensures
        segment_views(copy@) == segment_views(segments@).take(count as int),
{
    let mut copy: Vec<String> = Vec::new();
    let mut i: usize = 0;
    while i < count
        invariant
            i <= count <= segments.len(),
            copy.len() == i,
            forall|j: int| 0 <= j < i ==> copy@[j]@ == segments@[j]@,
        decreases count - i,
    {
        copy.push(segments[i].clone());
        i += 1;
    }
    assert(segment_views(copy@) =~= segment_views(segments@).take(count as int));
    copy
}

impl Clone for Route {
    fn clone(&self) -> (copy: Route)
        ensures
            copy@ == self@,
    {
        let segments = clone_segments(&self.segments, self.segments.len());
        let copy = Route { segments };
        assert(copy@ =~= self@);
        copy
    }
}

impl PartialEq for Route {
    fn eq(&self, other: &Route) -> (equal: bool) {
        let n = self.segments.len();
        if other.segments.len() != n {
            assert(self@.len() != other@.len());
            return false;
        }
        let mut i: usize = 0;
        while i < n
            invariant
                i <= n,
                n == self.segments.len(),
                n == other.segments.len(),
                forall|j: int| 0 <= j < i ==> self.segments@[j]@ == other.segments@[j]@,
            decreases n - i,
        {
            if self.segments[i] != other.segments[i] {
                assert(self@[i as int] != other@[i as int]);
                return false;
            }
            i += 1;
        }
        assert(self@ =~= other@);
        true
    }
}

impl PartialEqSpecImpl for Route {
    open spec fn obeys_eq_spec() -> bool {
        true
    }

    open spec fn eq_spec(&self, other: &Route) -> bool {
        self@ == other@
    }
}

impl Eq for Route {}

} // verus!
