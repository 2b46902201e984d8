//! The virtual file tree.

use crate::names::{first_index, is_first, lemma_contains_first, lemma_first_index};
use crate::route::Route;
use vstd::prelude::*;

verus! {

/// A file tree as a mathematical value: what a [`VfsItem`] stands for.
pub enum VfsTree {
    File { name: Seq<char>, contents: Seq<char> },
    Dir { name: Seq<char>, children: Seq<VfsTree> },
}

impl VfsTree {
    /// The node's own name.
    pub open spec fn name(self) -> Seq<char> {
        match self {
            VfsTree::File { name, .. } => name,
            VfsTree::Dir { name, .. } => name,
        }
    }

    /// The names of `items`, in their order.
    pub open spec fn names(items: Seq<VfsTree>) -> Seq<Seq<char>> {
        items.map_values(|item: VfsTree| item.name())
    }

    /// The number of nodes in the tree.
    pub open spec fn size(self) -> nat
        decreases self,
    {
        match self {
            VfsTree::File { .. } => 1,
            VfsTree::Dir { children, .. } => 1 + Self::total_size(children),
        }
    }

    /// The number of nodes in all of `items` together.
    pub open spec fn total_size(items: Seq<VfsTree>) -> nat
        decreases items,
    {
        if items.len() == 0 {
            0
        } else {
            Self::total_size(items.drop_last()) + items.last().size()
        }
    }

    /// Whether no two children of any directory in the tree share a name.
    pub open spec fn well_formed(self) -> bool
        decreases self,
    {
        match self {
            VfsTree::File { .. } => true,
            VfsTree::Dir { children, .. } => {
                &&& Self::names(children).no_duplicates()
                &&& forall|i: int|
                    0 <= i < children.len() ==> (#[trigger] children[i]).well_formed()
            },
        }
    }

    /// The node that `route` addresses when walked from this node: each
    /// segment steps into the first child of that name. There is none where a
    /// segment names no child, or where segments remain at a file.
    pub open spec fn lookup(self, route: Seq<Seq<char>>) -> Option<VfsTree>
        decreases route.len(),
    {
        if route.len() == 0 {
            Some(self)
        } else {
            match self {
                VfsTree::File { .. } => None,
                VfsTree::Dir { children, .. } => {
                    if Self::names(children).contains(route[0]) {
                        children[first_index(Self::names(children), route[0])].lookup(route.skip(1))
                    } else {
                        None
                    }
                },
            }
        }
    }

    /// The children of a directory after `child` was put among them: in the
    /// place of the first child of its name, or at the end where none has its
    /// name.
    pub open spec fn with_child(children: Seq<VfsTree>, child: VfsTree) -> Seq<VfsTree> {
        if Self::names(children).contains(child.name()) {
            children.update(first_index(Self::names(children), child.name()), child)
        } else {
            children.push(child)
        }
    }

    /// The children of a directory after each of `more` was put among them,
    /// one after the other.
    pub open spec fn with_children(children: Seq<VfsTree>, more: Seq<VfsTree>) -> Seq<VfsTree>
        decreases more.len(),
    {
        if more.len() == 0 {
            children
        } else {
            Self::with_child(Self::with_children(children, more.drop_last()), more.last())
        }
    }

    /// The tree after `item` was put at `route`, walked from this node. The
    /// empty route puts it in this node's place. Any other route must lead
    /// through directories to the directory that is to hold the item, and end
    /// in the item's own name; there the item takes the place of the child of
    /// that name, or is added. Where the route does not, there is no such
    /// tree.
    pub open spec fn with_node(self, route: Seq<Seq<char>>, item: VfsTree) -> Option<VfsTree>
        decreases route.len(),
    {
        if route.len() == 0 {
            Some(item)
        } else {
            match self {
                VfsTree::File { .. } => None,
                VfsTree::Dir { name, children } => {
                    if route.len() == 1 {
                        if item.name() == route[0] {
                            Some(VfsTree::Dir { name, children: Self::with_child(children, item) })
                        } else {
                            None
                        }
                    } else if Self::names(children).contains(route[0]) {
                        let i = first_index(Self::names(children), route[0]);
                        match children[i].with_node(route.skip(1), item) {
                            Some(child) => Some(
                                VfsTree::Dir { name, children: children.update(i, child) },
                            ),
                            None => None,
                        }
                    } else {
                        None
                    }
                },
            }
        }
    }

    /// The tree after the node at `route`, walked from this node, was taken
    /// out. There is no such tree where the route is empty or addresses
    /// nothing.
    pub open spec fn without_node(self, route: Seq<Seq<char>>) -> Option<VfsTree>
        decreases route.len(),
    {
        if route.len() == 0 {
            None
        } else {
            match self {
                VfsTree::File { .. } => None,
                VfsTree::Dir { name, children } => {
                    if Self::names(children).contains(route[0]) {
                        let i = first_index(Self::names(children), route[0]);
                        if route.len() == 1 {
                            Some(VfsTree::Dir { name, children: children.remove(i) })
                        } else {
                            match children[i].without_node(route.skip(1)) {
                                Some(child) => Some(
                                    VfsTree::Dir { name, children: children.update(i, child) },
                                ),
                                None => None,
                            }
                        }
                    } else {
                        None
                    }
                },
            }
        }
    }

    /// Putting a child among children keeps their names distinct, and finds
    /// the child under its name.
    pub proof fn lemma_with_child(children: Seq<VfsTree>, child: VfsTree)
        ensures
            Self::names(Self::with_child(children, child)).contains(child.name()),
            Self::with_child(children, child)[first_index(
                Self::names(Self::with_child(children, child)),
                child.name(),
            )] == child,
            Self::names(children).no_duplicates() ==> Self::names(
                Self::with_child(children, child),
            ).no_duplicates(),
            forall|i: int|
                0 <= i < Self::with_child(children, child).len() ==> #[trigger] Self::with_child(
                    children,
                    child,
                )[i] == child || (i < children.len() && Self::with_child(children, child)[i]
                    == children[i]),
    {
        let names = Self::names(children);
        let after = Self::with_child(children, child);
        if names.contains(child.name()) {
            lemma_contains_first(names, child.name());
            let i = first_index(names, child.name());
            assert(Self::names(after) =~= names);
            assert(after[i] == child);
        } else {
            let i = children.len() as int;
            assert(Self::names(after) =~= names.push(child.name()));
            assert forall|j: int| 0 <= j < i implies Self::names(after)[j] != child.name() by {
                assert(names[j] == Self::names(after)[j]);
            }
            assert(is_first(Self::names(after), child.name(), i));
            lemma_first_index(Self::names(after), child.name(), i);
            if names.no_duplicates() {
                assert forall|a: int, b: int|
                    0 <= a < after.len() && 0 <= b < after.len() && a != b implies Self::names(
                    after,
                )[a] != Self::names(after)[b] by {
                    if a < i {
                        assert(names[a] == Self::names(after)[a]);
                    }
                    if b < i {
                        assert(names[b] == Self::names(after)[b]);
                    }
                }
            }
        }
    }

    /// Putting a node below this one, or taking one out below it, leaves this
    /// node's own name as it was.
    pub proof fn lemma_name_kept(self, route: Seq<Seq<char>>, item: VfsTree)
        requires
            route.len() > 0,
        ensures
            self.with_node(route, item) matches Some(tree) ==> tree.name() == self.name(),
            self.without_node(route) matches Some(tree) ==> tree.name() == self.name(),
    {
    }

    /// When a node can be put at a route: at the empty route always, and at
    /// any other where the route without its last segment addresses a
    /// directory and the last segment is the node's own name.
    pub proof fn lemma_with_node_possible(self, route: Seq<Seq<char>>, item: VfsTree)
        ensures
            self.with_node(route, item) is Some <==> route.len() == 0 || (self.lookup(
                route.drop_last(),
            ) matches Some(parent) && parent is Dir && item.name() == route.last()),
        decreases route.len(),
    {
        if route.len() == 1 {
            assert(route.drop_last().len() == 0);
        } else if route.len() > 1 {
            let front = route.drop_last();
            assert(front[0] == route[0]);
            assert(front.skip(1) =~= route.skip(1).drop_last());
            assert(route.skip(1).last() == route.last());
            if let VfsTree::Dir { name, children } = self {
                if Self::names(children).contains(route[0]) {
                    lemma_contains_first(Self::names(children), route[0]);
                    let i = first_index(Self::names(children), route[0]);
                    children[i].lemma_with_node_possible(route.skip(1), item);
                }
            }
        }
    }

    /// When a node can be taken out: where the route is not empty and
    /// addresses a node.
    pub proof fn lemma_without_node_possible(self, route: Seq<Seq<char>>)
        ensures
            self.without_node(route) is Some <==> route.len() > 0 && self.lookup(route) is Some,
        decreases route.len(),
    {
        if route.len() > 0 {
            if let VfsTree::Dir { name, children } = self {
                if Self::names(children).contains(route[0]) {
                    lemma_contains_first(Self::names(children), route[0]);
                    let i = first_index(Self::names(children), route[0]);
                    if route.len() == 1 {
                        assert(route.skip(1).len() == 0);
                        assert(children[i].lookup(route.skip(1)) is Some);
                    } else {
                        children[i].lemma_without_node_possible(route.skip(1));
                    }
                }
            }
        }
    }

    /// What was put at a route is what the route addresses afterwards.
    pub proof fn lemma_lookup_after_with_node(self, route: Seq<Seq<char>>, item: VfsTree)
        requires
            self.with_node(route, item) is Some,
        ensures
            self.with_node(route, item).unwrap().lookup(route) == Some(item),
        decreases route.len(),
    {
        if route.len() > 0 {
            let children = self->Dir_children;
            let names = Self::names(children);
            if route.len() == 1 {
                Self::lemma_with_child(children, item);
                assert(route.skip(1).len() == 0);
                assert(item.lookup(route.skip(1)) == Some(item));
            } else {
                lemma_contains_first(names, route[0]);
                let i = first_index(names, route[0]);
                let child = children[i].with_node(route.skip(1), item).unwrap();
                children[i].lemma_name_kept(route.skip(1), item);
                children[i].lemma_lookup_after_with_node(route.skip(1), item);
                let after = children.update(i, child);
                assert(Self::names(after) =~= names);
            }
        }
    }

    /// In a tree in which no directory holds two children of one name, a
    /// route addresses nothing once the node at it was taken out.
    pub proof fn lemma_lookup_after_without_node(self, route: Seq<Seq<char>>)
        requires
            self.well_formed(),
            self.without_node(route) is Some,
        ensures
            self.without_node(route).unwrap().lookup(route) is None,
        decreases route.len(),
    {
        let children = self->Dir_children;
        let names = Self::names(children);
        lemma_contains_first(names, route[0]);
        let i = first_index(names, route[0]);
        if route.len() == 1 {
            let after = children.remove(i);
            if Self::names(after).contains(route[0]) {
                let k = choose|k: int| 0 <= k < after.len() && Self::names(after)[k] == route[0];
                if k < i {
                    assert(names[k] == Self::names(after)[k]);
                } else {
                    assert(names[k + 1] == Self::names(after)[k]);
                }
            }
        } else {
            let child = children[i].without_node(route.skip(1)).unwrap();
            children[i].lemma_name_kept(route.skip(1), children[i]);
            assert(children[i].well_formed());
            children[i].lemma_lookup_after_without_node(route.skip(1));
            let after = children.update(i, child);
            assert(Self::names(after) =~= names);
        }
    }

    /// Putting a node into a tree, or taking one out, keeps the names of the
    /// children of every directory distinct, where they were so in the tree
    /// and in the node.
    pub proof fn lemma_well_formed_kept(self, route: Seq<Seq<char>>, item: VfsTree)
        requires
            self.well_formed(),
            item.well_formed(),
        ensures
            self.with_node(route, item) matches Some(tree) ==> tree.well_formed(),
            self.without_node(route) matches Some(tree) ==> tree.well_formed(),
        decreases route.len(),
    {
        if route.len() > 0 {
            if let VfsTree::Dir { name, children } = self {
                let names = Self::names(children);
                if route.len() == 1 {
                    Self::lemma_with_child(children, item);
                    let after = Self::with_child(children, item);
                    assert forall|k: int| 0 <= k < after.len() implies (
                    #[trigger] after[k]).well_formed() by {
                        if after[k] != item {
                            assert(children[k].well_formed());
                        }
                    }
                }
                if names.contains(route[0]) {
                    lemma_contains_first(names, route[0]);
                    let i = first_index(names, route[0]);
                    if route.len() == 1 {
                        let after = children.remove(i);
                        assert forall|a: int, b: int|
                            0 <= a < after.len() && 0 <= b < after.len() && a != b implies Self::names(
                            after,
                        )[a] != Self::names(after)[b] by {
                            let a0 = if a < i { a } else { a + 1 };
                            let b0 = if b < i { b } else { b + 1 };
                            assert(names[a0] == Self::names(after)[a]);
                            assert(names[b0] == Self::names(after)[b]);
                        }
                        assert forall|k: int| 0 <= k < after.len() implies (
                        #[trigger] after[k]).well_formed() by {
                            let k0 = if k < i { k } else { k + 1 };
                            assert(children[k0].well_formed());
                        }
                    } else {
                        assert(children[i].well_formed());
                        children[i].lemma_well_formed_kept(route.skip(1), item);
                        children[i].lemma_name_kept(route.skip(1), item);
                        if let Some(child) = children[i].with_node(route.skip(1), item) {
                            let after = children.update(i, child);
                            assert(Self::names(after) =~= names);
                            assert forall|k: int| 0 <= k < after.len() implies (
                            #[trigger] after[k]).well_formed() by {
                                if k != i {
                                    assert(children[k].well_formed());
                                }
                            }
                        }
                        if let Some(child) = children[i].without_node(route.skip(1)) {
                            let after = children.update(i, child);
                            assert(Self::names(after) =~= names);
                            assert forall|k: int| 0 <= k < after.len() implies (
                            #[trigger] after[k]).well_formed() by {
                                if k != i {
                                    assert(children[k].well_formed());
                                }
                            }
                        }
                    }
                }
            }
        }
    }

    /// Every one of `items` is smaller than all of them together.
    pub proof fn lemma_total_size(items: Seq<VfsTree>, i: int)
        requires
            0 <= i < items.len(),
        ensures
            items[i].size() <= Self::total_size(items),
        decreases items.len(),
    {
        if i < items.len() - 1 {
            Self::lemma_total_size(items.drop_last(), i);
        }
    }
}

/// A node of the virtual file tree: a file with its contents, or a directory
/// with its children.
///
/// A directory is meant to hold no two children of one name; where it does,
/// the first of them is the one that a route reaches.
#[derive(Debug, PartialEq, Eq)]
pub enum VfsItem {
    File { name: String, contents: String },
    Dir { name: String, children: Vec<VfsItem> },
}

impl View for VfsItem {
    type V = VfsTree;

    open spec fn view(&self) -> VfsTree
        decreases self,
    {
        match self {
            VfsItem::File { name, contents } => VfsTree::File { name: name@, contents: contents@ },
            VfsItem::Dir { name, children } => VfsTree::Dir {
                name: name@,
                children: Self::views(children@),
            },
        }
    }
}

impl VfsItem {
    /// The trees that `items` stand for, in their order.
    pub open spec fn views(items: Seq<VfsItem>) -> Seq<VfsTree>
        decreases items,
    {
        Seq::new(items.len(), |i: int| if 0 <= i < items.len() { items[i]@ } else { arbitrary() })
    }

    /// The tree that an item stands for, where there is an item.
    pub open spec fn option_view(item: Option<VfsItem>) -> Option<VfsTree> {
        match item {
            Some(item) => Some(item@),
            None => None,
        }
    }

    /// The node's own name.
    pub fn name(&self) -> (name: &String)
        ensures
            name@ == self@.name(),
    {
        match self {
            VfsItem::File { name, .. } => name,
            VfsItem::Dir { name, .. } => name,
        }
    }

    /// Whether the node is a directory.
    pub fn is_dir(&self) -> (b: bool)
        ensures
            b == (self@ is Dir),
    {
        match self {
            VfsItem::File { .. } => false,
            VfsItem::Dir { .. } => true,
        }
    }

    /// The position of the first of `children` called `name`.
    pub fn find(children: &Vec<VfsItem>, name: &String) -> (found: Option<usize>)
        ensures
            match found {
                Some(i) => is_first(VfsTree::names(Self::views(children@)), name@, i as int),
                None => !VfsTree::names(Self::views(children@)).contains(name@),
            },
    {
        let ghost names = VfsTree::names(Self::views(children@));
        let mut i: usize = 0;
        while i < children.len()
            invariant
                i <= children.len(),
                names == VfsTree::names(Self::views(children@)),
                forall|j: int| 0 <= j < i ==> names[j] != name@,
            decreases children.len() - i,
        {
            if *children[i].name() == *name {
                return Some(i);
            }
            i += 1;
        }
        None
    }

    /// Puts `child` among `children`: in the place of the first child of its
    /// name, or at the end where none has its name.
    pub fn insert_child(children: &mut Vec<VfsItem>, child: VfsItem)
        ensures
            Self::views(final(children)@) == VfsTree::with_child(
                Self::views(old(children)@),
                child@,
            ),
    {
        let ghost before = Self::views(children@);
        let ghost names = VfsTree::names(before);
        match Self::find(children, child.name()) {
            Some(i) => {
                proof {
                    lemma_first_index(names, child@.name(), i as int);
                }
                children[i] = child;
                assert(Self::views(children@) =~= before.update(i as int, child@));
            },
            None => {
                children.push(child);
                assert(Self::views(children@) =~= before.push(child@));
            },
        }
    }

    /// The child called `name` of a directory: the first, where several are
    /// called so. A file has no children.
    pub fn child(&self, name: &String) -> (child: Option<&VfsItem>)
        ensures
            match child {
                Some(child) => self@.lookup(seq![name@]) == Some(child@),
                None => self@.lookup(seq![name@]) is None,
            },
    {
        proof {
            reveal_with_fuel(VfsTree::lookup, 2);
            assert(seq![name@].len() == 1 && seq![name@][0] == name@);
            assert(seq![name@].skip(1).len() == 0);
        }
        match self {
            VfsItem::File { .. } => None,
            VfsItem::Dir { children, .. } => {
                let ghost names = VfsTree::names(Self::views(children@));
                match Self::find(children, name) {
                    Some(i) => {
                        proof {
                            lemma_first_index(names, name@, i as int);
                        }
                        Some(&children[i])
                    },
                    None => None,
                }
            },
        }
    }
}

/// Puts `item` at the part of `route` from `depth` on, walked from `node`.
/// Says whether it could; where it could not, `node` is left as it was.
fn put_node(node: &mut VfsItem, route: &Route, depth: usize, item: VfsItem) -> (done: bool)
    requires
        depth < route@.len(),
    ensures
        match old(node)@.with_node(route@.skip(depth as int), item@) {
            Some(tree) => done && final(node)@ == tree,
            None => !done && final(node)@ == old(node)@,
        },
    decreases route@.len() - depth,
{
    let ghost rest = route@.skip(depth as int);
    assert(rest.len() == route@.len() - depth && rest[0] == route@[depth as int]);
    assert(rest.skip(1) =~= route@.skip(depth as int + 1));
    assert(route@.len() == route.segments@.len());
    match node {
        VfsItem::File { .. } => false,
        VfsItem::Dir { name, children } => {
            let ghost before = VfsItem::views(children@);
            let ghost names = VfsTree::names(before);
            if depth == route.segments.len() - 1 {
                if *item.name() == route.segments[depth] {
                    VfsItem::insert_child(children, item);
                    true
                } else {
                    false
                }
            } else {
                match VfsItem::find(children, &route.segments[depth]) {
                    Some(i) => {
                        proof {
                            lemma_first_index(names, rest[0], i as int);
                        }
                        let done = put_node(&mut children[i], route, depth + 1, item);
                        assert(VfsItem::views(children@) =~= before.update(
                            i as int,
                            children@[i as int]@,
                        ));
                        assert(!done ==> VfsItem::views(children@) =~= before);
                        done
                    },
                    None => false,
                }
            }
        },
    }
}

/// Takes out the node at the part of `route` from `depth` on, walked from
/// `node`. Says whether there was one; where there was none, `node` is left as
/// it was.
fn take_node(node: &mut VfsItem, route: &Route, depth: usize) -> (done: bool)
    requires
        depth < route@.len(),
    ensures
        match old(node)@.without_node(route@.skip(depth as int)) {
            Some(tree) => done && final(node)@ == tree,
            None => !done && final(node)@ == old(node)@,
        },
    decreases route@.len() - depth,
{
    let ghost rest = route@.skip(depth as int);
    assert(rest.len() == route@.len() - depth && rest[0] == route@[depth as int]);
    assert(rest.skip(1) =~= route@.skip(depth as int + 1));
    assert(route@.len() == route.segments@.len());
    match node {
        VfsItem::File { .. } => false,
        VfsItem::Dir { name, children } => {
            let ghost before = VfsItem::views(children@);
            let ghost names = VfsTree::names(before);
            match VfsItem::find(children, &route.segments[depth]) {
                Some(i) => {
                    proof {
                        lemma_first_index(names, rest[0], i as int);
                    }
                    if depth == route.segments.len() - 1 {
                        children.remove(i);
                        assert(VfsItem::views(children@) =~= before.remove(i as int));
                        true
                    } else {
                        let done = take_node(&mut children[i], route, depth + 1);
                        assert(VfsItem::views(children@) =~= before.update(
                            i as int,
                            children@[i as int]@,
                        ));
                        assert(!done ==> VfsItem::views(children@) =~= before);
                        done
                    }
                },
                None => false,
            }
        },
    }
}

impl Clone for VfsItem {
    fn clone(&self) -> (copy: VfsItem)
        ensures
            copy@ == self@,
        decreases self,
    {
        match self {
            VfsItem::File { name, contents } => VfsItem::File {
                name: name.clone(),
                contents: contents.clone(),
            },
            VfsItem::Dir { name, children } => {
                let mut copies: Vec<VfsItem> = Vec::new();
                let mut i: usize = 0;
                while i < children.len()
                    invariant
                        i <= children.len(),
                        copies.len() == i,
                        forall|j: int| 0 <= j < i ==> copies@[j]@ == children@[j]@,
                        forall|j: int|
                            0 <= j < children.len() ==> decreases_to!(self => children@[j]),
                    decreases children.len() - i,
                {
                    copies.push(children[i].clone());
                    i += 1;
                }
                assert(VfsItem::views(copies@) =~= VfsItem::views(children@));
                VfsItem::Dir { name: name.clone(), children: copies }
            },
        }
    }
}

/// Why the store could not do what was asked.
#[derive(Debug, Clone, Copy, PartialEq, Eq)]
pub enum VfsError {
    /// The route addresses no node of the tree, or no place where the node
    /// given could stand.
    RouteNotFound,
}

/// A change record as a mathematical value: what a [`VfsChange`] stands for.
pub struct ChangeRecord {
    pub route: Seq<Seq<char>>,
    pub timestamp: u64,
}

/// The record of one change to the file tree: the route of the node that
/// changed, and the time of the store's clock at which it did.
#[derive(Debug, PartialEq, Eq)]
pub struct VfsChange {
    pub route: Route,
    pub timestamp: u64,
}

impl View for VfsChange {
    type V = ChangeRecord;

    open spec fn view(&self) -> ChangeRecord {
        ChangeRecord { route: self.route@, timestamp: self.timestamp }
    }
}

impl VfsChange {
    /// The records that `changes` stand for, in their order.
    pub open spec fn views(changes: Seq<VfsChange>) -> Seq<ChangeRecord> {
        changes.map_values(|change: VfsChange| change@)
    }
}

impl Clone for VfsChange {
    fn clone(&self) -> (copy: VfsChange)
        ensures
            copy@ == self@,
    {
        VfsChange { route: self.route.clone(), timestamp: self.timestamp }
    }
}

/// Whether `log` is a change log as the store keeps it: in the order of the
/// clock, and with no record later than `time`.
pub open spec fn log_in_order(log: Seq<ChangeRecord>, time: u64) -> bool {
    &&& forall|i: int| 0 <= i < log.len() ==> (#[trigger] log[i]).timestamp <= time
    &&& forall|i: int, j: int|
        0 <= i <= j < log.len() ==> (#[trigger] log[i]).timestamp <= (#[trigger] log[j]).timestamp
}

/// The records of `log` that are later than `timestamp`, in their order.
pub open spec fn changes_after(log: Seq<ChangeRecord>, timestamp: u64) -> Seq<ChangeRecord> {
    log.filter(|change: ChangeRecord| change.timestamp > timestamp)
}

/// Where a log in order is cut so that all before the cut is no later than
/// `timestamp` and all from the cut on is later, the records after `timestamp`
/// are those from the cut on.
pub proof fn lemma_changes_after_cut(log: Seq<ChangeRecord>, timestamp: u64, cut: int)
    requires
        0 <= cut <= log.len(),
        forall|i: int| 0 <= i < cut ==> (#[trigger] log[i]).timestamp <= timestamp,
        forall|i: int| cut <= i < log.len() ==> (#[trigger] log[i]).timestamp > timestamp,
    ensures
        changes_after(log, timestamp) == log.skip(cut),
    decreases log.len(),
{
    reveal(Seq::filter);
    if cut == log.len() {
        lemma_changes_after_none(log, timestamp);
        assert(log.skip(cut) =~= Seq::<ChangeRecord>::empty());
    } else {
        let front = log.drop_last();
        lemma_changes_after_cut(front, timestamp, cut);
        assert(log[log.len() - 1].timestamp > timestamp);
        assert(log.skip(cut) =~= front.skip(cut).push(log.last()));
    }
}

/// Where no record of a log is later than `timestamp`, none is after it.
pub proof fn lemma_changes_after_none(log: Seq<ChangeRecord>, timestamp: u64)
    requires
        forall|i: int| 0 <= i < log.len() ==> (#[trigger] log[i]).timestamp <= timestamp,
    ensures
        changes_after(log, timestamp) == Seq::<ChangeRecord>::empty(),
    decreases log.len(),
{
    reveal(Seq::filter);
    if log.len() > 0 {
        lemma_changes_after_none(log.drop_last(), timestamp);
        assert(log[log.len() - 1].timestamp <= timestamp);
    } else {
        assert(changes_after(log, timestamp) =~= Seq::<ChangeRecord>::empty());
    }
}

/// The number of records at the head of a log that are no later than
/// `timestamp`.
pub open spec fn cut_of(log: Seq<ChangeRecord>, timestamp: u64) -> int
    decreases log.len(),
{
    if log.len() == 0 || log[0].timestamp > timestamp {
        0
    } else {
        1 + cut_of(log.skip(1), timestamp)
    }
}

/// In a log in order, the cut for `timestamp` parts the records no later than
/// it from those later, and the records after `timestamp` are those from the
/// cut on.
pub proof fn lemma_cut_of(log: Seq<ChangeRecord>, time: u64, timestamp: u64)
    requires
        log_in_order(log, time),
    ensures
        0 <= cut_of(log, timestamp) <= log.len(),
        forall|i: int|
            0 <= i < cut_of(log, timestamp) ==> (#[trigger] log[i]).timestamp <= timestamp,
        forall|i: int|
            cut_of(log, timestamp) <= i < log.len() ==> (#[trigger] log[i]).timestamp > timestamp,
        changes_after(log, timestamp) == log.skip(cut_of(log, timestamp)),
    decreases log.len(),
{
    if log.len() == 0 || log[0].timestamp > timestamp {
        assert forall|i: int| 0 <= i < log.len() implies (#[trigger] log[i]).timestamp
            > timestamp by {
            assert(log[0].timestamp <= log[i].timestamp);
        }
    } else {
        let rest = log.skip(1);
        assert(log_in_order(rest, time)) by {
            assert forall|i: int| 0 <= i < rest.len() implies (#[trigger] rest[i]).timestamp
                <= time by {
                assert(rest[i] == log[i + 1]);
            }
            assert forall|i: int, j: int| 0 <= i <= j < rest.len() implies (
            #[trigger] rest[i]).timestamp <= (#[trigger] rest[j]).timestamp by {
                assert(rest[i] == log[i + 1]);
                assert(rest[j] == log[j + 1]);
            }
        }
        lemma_cut_of(rest, time, timestamp);
        let cut = cut_of(log, timestamp);
        assert forall|i: int| 0 <= i < cut implies (#[trigger] log[i]).timestamp <= timestamp by {
            if i > 0 {
                assert(log[i] == rest[i - 1]);
            }
        }
        assert forall|i: int| cut <= i < log.len() implies (#[trigger] log[i]).timestamp
            > timestamp by {
            assert(log[i] == rest[i - 1]);
        }
    }
    lemma_changes_after_cut(log, timestamp, cut_of(log, timestamp));
}

/// Asking for the changes since a later time gives no more: for `earlier <=
/// later`, the changes after `later` are an end piece of the changes after
/// `earlier`, in the same order, and are what is left of those when the ones
/// no later than `later` are dropped.
pub proof fn lemma_changes_after_monotonic(
    log: Seq<ChangeRecord>,
    time: u64,
    earlier: u64,
    later: u64,
)
    requires
        log_in_order(log, time),
        earlier <= later,
    ensures
        changes_after(log, later).len() <= changes_after(log, earlier).len(),
        changes_after(log, later) == changes_after(log, earlier).skip(
            changes_after(log, earlier).len() - changes_after(log, later).len(),
        ),
        changes_after(log, later) == changes_after(changes_after(log, earlier), later),
{
    lemma_cut_of(log, time, earlier);
    lemma_cut_of(log, time, later);
    let first = cut_of(log, earlier);
    let second = cut_of(log, later);
    if second < first {
        assert(log[second].timestamp <= earlier);
        assert(log[second].timestamp > later);
    }
    let since = log.skip(first);
    assert(since.skip(second - first) =~= log.skip(second));
    assert forall|i: int| 0 <= i < second - first implies (#[trigger] since[i]).timestamp
        <= later by {
        assert(since[i] == log[first + i]);
    }
    assert forall|i: int| second - first <= i < since.len() implies (#[trigger] since[i]).timestamp
        > later by {
        assert(since[i] == log[first + i]);
    }
    lemma_changes_after_cut(since, later, second - first);
}

/// Asking for the changes since the clock's time, or since a later time,
/// gives none.
pub proof fn lemma_no_changes_after_now(log: Seq<ChangeRecord>, time: u64, timestamp: u64)
    requires
        log_in_order(log, time),
        timestamp >= time,
    ensures
        changes_after(log, timestamp) == Seq::<ChangeRecord>::empty(),
{
    lemma_changes_after_none(log, timestamp);
}

/// Asking for the changes since a time before every record gives the whole
/// log.
pub proof fn lemma_all_changes_after_start(log: Seq<ChangeRecord>, timestamp: u64)
    requires
        forall|i: int| 0 <= i < log.len() ==> (#[trigger] log[i]).timestamp > timestamp,
    ensures
        changes_after(log, timestamp) == log,
{
    lemma_changes_after_cut(log, timestamp, 0);
    assert(log.skip(0) =~= log);
}

/// The store: the current file tree, a logical clock, and the log of every
/// change to the tree.
///
/// The clock only moves forward, and every change moves it. The log is never
/// rewritten: a change appends one record, stamped with the clock's new time.
pub struct Vfs {
    root: VfsItem,
    current_time: u64,
    changes: Vec<VfsChange>,
}

impl Vfs {
    /// What holds of every store: its log is in the order of the clock, and
    /// no record is later than the clock's time.
    #[verifier::type_invariant]
    spec fn in_order(&self) -> bool {
        log_in_order(VfsChange::views(self.changes@), self.current_time)
    }

    /// The tree that the store holds.
    pub closed spec fn tree(&self) -> VfsTree {
        self.root@
    }

    /// The time of the store's clock.
    pub closed spec fn time(&self) -> u64 {
        self.current_time
    }

    /// The log of the store: one record for each change so far, oldest first.
    pub closed spec fn log(&self) -> Seq<ChangeRecord> {
        VfsChange::views(self.changes@)
    }

    /// A store that holds `root`, with the clock at zero and an empty log.
    pub fn new(root: VfsItem) -> (vfs: Vfs)
        ensures
            vfs.tree() == root@,
            vfs.time() == 0,
            vfs.log() == Seq::<ChangeRecord>::empty(),
    {
        let vfs = Vfs { root, current_time: 0, changes: Vec::new() };
        assert(vfs.log() =~= Seq::<ChangeRecord>::empty());
        vfs
    }

    /// The time of the store's clock. No record of the log is later, and the
    /// log is in the order of the clock.
    pub fn current_time(&self) -> (time: u64)
        ensures
            time == self.time(),
            log_in_order(self.log(), time),
    {
        proof {
            use_type_invariant(self);
        }
        self.current_time
    }

    /// The root of the tree that the store holds.
    pub fn root(&self) -> (root: &VfsItem)
        ensures
            root@ == self.tree(),
    {
        &self.root
    }

    /// The node at `route`: found by stepping from the root into the child
    /// that each segment names. It is `RouteNotFound` where a segment names no
    /// child, or where segments remain at a file.
    pub fn read(&self, route: &Route) -> (result: Result<&VfsItem, VfsError>)
        ensures
            match result {
                Ok(item) => self.tree().lookup(route@) == Some(item@),
                Err(error) => error == VfsError::RouteNotFound && self.tree().lookup(route@)
                    is None,
            },
    {
        let mut node: &VfsItem = &self.root;
        let mut depth: usize = 0;
        assert(route@.skip(0) =~= route@);
        assert(route@.len() == route.segments@.len());
        while depth < route.segments.len()
            invariant
                depth <= route.segments.len(),
                route@.len() == route.segments@.len(),
                self.tree().lookup(route@) == node@.lookup(route@.skip(depth as int)),
            decreases route.segments.len() - depth,
        {
            let ghost rest = route@.skip(depth as int);
            assert(rest.len() > 0 && rest[0] == route@[depth as int]);
            assert(rest.skip(1) =~= route@.skip(depth as int + 1));
            match node {
                VfsItem::File { .. } => {
                    return Err(VfsError::RouteNotFound);
                },
                VfsItem::Dir { children, .. } => {
                    match VfsItem::find(children, &route.segments[depth]) {
                        Some(i) => {
                            proof {
                                lemma_first_index(
                                    VfsTree::names(VfsItem::views(children@)),
                                    rest[0],
                                    i as int,
                                );
                            }
                            node = &children[i];
                        },
                        None => {
                            return Err(VfsError::RouteNotFound);
                        },
                    }
                },
            }
            depth += 1;
        }
        Ok(node)
    }

    /// The changes later than `timestamp`, in the order in which they were
    /// recorded: an end piece of the log. There are none where `timestamp` is
    /// the clock's time or later.
    pub fn changes_since(&self, timestamp: u64) -> (changes: &[VfsChange])
        ensures
            VfsChange::views(changes@) == changes_after(self.log(), timestamp),
            log_in_order(self.log(), self.time()),
            timestamp >= self.time() ==> changes@.len() == 0,
    {
        proof {
            use_type_invariant(self);
        }
        let ghost log = VfsChange::views(self.changes@);
        let mut cut: usize = 0;
        while cut < self.changes.len() && self.changes[cut].timestamp <= timestamp
            invariant
                cut <= self.changes.len(),
                log == VfsChange::views(self.changes@),
                forall|i: int| 0 <= i < cut ==> (#[trigger] log[i]).timestamp <= timestamp,
            decreases self.changes.len() - cut,
        {
            cut += 1;
        }
        proof {
            assert forall|i: int| cut <= i < log.len() implies (#[trigger] log[i]).timestamp
                > timestamp by {
                assert(log[cut as int].timestamp <= log[i].timestamp);
            }
            lemma_changes_after_cut(log, timestamp, cut as int);
            if timestamp >= self.current_time && cut < log.len() {
                assert(log[cut as int].timestamp <= self.current_time);
            }
        }
        let changes = vstd::slice::slice_subrange(
            self.changes.as_slice(),
            cut,
            self.changes.len(),
        );
        assert(VfsChange::views(changes@) =~= log.skip(cut as int));
        changes
    }

    /// Records a change at `route`: moves the clock on by one and appends the
    /// record of `route` at the new time.
    fn record(&mut self, route: &Route)
        requires
            old(self).time() < u64::MAX,
        ensures
            final(self).tree() == old(self).tree(),
            final(self).time() == old(self).time() + 1,
            final(self).log() == old(self).log().push(
                ChangeRecord { route: route@, timestamp: final(self).time() },
            ),
    {
        proof {
            use_type_invariant(&*self);
        }
        let ghost log = VfsChange::views(self.changes@);
        // The log is taken out while it grows: the store is in order at every
        // moment at which one of its fields is lent out.
        let mut changes: Vec<VfsChange> = Vec::new();
        core::mem::swap(&mut self.changes, &mut changes);
        let time = self.current_time + 1;
        self.current_time = time;
        changes.push(VfsChange { route: route.clone(), timestamp: time });
        proof {
            let longer = VfsChange::views(changes@);
            assert(longer =~= log.push(ChangeRecord { route: route@, timestamp: time }));
            assert forall|i: int| 0 <= i < longer.len() implies (#[trigger] longer[i]).timestamp
                <= time by {
                if i < log.len() {
                    assert(longer[i] == log[i]);
                }
            }
            assert forall|i: int, j: int| 0 <= i <= j < longer.len() implies (
            #[trigger] longer[i]).timestamp <= (#[trigger] longer[j]).timestamp by {
                if i < log.len() {
                    assert(longer[i] == log[i]);
                }
                if j < log.len() {
                    assert(longer[j] == log[j]);
                }
            }
        }
        core::mem::swap(&mut self.changes, &mut changes);
    }

    /// Takes the root out of the store, leaving an empty file in its place.
    fn take_root(&mut self) -> (root: VfsItem)
        ensures
            root@ == old(self).tree(),
            final(self).time() == old(self).time(),
            final(self).log() == old(self).log(),
    {
        proof {
            use_type_invariant(&*self);
        }
        let mut root = VfsItem::File { name: String::new(), contents: String::new() };
        core::mem::swap(&mut self.root, &mut root);
        root
    }

    /// Puts `root` back into the store.
    fn set_root(&mut self, root: VfsItem)
        ensures
            final(self).tree() == root@,
            final(self).time() == old(self).time(),
            final(self).log() == old(self).log(),
    {
        proof {
            use_type_invariant(&*self);
        }
        self.root = root;
    }

    /// Puts `item` at `route`, as one change.
    ///
    /// The empty route puts it in the root's place. Any other route must lead
    /// through directories to the directory that is to hold the item, and end
    /// in the item's own name; there the item takes the place of the child of
    /// that name, or is added as the last child. The clock then moves on by
    /// one, and the record of `route` at the new time is appended to the log.
    ///
    /// Where the route does not lead to such a place, the result is
    /// `RouteNotFound` and nothing has changed: tree, clock and log are as
    /// before.
    pub fn write(&mut self, route: &Route, item: VfsItem) -> (result: Result<(), VfsError>)
        requires
            old(self).time() < u64::MAX,
        ensures
            match old(self).tree().with_node(route@, item@) {
                Some(tree) => {
                    &&& result is Ok
                    &&& final(self).tree() == tree
                    &&& final(self).time() == old(self).time() + 1
                    &&& final(self).log() == old(self).log().push(
                        ChangeRecord { route: route@, timestamp: final(self).time() },
                    )
                },
                None => {
                    &&& result == Err::<(), VfsError>(VfsError::RouteNotFound)
                    &&& final(self).tree() == old(self).tree()
                    &&& final(self).time() == old(self).time()
                    &&& final(self).log() == old(self).log()
                },
            },
    {
        assert(route@.skip(0) =~= route@);
        assert(route@.len() == route.segments@.len());
        let done = if route.segments.len() == 0 {
            self.set_root(item);
            true
        } else {
            let mut root = self.take_root();
            let done = put_node(&mut root, route, 0, item);
            self.set_root(root);
            done
        };
        if done {
            self.record(route);
            Ok(())
        } else {
            Err(VfsError::RouteNotFound)
        }
    }

    /// Takes the node at `route` out of the tree, as one change.
    ///
    /// The node is found as [`Vfs::read`] finds it. The clock then moves on by
    /// one, and the record of `route` at the new time is appended to the log.
    ///
    /// Where the route is empty or addresses no node, the result is
    /// `RouteNotFound` and nothing has changed: tree, clock and log are as
    /// before.
    pub fn remove(&mut self, route: &Route) -> (result: Result<(), VfsError>)
        requires
            old(self).time() < u64::MAX,
        ensures
            match old(self).tree().without_node(route@) {
                Some(tree) => {
                    &&& result is Ok
                    &&& final(self).tree() == tree
                    &&& final(self).time() == old(self).time() + 1
                    &&& final(self).log() == old(self).log().push(
                        ChangeRecord { route: route@, timestamp: final(self).time() },
                    )
                },
                None => {
                    &&& result == Err::<(), VfsError>(VfsError::RouteNotFound)
                    &&& final(self).tree() == old(self).tree()
                    &&& final(self).time() == old(self).time()
                    &&& final(self).log() == old(self).log()
                },
            },
    {
        assert(route@.skip(0) =~= route@);
        assert(route@.len() == route.segments@.len());
        let done = if route.segments.len() == 0 {
            false
        } else {
            let mut root = self.take_root();
            let done = take_node(&mut root, route, 0);
            self.set_root(root);
            done
        };
        if done {
            self.record(route);
            Ok(())
        } else {
            Err(VfsError::RouteNotFound)
        }
    }
}

} // verus!
