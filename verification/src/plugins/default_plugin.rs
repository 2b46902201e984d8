//! The plugin that answers for every node.

use crate::plugin::{
    is_file_chain, is_rbx_chain, FileChangeResult, Plugin, PluginChain, TransformFileResult,
    TransformRbxResult,
};
use crate::rbx::{RbxItem, RbxTree, RbxValue, RbxValueView};
use crate::route::Route;
use crate::vfs::{VfsItem, VfsTree};
use crate::names::lemma_first_index;
use vstd::prelude::*;

verus! {

/// A plugin with simple transforms:
/// * directories become `Folder` instances, and `Folder` instances
///   directories;
/// * files become `StringValue` instances with their contents as the property
///   `Value`, and every other instance becomes a file of what its `Value`
///   holds.
///
/// It answers for every node and every route, so nothing placed behind it in
/// a chain is ever asked.
#[derive(Debug, PartialEq, Eq)]
pub struct DefaultPlugin;

impl DefaultPlugin {
    /// The class of the instance that a directory becomes.
    pub open spec fn folder_class() -> Seq<char> {
        "Folder"@
    }

    /// The class of the instance that a file becomes.
    pub open spec fn file_class() -> Seq<char> {
        "StringValue"@
    }

    /// The property that holds a file's contents.
    pub open spec fn contents_key() -> Seq<char> {
        "Value"@
    }

    /// The instance that a file-tree node becomes. A directory keeps, in their
    /// order, those of its children of which `chain` makes an instance.
    pub open spec fn instance_of(
        item: VfsTree,
        chain: spec_fn(VfsTree) -> Option<RbxTree>,
    ) -> RbxTree {
        match item {
            VfsTree::File { name, contents } => RbxTree {
                name,
                class_name: Self::file_class(),
                children: Seq::empty(),
                properties: Map::empty().insert(
                    Self::contents_key(),
                    RbxValueView::String { value: contents },
                ),
            },
            VfsTree::Dir { name, children } => RbxTree {
                name,
                class_name: Self::folder_class(),
                children: children.filter_map(chain),
                properties: Map::empty(),
            },
        }
    }

    /// The contents of the file that an instance becomes: the string that its
    /// property `Value` holds, and nothing where it holds no string.
    pub open spec fn contents_of(item: RbxTree) -> Seq<char> {
        if item.properties.contains_key(Self::contents_key()) {
            match item.properties[Self::contents_key()] {
                RbxValueView::String { value } => value,
                _ => Seq::empty(),
            }
        } else {
            Seq::empty()
        }
    }

    /// The file-tree node that an instance becomes. A `Folder` becomes a
    /// directory of those of its children of which `chain` makes a node, each
    /// put under its own name, a later one in the place of an earlier one of
    /// the same name. Any other instance becomes a file.
    pub open spec fn node_of(item: RbxTree, chain: spec_fn(RbxTree) -> Option<VfsTree>) -> VfsTree {
        if item.class_name == Self::folder_class() {
            VfsTree::Dir {
                name: item.name,
                children: VfsTree::with_children(Seq::empty(), item.children.filter_map(chain)),
            }
        } else {
            VfsTree::File { name: item.name, contents: Self::contents_of(item) }
        }
    }

    /// Through a chain of the default plugin alone, a file tree in which no
    /// directory holds two children of one name comes back as it was: the
    /// chain makes an instance of it, and of that instance the same tree
    /// again, names, nesting, order and contents.
    pub proof fn lemma_round_trip(tree: VfsTree)
        requires
            tree.well_formed(),
        ensures
            PluginChain::file_result(seq![DefaultPlugin], tree) is Some,
            PluginChain::rbx_result(
                seq![DefaultPlugin],
                PluginChain::file_result(seq![DefaultPlugin], tree).unwrap(),
            ) == Some(tree),
        decreases tree.size(),
    {
        let plugins = seq![DefaultPlugin];
        let file_chain = PluginChain::file_chain(plugins, tree);
        let instance = Self::instance_of(tree, file_chain);
        assert(plugins[0].file_answer(tree, file_chain) == Some(Some(instance)));
        assert(PluginChain::file_result(plugins, tree) == Some(instance));
        let rbx_chain = PluginChain::rbx_chain(plugins, instance);
        let node = Self::node_of(instance, rbx_chain);
        assert(plugins[0].rbx_answer(instance, rbx_chain) == Some(Some(node)));
        assert(PluginChain::rbx_result(plugins, instance) == Some(node));
        reveal_strlit("Folder");
        reveal_strlit("StringValue");
        match tree {
            VfsTree::File { name, contents } => {
                assert(Self::file_class().len() != Self::folder_class().len());
            },
            VfsTree::Dir { name, children } => {
                let instances = Seq::new(
                    children.len(),
                    |i: int| PluginChain::file_result(plugins, children[i]).unwrap(),
                );
                assert forall|i: int| 0 <= i < children.len() implies file_chain(children[i])
                    == Some(instances[i]) by {
                    VfsTree::lemma_total_size(children, i);
                    Self::lemma_round_trip(children[i]);
                }
                lemma_filter_map_total(children, file_chain, instances);
                assert(instance.children == instances);
                assert forall|i: int| 0 <= i < instances.len() implies rbx_chain(instances[i])
                    == Some(children[i]) by {
                    RbxTree::lemma_total_size(instances, i);
                    VfsTree::lemma_total_size(children, i);
                    Self::lemma_round_trip(children[i]);
                }
                lemma_filter_map_total(instances, rbx_chain, children);
                lemma_with_distinct_children(children);
            },
        }
    }

    /// What a chain of the default plugin alone makes of an instance is a
    /// file tree in which no directory holds two children of one name.
    pub proof fn lemma_node_well_formed(item: RbxTree)
        ensures
            PluginChain::rbx_result(seq![DefaultPlugin], item) is Some,
            PluginChain::rbx_result(seq![DefaultPlugin], item).unwrap().well_formed(),
        decreases item.size(),
    {
        let plugins = seq![DefaultPlugin];
        let chain = PluginChain::rbx_chain(plugins, item);
        let node = Self::node_of(item, chain);
        assert(plugins[0].rbx_answer(item, chain) == Some(Some(node)));
        if item.class_name == Self::folder_class() {
            let converted = item.children.filter_map(chain);
            assert forall|i: int| 0 <= i < converted.len() implies (
            #[trigger] converted[i]).well_formed() by {
                assert(converted.contains(converted[i]));
                item.children.lemma_filter_map_contains(chain, converted[i]);
                let child = choose|child: RbxTree| #[trigger]
                    item.children.contains(child) && chain(child) == Some(converted[i]);
                let k = choose|k: int| 0 <= k < item.children.len() && item.children[k] == child;
                RbxTree::lemma_total_size(item.children, k);
                Self::lemma_node_well_formed(child);
            }
            lemma_with_children_well_formed(Seq::empty(), converted);
        }
    }

    /// A default plugin.
    pub fn new() -> (plugin: DefaultPlugin)
        ensures
            plugin == DefaultPlugin,
    {
        DefaultPlugin
    }
}

impl Plugin for DefaultPlugin {
    open spec fn file_answer(
        &self,
        item: VfsTree,
        chain: spec_fn(VfsTree) -> Option<RbxTree>,
    ) -> Option<Option<RbxTree>> {
        Some(Some(Self::instance_of(item, chain)))
    }

    open spec fn rbx_answer(
        &self,
        item: RbxTree,
        chain: spec_fn(RbxTree) -> Option<VfsTree>,
    ) -> Option<Option<VfsTree>> {
        Some(Some(Self::node_of(item, chain)))
    }

    open spec fn change_answer(&self, route: Seq<Seq<char>>) -> Option<
        Option<Seq<Seq<Seq<char>>>>,
    > {
        Some(Some(seq![route]))
    }

    fn transform_file<F: Fn(&VfsItem) -> Option<RbxItem>>(
        &self,
        plugins: &F,
        vfs_item: &VfsItem,
    ) -> (result: TransformFileResult) {
        match vfs_item {
            VfsItem::File { name, contents } => {
                let mut properties: Vec<(String, RbxValue)> = Vec::new();
                properties.push(("Value".to_owned(), RbxValue::String { value: contents.clone() }));
                let rbx_item = RbxItem {
                    name: name.clone(),
                    class_name: "StringValue".to_owned(),
                    children: Vec::new(),
                    properties,
                };
                proof {
                    let keys = RbxItem::keys(rbx_item.properties@);
                    assert(keys =~= seq![Self::contents_key()]);
                    assert(keys[0] == Self::contents_key());
                    lemma_first_index(keys, Self::contents_key(), 0);
                    assert(rbx_item@.properties =~= Map::empty().insert(
                        Self::contents_key(),
                        RbxValueView::String { value: contents@ },
                    ));
                    assert(rbx_item@.children =~= Seq::empty());
                }
                TransformFileResult::Value(Some(rbx_item))
            },
            VfsItem::Dir { name, children } => {
                let ghost items = VfsItem::views(children@);
                let mut rbx_children: Vec<RbxItem> = Vec::new();
                let mut i: usize = 0;
                proof {
                    assert forall|j: int| 0 <= j < children.len() implies (
                    #[trigger] children@[j])@.size() < vfs_item@.size() by {
                        VfsTree::lemma_total_size(items, j);
                    }
                    assert(RbxItem::views(rbx_children@) =~= Seq::empty());
                }
                while i < children.len()
                    invariant
                        i <= children.len(),
                        items == VfsItem::views(children@),
                        forall|j: int|
                            0 <= j < children.len() ==> (#[trigger] children@[j])@.size()
                                < vfs_item@.size(),
                        forall|child: &VfsItem|
                            child@.size() < vfs_item@.size() ==> call_requires(plugins, (child,)),
                        forall|chain: spec_fn(VfsTree) -> Option<RbxTree>| #[trigger]
                            is_file_chain(plugins, chain) ==> RbxItem::views(rbx_children@)
                                == items.take(i as int).filter_map(chain),
                    decreases children.len() - i,
                {
                    let ghost before = RbxItem::views(rbx_children@);
                    let converted = plugins(&children[i]);
                    let ghost answer = RbxItem::option_view(converted);
                    match converted {
                        Some(rbx_item) => {
                            rbx_children.push(rbx_item);
                            assert(RbxItem::views(rbx_children@) =~= before + seq![
                                answer.unwrap(),
                            ]);
                        },
                        None => {},
                    }
                    proof {
                        assert forall|chain: spec_fn(VfsTree) -> Option<RbxTree>| #[trigger]
                            is_file_chain(plugins, chain) implies RbxItem::views(rbx_children@)
                            == items.take(i as int + 1).filter_map(chain) by {
                            items.lemma_filter_map_take_succ(chain, i as int);
                            assert(answer == chain(items[i as int]));
                        }
                    }
                    i += 1;
                }
                assert(items.take(i as int) =~= items);
                let rbx_item = RbxItem {
                    name: name.clone(),
                    class_name: "Folder".to_owned(),
                    children: rbx_children,
                    properties: Vec::new(),
                };
                assert(rbx_item@.properties =~= Map::empty());
                TransformFileResult::Value(Some(rbx_item))
            },
        }
    }

    fn transform_rbx<F: Fn(&RbxItem) -> Option<VfsItem>>(
        &self,
        plugins: &F,
        rbx_item: &RbxItem,
    ) -> (result: TransformRbxResult) {
        let folder = "Folder".to_owned();
        if rbx_item.class_name == folder {
            let ghost items = RbxItem::views(rbx_item.children@);
            let mut vfs_children: Vec<VfsItem> = Vec::new();
            let mut i: usize = 0;
            proof {
                assert forall|j: int| 0 <= j < rbx_item.children.len() implies (
                #[trigger] rbx_item.children@[j])@.size() < rbx_item@.size() by {
                    RbxTree::lemma_total_size(items, j);
                }
                assert(VfsItem::views(vfs_children@) =~= Seq::empty());
            }
            while i < rbx_item.children.len()
                invariant
                    i <= rbx_item.children.len(),
                    items == RbxItem::views(rbx_item.children@),
                    forall|j: int|
                        0 <= j < rbx_item.children.len() ==> (
                        #[trigger] rbx_item.children@[j])@.size() < rbx_item@.size(),
                    forall|child: &RbxItem|
                        child@.size() < rbx_item@.size() ==> call_requires(plugins, (child,)),
                    forall|chain: spec_fn(RbxTree) -> Option<VfsTree>| #[trigger]
                        is_rbx_chain(plugins, chain) ==> VfsItem::views(vfs_children@)
                            == VfsTree::with_children(
                            Seq::empty(),
                            items.take(i as int).filter_map(chain),
                        ),
                decreases rbx_item.children.len() - i,
            {
                let ghost before = VfsItem::views(vfs_children@);
                let converted = plugins(&rbx_item.children[i]);
                let ghost answer = VfsItem::option_view(converted);
                match converted {
                    Some(vfs_item) => {
                        VfsItem::insert_child(&mut vfs_children, vfs_item);
                    },
                    None => {},
                }
                proof {
                    assert forall|chain: spec_fn(RbxTree) -> Option<VfsTree>| #[trigger]
                        is_rbx_chain(plugins, chain) implies VfsItem::views(vfs_children@)
                        == VfsTree::with_children(
                        Seq::empty(),
                        items.take(i as int + 1).filter_map(chain),
                    ) by {
                        items.lemma_filter_map_take_succ(chain, i as int);
                        assert(answer == chain(items[i as int]));
                        let earlier = items.take(i as int).filter_map(chain);
                        if answer is Some {
                            let all = earlier + seq![answer.unwrap()];
                            assert(all.drop_last() =~= earlier);
                            assert(all.last() == answer.unwrap());
                        }
                    }
                }
                i += 1;
            }
            assert(items.take(i as int) =~= items);
            TransformRbxResult::Value(
                Some(VfsItem::Dir { name: rbx_item.name.clone(), children: vfs_children }),
            )
        } else {
            let key = "Value".to_owned();
            let contents = match rbx_item.property(&key) {
                Some(RbxValue::String { value }) => value.clone(),
                _ => String::new(),
            };
            TransformRbxResult::Value(
                Some(VfsItem::File { name: rbx_item.name.clone(), contents }),
            )
        }
    }

    fn handle_file_change(&self, route: &Route) -> (result: FileChangeResult) {
        let mut routes: Vec<Route> = Vec::new();
        routes.push(route.clone());
        assert(Route::views(routes@) =~= seq![route@]);
        FileChangeResult::MarkChanged(Some(routes))
    }
}

/// Where a function makes something of every item, `filter_map` keeps them
/// all.
proof fn lemma_filter_map_total<A, B>(items: Seq<A>, f: spec_fn(A) -> Option<B>, results: Seq<B>)
    requires
        items.len() == results.len(),
        forall|i: int| 0 <= i < items.len() ==> f(items[i]) == Some(results[i]),
    ensures
        items.filter_map(f) == results,
    decreases items.len(),
{
    if items.len() == 0 {
        assert(results =~= Seq::empty());
    } else {
        lemma_filter_map_total(items.drop_last(), f, results.drop_last());
        assert(results =~= results.drop_last() + seq![results.last()]);
    }
}

/// Children of distinct names, put into an empty directory one after the
/// other, are its children in that order.
proof fn lemma_with_distinct_children(items: Seq<VfsTree>)
    requires
        VfsTree::names(items).no_duplicates(),
    ensures
        VfsTree::with_children(Seq::empty(), items) == items,
    decreases items.len(),
{
    if items.len() > 0 {
        let front = items.drop_last();
        let names = VfsTree::names(items);
        assert forall|i: int, j: int|
            0 <= i < front.len() && 0 <= j < front.len() && i != j implies VfsTree::names(front)[i]
            != VfsTree::names(front)[j] by {
            assert(VfsTree::names(front)[i] == names[i]);
            assert(VfsTree::names(front)[j] == names[j]);
        }
        lemma_with_distinct_children(front);
        if VfsTree::names(front).contains(items.last().name()) {
            let i = choose|i: int|
                0 <= i < front.len() && VfsTree::names(front)[i] == items.last().name();
            assert(names[i] == names[items.len() - 1]);
        }
        assert(front.push(items.last()) =~= items);
    }
}

/// Children put into a directory one after the other leave it without two
/// children of one name, where it had none, and with well-formed children,
/// where they all were.
proof fn lemma_with_children_well_formed(children: Seq<VfsTree>, more: Seq<VfsTree>)
    requires
        VfsTree::names(children).no_duplicates(),
        forall|i: int| 0 <= i < children.len() ==> (#[trigger] children[i]).well_formed(),
        forall|i: int| 0 <= i < more.len() ==> (#[trigger] more[i]).well_formed(),
    ensures
        VfsTree::names(VfsTree::with_children(children, more)).no_duplicates(),
        forall|i: int|
            0 <= i < VfsTree::with_children(children, more).len() ==> (
            #[trigger] VfsTree::with_children(children, more)[i]).well_formed(),
    decreases more.len(),
{
    if more.len() > 0 {
        let front = more.drop_last();
        assert forall|i: int| 0 <= i < front.len() implies (#[trigger] front[i]).well_formed() by {
            assert(front[i] == more[i]);
        }
        lemma_with_children_well_formed(children, front);
        let before = VfsTree::with_children(children, front);
        let after = VfsTree::with_child(before, more.last());
        VfsTree::lemma_with_child(before, more.last());
        assert(more[more.len() - 1].well_formed());
        assert forall|i: int| 0 <= i < after.len() implies (#[trigger] after[i]).well_formed() by {
            if after[i] != more.last() {
                assert(before[i].well_formed());
            }
        }
    }
}

} // verus!
