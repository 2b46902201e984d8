//! Plugins and the chain that dispatches to them.
//!
//! A plugin offers three operations: file-tree node to instance, instance to
//! file-tree node, and changed route to the routes that count as changed. Each
//! may answer, also with "nothing", or pass. A chain asks its plugins in their
//! order and takes the first answer.

use crate::rbx::{RbxItem, RbxTree};
use crate::route::Route;
use crate::vfs::{VfsItem, VfsTree};
use vstd::prelude::*;

verus! {

/// What a plugin makes of a file-tree node: an answer, which may be that the
/// node has no instance, or a pass to the next plugin.
#[derive(Debug, PartialEq, Eq)]
pub enum TransformFileResult {
    Value(Option<RbxItem>),
    Pass,
}

/// What a plugin makes of an instance: an answer, which may be that the
/// instance has no file-tree node, or a pass to the next plugin.
#[derive(Debug, PartialEq, Eq)]
pub enum TransformRbxResult {
    Value(Option<VfsItem>),
    Pass,
}

/// What a plugin makes of a changed route: the routes that count as changed,
/// which may be none at all, or a pass to the next plugin.
#[derive(Debug, PartialEq, Eq)]
pub enum FileChangeResult {
    MarkChanged(Option<Vec<Route>>),
    Pass,
}

impl TransformFileResult {
    /// The answer as a mathematical value: `None` for a pass, else the
    /// instance tree that was answered, if any.
    pub open spec fn answer(self) -> Option<Option<RbxTree>> {
        match self {
            TransformFileResult::Value(item) => Some(RbxItem::option_view(item)),
            TransformFileResult::Pass => None,
        }
    }
}

impl TransformRbxResult {
    /// The answer as a mathematical value: `None` for a pass, else the file
    /// tree that was answered, if any.
    pub open spec fn answer(self) -> Option<Option<VfsTree>> {
        match self {
            TransformRbxResult::Value(item) => Some(VfsItem::option_view(item)),
            TransformRbxResult::Pass => None,
        }
    }
}

/// The routes that a list of routes stands for, where there is a list.
pub open spec fn option_routes(routes: Option<Vec<Route>>) -> Option<Seq<Seq<Seq<char>>>> {
    match routes {
        Some(routes) => Some(Route::views(routes@)),
        None => None,
    }
}

impl FileChangeResult {
    /// The answer as a mathematical value: `None` for a pass, else the routes
    /// that were answered, if any.
    pub open spec fn answer(self) -> Option<Option<Seq<Seq<Seq<char>>>>> {
        match self {
            FileChangeResult::MarkChanged(routes) => Some(option_routes(routes)),
            FileChangeResult::Pass => None,
        }
    }
}

/// Whether `chain` is what the function `plugins` returns: whatever a call of
/// `plugins` on an item gives, it stands for `chain` of what the item stands
/// for.
pub open spec fn is_file_chain<F: Fn(&VfsItem) -> Option<RbxItem>>(
    plugins: &F,
    chain: spec_fn(VfsTree) -> Option<RbxTree>,
) -> bool {
    forall|item: &VfsItem, out: Option<RbxItem>| #[trigger]
        call_ensures(plugins, (item,), out) ==> RbxItem::option_view(out) == chain(item@)
}

/// Whether `chain` is what the function `plugins` returns: whatever a call of
/// `plugins` on an instance gives, it stands for `chain` of what the instance
/// stands for.
pub open spec fn is_rbx_chain<F: Fn(&RbxItem) -> Option<VfsItem>>(
    plugins: &F,
    chain: spec_fn(RbxTree) -> Option<VfsTree>,
) -> bool {
    forall|item: &RbxItem, out: Option<VfsItem>| #[trigger]
        call_ensures(plugins, (item,), out) ==> VfsItem::option_view(out) == chain(item@)
}

/// One rule set for converting between the two trees.
///
/// A plugin is a pure function of what it is given. Its three spec functions
/// say what it answers; the three methods return exactly that. A spec function
/// that a plugin does not state says that the plugin passes. The transforms
/// receive the chain that the plugin is part of, as a function: a plugin that
/// has to convert a node below the one it was given calls it, and so leaves
/// that node to whichever plugin of the chain answers first. It may be called
/// on any node smaller than the one given.
pub trait Plugin {
    /// The plugin's answer for a file-tree node, where `chain` is what the
    /// whole chain makes of a node: a pass, unless the plugin states another.
    open spec fn file_answer(
        &self,
        item: VfsTree,
        chain: spec_fn(VfsTree) -> Option<RbxTree>,
    ) -> Option<Option<RbxTree>> {
        None
    }

    /// The plugin's answer for an instance, where `chain` is what the whole
    /// chain makes of an instance: a pass, unless the plugin states another.
    open spec fn rbx_answer(
        &self,
        item: RbxTree,
        chain: spec_fn(RbxTree) -> Option<VfsTree>,
    ) -> Option<Option<VfsTree>> {
        None
    }

    /// The plugin's answer for a changed route: a pass, unless the plugin
    /// states another.
    open spec fn change_answer(&self, route: Seq<Seq<char>>) -> Option<
        Option<Seq<Seq<Seq<char>>>>,
    > {
        None
    }

    /// Converts a file-tree node to an instance, or passes.
    fn transform_file<F: Fn(&VfsItem) -> Option<RbxItem>>(
        &self,
        plugins: &F,
        vfs_item: &VfsItem,
    ) -> (result: TransformFileResult)
        requires
            forall|child: &VfsItem|
                child@.size() < vfs_item@.size() ==> call_requires(plugins, (child,)),
        ensures
            forall|chain: spec_fn(VfsTree) -> Option<RbxTree>|
                is_file_chain(plugins, chain) ==> result.answer() == #[trigger] self.file_answer(
                    vfs_item@,
                    chain,
                ),
    ;

    /// Converts an instance to a file-tree node, or passes.
    fn transform_rbx<F: Fn(&RbxItem) -> Option<VfsItem>>(
        &self,
        plugins: &F,
        rbx_item: &RbxItem,
    ) -> (result: TransformRbxResult)
        requires
            forall|child: &RbxItem|
                child@.size() < rbx_item@.size() ==> call_requires(plugins, (child,)),
        ensures
            forall|chain: spec_fn(RbxTree) -> Option<VfsTree>|
                is_rbx_chain(plugins, chain) ==> result.answer() == #[trigger] self.rbx_answer(
                    rbx_item@,
                    chain,
                ),
    ;

    /// Names the routes that count as changed when the file at `route` has
    /// changed, or passes.
    fn handle_file_change(&self, route: &Route) -> (result: FileChangeResult)
        ensures
            result.answer() == self.change_answer(route@),
    ;
}

/// One of two kinds of plugin, so that plugins of both kinds can stand in one
/// chain. It answers as the plugin that it holds.
#[derive(Debug, PartialEq, Eq)]
pub enum EitherPlugin<A, B> {
    First(A),
    Second(B),
}

impl<A: Plugin, B: Plugin> Plugin for EitherPlugin<A, B> {
    open spec fn file_answer(
        &self,
        item: VfsTree,
        chain: spec_fn(VfsTree) -> Option<RbxTree>,
    ) -> Option<Option<RbxTree>> {
        match self {
            EitherPlugin::First(plugin) => plugin.file_answer(item, chain),
            EitherPlugin::Second(plugin) => plugin.file_answer(item, chain),
        }
    }

    open spec fn rbx_answer(
        &self,
        item: RbxTree,
        chain: spec_fn(RbxTree) -> Option<VfsTree>,
    ) -> Option<Option<VfsTree>> {
        match self {
            EitherPlugin::First(plugin) => plugin.rbx_answer(item, chain),
            EitherPlugin::Second(plugin) => plugin.rbx_answer(item, chain),
        }
    }

    open spec fn change_answer(&self, route: Seq<Seq<char>>) -> Option<
        Option<Seq<Seq<Seq<char>>>>,
    > {
        match self {
            EitherPlugin::First(plugin) => plugin.change_answer(route),
            EitherPlugin::Second(plugin) => plugin.change_answer(route),
        }
    }

    fn transform_file<F: Fn(&VfsItem) -> Option<RbxItem>>(
        &self,
        plugins: &F,
        vfs_item: &VfsItem,
    ) -> (result: TransformFileResult) {
        match self {
            EitherPlugin::First(plugin) => plugin.transform_file(plugins, vfs_item),
            EitherPlugin::Second(plugin) => plugin.transform_file(plugins, vfs_item),
        }
    }

    fn transform_rbx<F: Fn(&RbxItem) -> Option<VfsItem>>(
        &self,
        plugins: &F,
        rbx_item: &RbxItem,
    ) -> (result: TransformRbxResult) {
        match self {
            EitherPlugin::First(plugin) => plugin.transform_rbx(plugins, rbx_item),
            EitherPlugin::Second(plugin) => plugin.transform_rbx(plugins, rbx_item),
        }
    }

    fn handle_file_change(&self, route: &Route) -> (result: FileChangeResult) {
        match self {
            EitherPlugin::First(plugin) => plugin.handle_file_change(route),
            EitherPlugin::Second(plugin) => plugin.handle_file_change(route),
        }
    }
}

/// An ordered list of plugins, fixed when it is made.
pub struct PluginChain<P> {
    plugins: Vec<P>,
}

impl<P> View for PluginChain<P> {
    type V = Seq<P>;

    closed spec fn view(&self) -> Seq<P> {
        self.plugins@
    }
}

impl<P: Plugin> PluginChain<P> {
    /// What the plugins from position `first` on make of a file-tree node: the
    /// answer of the first of them that does not pass, and nothing where all
    /// pass.
    pub open spec fn file_result_from(plugins: Seq<P>, first: int, item: VfsTree) -> Option<
        RbxTree,
    >
        decreases item.size(), 1nat, plugins.len() - first,
    {
        if 0 <= first < plugins.len() {
            match plugins[first].file_answer(item, Self::file_chain(plugins, item)) {
                Some(answer) => answer,
                None => Self::file_result_from(plugins, first + 1, item),
            }
        } else {
            None
        }
    }

    /// The chain as the plugins see it while they answer for `item`: what the
    /// whole chain makes of a node smaller than `item`.
    pub open spec fn file_chain(plugins: Seq<P>, item: VfsTree) -> spec_fn(VfsTree) -> Option<
        RbxTree,
    >
        decreases item.size(), 0nat, 0nat,
    {
        |child: VfsTree|
            if child.size() < item.size() {
                Self::file_result_from(plugins, 0, child)
            } else {
                None
            }
    }

    /// What the chain makes of a file-tree node.
    pub open spec fn file_result(plugins: Seq<P>, item: VfsTree) -> Option<RbxTree> {
        Self::file_result_from(plugins, 0, item)
    }

    /// What the plugins from position `first` on make of an instance: the
    /// answer of the first of them that does not pass, and nothing where all
    /// pass.
    pub open spec fn rbx_result_from(plugins: Seq<P>, first: int, item: RbxTree) -> Option<
        VfsTree,
    >
        decreases item.size(), 1nat, plugins.len() - first,
    {
        if 0 <= first < plugins.len() {
            match plugins[first].rbx_answer(item, Self::rbx_chain(plugins, item)) {
                Some(answer) => answer,
                None => Self::rbx_result_from(plugins, first + 1, item),
            }
        } else {
            None
        }
    }

    /// The chain as the plugins see it while they answer for `item`: what the
    /// whole chain makes of an instance smaller than `item`.
    pub open spec fn rbx_chain(plugins: Seq<P>, item: RbxTree) -> spec_fn(RbxTree) -> Option<
        VfsTree,
    >
        decreases item.size(), 0nat, 0nat,
    {
        |child: RbxTree|
            if child.size() < item.size() {
                Self::rbx_result_from(plugins, 0, child)
            } else {
                None
            }
    }

    /// What the chain makes of an instance.
    pub open spec fn rbx_result(plugins: Seq<P>, item: RbxTree) -> Option<VfsTree> {
        Self::rbx_result_from(plugins, 0, item)
    }

    /// What the plugins from position `first` on make of a changed route: the
    /// answer of the first of them that does not pass, and nothing where all
    /// pass.
    pub open spec fn change_result_from(
        plugins: Seq<P>,
        first: int,
        route: Seq<Seq<char>>,
    ) -> Option<Seq<Seq<Seq<char>>>>
        decreases plugins.len() - first,
    {
        if 0 <= first < plugins.len() {
            match plugins[first].change_answer(route) {
                Some(answer) => answer,
                None => Self::change_result_from(plugins, first + 1, route),
            }
        } else {
            None
        }
    }

    /// What the chain makes of a changed route.
    pub open spec fn change_result(plugins: Seq<P>, route: Seq<Seq<char>>) -> Option<
        Seq<Seq<Seq<char>>>,
    > {
        Self::change_result_from(plugins, 0, route)
    }

    /// A chain without plugins makes nothing of anything: each of the three
    /// operations has the empty result.
    pub proof fn lemma_empty_chain(
        plugins: Seq<P>,
        vfs_item: VfsTree,
        rbx_item: RbxTree,
        route: Seq<Seq<char>>,
    )
        requires
            plugins.len() == 0,
        ensures
            Self::file_result(plugins, vfs_item) is None,
            Self::rbx_result(plugins, rbx_item) is None,
            Self::change_result(plugins, route) is None,
    {
    }

    /// The first answer wins, for file-tree nodes: where the plugin at
    /// `position` answers and every plugin before it passes, the chain's
    /// result is that answer, whatever plugins follow.
    pub proof fn lemma_first_file_answer(plugins: Seq<P>, position: int, item: VfsTree)
        requires
            0 <= position < plugins.len(),
            plugins[position].file_answer(item, Self::file_chain(plugins, item)) is Some,
            forall|j: int|
                0 <= j < position ==> (#[trigger] plugins[j]).file_answer(
                    item,
                    Self::file_chain(plugins, item),
                ) is None,
        ensures
            Self::file_result(plugins, item) == plugins[position].file_answer(
                item,
                Self::file_chain(plugins, item),
            ).unwrap(),
    {
        Self::lemma_file_passes(plugins, 0, position, item);
    }

    proof fn lemma_file_passes(plugins: Seq<P>, first: int, position: int, item: VfsTree)
        requires
            0 <= first <= position < plugins.len(),
            forall|j: int|
                first <= j < position ==> (#[trigger] plugins[j]).file_answer(
                    item,
                    Self::file_chain(plugins, item),
                ) is None,
        ensures
            Self::file_result_from(plugins, first, item) == Self::file_result_from(
                plugins,
                position,
                item,
            ),
        decreases position - first,
    {
        if first < position {
            assert(plugins[first].file_answer(item, Self::file_chain(plugins, item)) is None);
            Self::lemma_file_passes(plugins, first + 1, position, item);
        }
    }

    /// The first answer wins, for instances: where the plugin at `position`
    /// answers and every plugin before it passes, the chain's result is that
    /// answer, whatever plugins follow.
    pub proof fn lemma_first_rbx_answer(plugins: Seq<P>, position: int, item: RbxTree)
        requires
            0 <= position < plugins.len(),
            plugins[position].rbx_answer(item, Self::rbx_chain(plugins, item)) is Some,
            forall|j: int|
                0 <= j < position ==> (#[trigger] plugins[j]).rbx_answer(
                    item,
                    Self::rbx_chain(plugins, item),
                ) is None,
        ensures
            Self::rbx_result(plugins, item) == plugins[position].rbx_answer(
                item,
                Self::rbx_chain(plugins, item),
            ).unwrap(),
    {
        Self::lemma_rbx_passes(plugins, 0, position, item);
    }

    proof fn lemma_rbx_passes(plugins: Seq<P>, first: int, position: int, item: RbxTree)
        requires
            0 <= first <= position < plugins.len(),
            forall|j: int|
                first <= j < position ==> (#[trigger] plugins[j]).rbx_answer(
                    item,
                    Self::rbx_chain(plugins, item),
                ) is None,
        ensures
            Self::rbx_result_from(plugins, first, item) == Self::rbx_result_from(
                plugins,
                position,
                item,
            ),
        decreases position - first,
    {
        if first < position {
            assert(plugins[first].rbx_answer(item, Self::rbx_chain(plugins, item)) is None);
            Self::lemma_rbx_passes(plugins, first + 1, position, item);
        }
    }

    /// The first answer wins, for changed routes: where the plugin at
    /// `position` answers and every plugin before it passes, the chain's
    /// result is that answer, whatever plugins follow.
    pub proof fn lemma_first_change_answer(plugins: Seq<P>, position: int, route: Seq<Seq<char>>)
        requires
            0 <= position < plugins.len(),
            plugins[position].change_answer(route) is Some,
            forall|j: int|
                0 <= j < position ==> (#[trigger] plugins[j]).change_answer(route) is None,
        ensures
            Self::change_result(plugins, route) == plugins[position].change_answer(route).unwrap(),
    {
        Self::lemma_change_passes(plugins, 0, position, route);
    }

    proof fn lemma_change_passes(plugins: Seq<P>, first: int, position: int, route: Seq<Seq<char>>)
        requires
            0 <= first <= position < plugins.len(),
            forall|j: int|
                first <= j < position ==> (#[trigger] plugins[j]).change_answer(route) is None,
        ensures
            Self::change_result_from(plugins, first, route) == Self::change_result_from(
                plugins,
                position,
                route,
            ),
        decreases position - first,
    {
        if first < position {
            assert(plugins[first].change_answer(route) is None);
            Self::lemma_change_passes(plugins, first + 1, position, route);
        }
    }

    /// A plugin that answers for every file-tree node hides what follows it:
    /// at the head of a chain, its answer is the chain's result, and the
    /// result is the same as if nothing followed it.
    pub proof fn lemma_rest_never_asked_for_file(plugins: Seq<P>, item: VfsTree)
        requires
            plugins.len() > 0,
            forall|node: VfsTree, chain: spec_fn(VfsTree) -> Option<RbxTree>|
                (#[trigger] plugins[0].file_answer(node, chain)) is Some,
        ensures
            Self::file_result(plugins, item) == plugins[0].file_answer(
                item,
                Self::file_chain(plugins, item),
            ).unwrap(),
            Self::file_result(plugins, item) == Self::file_result(seq![plugins[0]], item),
        decreases item.size(),
    {
        let alone = seq![plugins[0]];
        let full_chain = Self::file_chain(plugins, item);
        let alone_chain = Self::file_chain(alone, item);
        assert forall|child: VfsTree| #[trigger] full_chain(child) == alone_chain(child) by {
            if child.size() < item.size() {
                Self::lemma_rest_never_asked_for_file(plugins, child);
            }
        }
        assert(full_chain =~= alone_chain);
        assert(plugins[0].file_answer(item, full_chain) is Some);
        assert(alone[0].file_answer(item, alone_chain) is Some);
    }

    /// A plugin that answers for every instance hides what follows it: at the
    /// head of a chain, its answer is the chain's result, and the result is
    /// the same as if nothing followed it.
    pub proof fn lemma_rest_never_asked_for_rbx(plugins: Seq<P>, item: RbxTree)
        requires
            plugins.len() > 0,
            forall|node: RbxTree, chain: spec_fn(RbxTree) -> Option<VfsTree>|
                (#[trigger] plugins[0].rbx_answer(node, chain)) is Some,
        ensures
            Self::rbx_result(plugins, item) == plugins[0].rbx_answer(
                item,
                Self::rbx_chain(plugins, item),
            ).unwrap(),
            Self::rbx_result(plugins, item) == Self::rbx_result(seq![plugins[0]], item),
        decreases item.size(),
    {
        let alone = seq![plugins[0]];
        let full_chain = Self::rbx_chain(plugins, item);
        let alone_chain = Self::rbx_chain(alone, item);
        assert forall|child: RbxTree| #[trigger] full_chain(child) == alone_chain(child) by {
            if child.size() < item.size() {
                Self::lemma_rest_never_asked_for_rbx(plugins, child);
            }
        }
        assert(full_chain =~= alone_chain);
        assert(plugins[0].rbx_answer(item, full_chain) is Some);
        assert(alone[0].rbx_answer(item, alone_chain) is Some);
    }

    /// A plugin that answers for a changed route hides what follows it: at
    /// the head of a chain, its answer is the chain's result, and the result
    /// is the same as if nothing followed it.
    pub proof fn lemma_rest_never_asked_for_change(plugins: Seq<P>, route: Seq<Seq<char>>)
        requires
            plugins.len() > 0,
            plugins[0].change_answer(route) is Some,
        ensures
            Self::change_result(plugins, route) == plugins[0].change_answer(route).unwrap(),
            Self::change_result(plugins, route) == Self::change_result(seq![plugins[0]], route),
    {
        assert(seq![plugins[0]][0].change_answer(route) is Some);
    }

    /// The chain of `plugins`, asked in their order.
    pub fn new(plugins: Vec<P>) -> (chain: PluginChain<P>)
        ensures
            chain@ == plugins@,
    {
        PluginChain { plugins }
    }

    /// The number of plugins in the chain.
    pub fn len(&self) -> (n: usize)
        ensures
            n == self@.len(),
    {
        self.plugins.len()
    }

    /// Converts an instance to a file-tree node: the answer of the first
    /// plugin that does not pass, `None` where all pass.
    pub fn transform_rbx(&self, rbx_item: &RbxItem) -> (result: Option<VfsItem>)
        ensures
            VfsItem::option_view(result) == Self::rbx_result(self@, rbx_item@),
        decreases rbx_item@.size(),
    {
        let mut i: usize = 0;
        while i < self.plugins.len()
            invariant
                i <= self.plugins.len(),
                Self::rbx_result(self@, rbx_item@) == Self::rbx_result_from(
                    self@,
                    i as int,
                    rbx_item@,
                ),
            decreases self.plugins.len() - i,
        {
            let ghost chain = Self::rbx_chain(self@, rbx_item@);
            let plugins = |child: &RbxItem| -> (out: Option<VfsItem>)
                requires
                    child@.size() < rbx_item@.size(),
                ensures
                    VfsItem::option_view(out) == chain(child@),
                { self.transform_rbx(child) };
            let answer = self.plugins[i].transform_rbx(&plugins, rbx_item);
            assert(is_rbx_chain(&plugins, chain));
            assert(answer.answer() == self@[i as int].rbx_answer(rbx_item@, chain));
            match answer {
                TransformRbxResult::Value(vfs_item) => {
                    return vfs_item;
                },
                TransformRbxResult::Pass => {},
            }
            i += 1;
        }
        None
    }

    /// Converts a file-tree node to an instance: the answer of the first
    /// plugin that does not pass, `None` where all pass.
    pub fn transform_file(&self, vfs_item: &VfsItem) -> (result: Option<RbxItem>)
        ensures
            RbxItem::option_view(result) == Self::file_result(self@, vfs_item@),
        decreases vfs_item@.size(),
    {
        let mut i: usize = 0;
        while i < self.plugins.len()
            invariant
                i <= self.plugins.len(),
                Self::file_result(self@, vfs_item@) == Self::file_result_from(
                    self@,
                    i as int,
                    vfs_item@,
                ),
            decreases self.plugins.len() - i,
        {
            let ghost chain = Self::file_chain(self@, vfs_item@);
            let plugins = |child: &VfsItem| -> (out: Option<RbxItem>)
                requires
                    child@.size() < vfs_item@.size(),
                ensures
                    RbxItem::option_view(out) == chain(child@),
                { self.transform_file(child) };
            let answer = self.plugins[i].transform_file(&plugins, vfs_item);
            assert(is_file_chain(&plugins, chain));
            assert(answer.answer() == self@[i as int].file_answer(vfs_item@, chain));
            match answer {
                TransformFileResult::Value(rbx_item) => {
                    return rbx_item;
                },
                TransformFileResult::Pass => {},
            }
            i += 1;
        }
        None
    }

    /// Names the routes that count as changed when the file at `route` has
    /// changed: the answer of the first plugin that does not pass, `None`
    /// where all pass.
    pub fn handle_file_change(&self, route: &Route) -> (result: Option<Vec<Route>>)
        ensures
            option_routes(result) == Self::change_result(self@, route@),
    {
        let mut i: usize = 0;
        while i < self.plugins.len()
            invariant
                i <= self.plugins.len(),
                Self::change_result(self@, route@) == Self::change_result_from(
                    self@,
                    i as int,
                    route@,
                ),
            decreases self.plugins.len() - i,
        {
            match self.plugins[i].handle_file_change(route) {
                FileChangeResult::MarkChanged(changes) => {
                    return changes;
                },
                FileChangeResult::Pass => {},
            }
            i += 1;
        }
        None
    }
}

} // verus!
