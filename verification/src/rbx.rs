//! The instance tree.

use crate::names::{first_index, is_first, lemma_contains_first, lemma_first_index};
use vstd::prelude::*;

verus! {

/// A property value as a mathematical value: what an [`RbxValue`] stands for.
#[allow(inconsistent_fields)]
pub enum RbxValueView {
    String { value: Seq<char> },
    Bool { value: bool },
    Int { value: i64 },
}

/// The typed value of one property of an instance.
#[derive(Debug, PartialEq, Eq)]
#[allow(inconsistent_fields)]
pub enum RbxValue {
    String { value: String },
    Bool { value: bool },
    Int { value: i64 },
}

impl View for RbxValue {
    type V = RbxValueView;

    open spec fn view(&self) -> RbxValueView {
        match self {
            RbxValue::String { value } => RbxValueView::String { value: value@ },
            RbxValue::Bool { value } => RbxValueView::Bool { value: *value },
            RbxValue::Int { value } => RbxValueView::Int { value: *value },
        }
    }
}

impl Clone for RbxValue {
    fn clone(&self) -> (copy: RbxValue)
        ensures
            copy@ == self@,
    {
        match self {
            RbxValue::String { value } => RbxValue::String { value: value.clone() },
            RbxValue::Bool { value } => RbxValue::Bool { value: *value },
            RbxValue::Int { value } => RbxValue::Int { value: *value },
        }
    }
}

/// An instance tree as a mathematical value: what an [`RbxItem`] stands for.
pub struct RbxTree {
    pub name: Seq<char>,
    pub class_name: Seq<char>,
    pub children: Seq<RbxTree>,
    pub properties: Map<Seq<char>, RbxValueView>,
}

impl RbxTree {
    /// The number of instances in the tree.
    pub open spec fn size(self) -> nat
        decreases self,
    {
        1 + Self::total_size(self.children)
    }

    /// The number of instances in all of `items` together.
    pub open spec fn total_size(items: Seq<RbxTree>) -> nat
        decreases items,
    {
        if items.len() == 0 {
            0
        } else {
            Self::total_size(items.drop_last()) + items.last().size()
        }
    }

    /// Every one of `items` is smaller than all of them together.
    pub proof fn lemma_total_size(items: Seq<RbxTree>, i: int)
        requires
            0 <= i < items.len(),
        ensures
            items[i].size() <= Self::total_size(items),
        decreases items.len(),
    {
        if i < items.len() - 1 {
            Self::lemma_total_size(items.drop_last(), i);
        }
    }
}

/// An instance of the host application's object tree: a class name, a name,
/// children in display order, and named, typed properties.
///
/// The properties are a mapping, held as a list of entries: where a key
/// occurs twice, its first entry is its value.
#[derive(Debug, PartialEq, Eq)]
pub struct RbxItem {
    pub name: String,
    pub class_name: String,
    pub children: Vec<RbxItem>,
    pub properties: Vec<(String, RbxValue)>,
}

impl View for RbxItem {
    type V = RbxTree;

    open spec fn view(&self) -> RbxTree
        decreases self,
    {
        RbxTree {
            name: self.name@,
            class_name: self.class_name@,
            children: Self::views(self.children@),
            properties: Self::property_map(self.properties@),
        }
    }
}

impl RbxItem {
    /// The trees that `items` stand for, in their order.
    pub open spec fn views(items: Seq<RbxItem>) -> Seq<RbxTree>
        decreases items,
    {
        Seq::new(items.len(), |i: int| if 0 <= i < items.len() { items[i]@ } else { arbitrary() })
    }

    /// The tree that an item stands for, where there is an item.
    pub open spec fn option_view(item: Option<RbxItem>) -> Option<RbxTree> {
        match item {
            Some(item) => Some(item@),
            None => None,
        }
    }

    /// The keys of `properties`, in their order.
    pub open spec fn keys(properties: Seq<(String, RbxValue)>) -> Seq<Seq<char>> {
        properties.map_values(|entry: (String, RbxValue)| entry.0@)
    }

    /// The mapping that `properties` stand for: each key that occurs, to the
    /// value of its first entry.
    pub open spec fn property_map(properties: Seq<(String, RbxValue)>) -> Map<
        Seq<char>,
        RbxValueView,
    > {
        Map::new(
            |key: Seq<char>| Self::keys(properties).contains(key),
            |key: Seq<char>| properties[first_index(Self::keys(properties), key)].1@,
        )
    }

    /// The value of the property `key`, where the instance has one.
    pub fn property(&self, key: &String) -> (value: Option<&RbxValue>)
        ensures
            match value {
                Some(value) => self@.properties.contains_key(key@) && self@.properties[key@]
                    == value@,
                None => !self@.properties.contains_key(key@),
            },
    {
        let ghost keys = Self::keys(self.properties@);
        let mut i: usize = 0;
        while i < self.properties.len()
            invariant
                i <= self.properties.len(),
                keys == Self::keys(self.properties@),
                forall|j: int| 0 <= j < i ==> keys[j] != key@,
            decreases self.properties.len() - i,
        {
            if self.properties[i].0 == *key {
                proof {
                    assert(is_first(keys, key@, i as int));
                    lemma_first_index(keys, key@, i as int);
                }
                return Some(&self.properties[i].1);
            }
            i += 1;
        }
        None
    }
}

impl Clone for RbxItem {
    fn clone(&self) -> (copy: RbxItem)
        ensures
            copy@ == self@,
        decreases self,
    {
        let mut children: Vec<RbxItem> = Vec::new();
        let mut i: usize = 0;
        while i < self.children.len()
            invariant
                i <= self.children.len(),
                children.len() == i,
                forall|j: int| 0 <= j < i ==> children@[j]@ == self.children@[j]@,
                forall|j: int|
                    0 <= j < self.children.len() ==> decreases_to!(self => self.children@[j]),
            decreases self.children.len() - i,
        {
            children.push(self.children[i].clone());
            i += 1;
        }
        let mut properties: Vec<(String, RbxValue)> = Vec::new();
        let mut k: usize = 0;
        while k < self.properties.len()
            invariant
                k <= self.properties.len(),
                properties.len() == k,
                forall|j: int|
                    0 <= j < k ==> properties@[j].0@ == self.properties@[j].0@ && properties@[j].1@
                        == self.properties@[j].1@,
            decreases self.properties.len() - k,
        {
            properties.push((self.properties[k].0.clone(), self.properties[k].1.clone()));
            k += 1;
        }
        proof {
            assert(RbxItem::views(children@) =~= RbxItem::views(self.children@));
            assert(RbxItem::keys(properties@) =~= RbxItem::keys(self.properties@));
            let keys = RbxItem::keys(self.properties@);
            assert forall|key: Seq<char>| keys.contains(key) implies properties@[first_index(
                keys,
                key,
            )].1@ == self.properties@[first_index(keys, key)].1@ by {
                lemma_contains_first(keys, key);
            }
            assert(RbxItem::property_map(properties@) =~= RbxItem::property_map(
                self.properties@,
            ));
        }
        RbxItem {
            name: self.name.clone(),
            class_name: self.class_name.clone(),
            children,
            properties,
        }
    }
}

} // verus!
