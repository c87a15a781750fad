//! The descriptor tree: collections whose children are nested collections
//! or leaves. The assembler builds a tree of field records; the decoder
//! maps it to a tree of the same shape with decoded input lists at the
//! leaves.

use vstd::prelude::*;

verus! {

broadcast use vstd::std_specs::vec::group_vec_axioms, vstd::seq::group_seq_axioms;

/// A collection node: its type, its qualified usage, optional designator
/// and string indices, and its ordered children.
#[derive(Debug, PartialEq, Eq)]
pub struct Collection<T> {
    pub collection_type: crate::basic::Collection,
    pub usage: (u16, u16),
    pub designator_index: Option<u32>,
    pub string_index: Option<u32>,
    pub items: Vec<CollectionItem<T>>,
}

/// A child of a collection: a nested collection or a leaf.
#[derive(Debug, PartialEq, Eq)]
pub enum CollectionItem<T> {
    Collection(Collection<T>),
    Item(T),
}

/// The mathematical shape of a collection node, with leaves of type `L`.
pub struct SpecCollection<L> {
    pub collection_type: crate::basic::Collection,
    pub usage: (u16, u16),
    pub designator_index: Option<u32>,
    pub string_index: Option<u32>,
    pub items: Seq<SpecCollectionItem<L>>,
}

/// The mathematical shape of a collection child.
pub enum SpecCollectionItem<L> {
    Collection(SpecCollection<L>),
    Item(L),
}

/// The mathematical value of a sequence of collection children.
pub open spec fn deep_view_items<T: View>(items: Seq<CollectionItem<T>>) -> Seq<
    SpecCollectionItem<T::V>,
>
    decreases items,
{
    if items.len() == 0 {
        Seq::empty()
    } else {
        deep_view_items(items.drop_last()).push(items.last().deep_view())
    }
}

impl<T: View> Collection<T> {
    /// The mathematical value of the tree, with each leaf replaced by its
    /// own view.
    pub open spec fn deep_view(&self) -> SpecCollection<T::V>
        decreases self,
    {
        SpecCollection {
            collection_type: self.collection_type,
            usage: self.usage,
            designator_index: self.designator_index,
            string_index: self.string_index,
            items: deep_view_items(self.items@),
        }
    }
}

impl<T: View> CollectionItem<T> {
    /// The mathematical value of one child.
    pub open spec fn deep_view(&self) -> SpecCollectionItem<T::V>
        decreases self,
    {
        match self {
            CollectionItem::Collection(c) => SpecCollectionItem::Collection(c.deep_view()),
            CollectionItem::Item(t) => SpecCollectionItem::Item(t@),
        }
    }
}

/// How a mapped child sequence relates to its source: sub-collections map
/// in place, a leaf either becomes a leaf that `f` may return for it, or
/// is dropped when `f` may map it to nothing.
pub open spec fn spec_map_items_rel<T, O, F: Fn(&T) -> Option<O>>(
    f: F,
    inp: Seq<CollectionItem<T>>,
    out: Seq<CollectionItem<O>>,
) -> bool
    decreases inp,
{
    if inp.len() == 0 {
        out.len() == 0
    } else {
        match inp.last() {
            CollectionItem::Collection(c) => out.len() > 0 && (match out.last() {
                CollectionItem::Collection(oc) => spec_map_rel(f, c, oc),
                CollectionItem::Item(_o) => false,
            }) && spec_map_items_rel(f, inp.drop_last(), out.drop_last()),
            CollectionItem::Item(t) => (out.len() > 0 && (match out.last() {
                CollectionItem::Item(o) => call_ensures(f, (&t,), Some(o)),
                CollectionItem::Collection(_oc) => false,
            }) && spec_map_items_rel(f, inp.drop_last(), out.drop_last())) || (call_ensures(
                f,
                (&t,),
                None,
            ) && spec_map_items_rel(f, inp.drop_last(), out)),
        }
    }
}

/// How a mapped tree relates to its source: the node header is kept and
/// the children map in order.
pub open spec fn spec_map_rel<T, O, F: Fn(&T) -> Option<O>>(
    f: F,
    inp: Collection<T>,
    out: Collection<O>,
) -> bool
    decreases inp,
{
    &&& out.collection_type == inp.collection_type
    &&& out.usage == inp.usage
    &&& out.designator_index == inp.designator_index
    &&& out.string_index == inp.string_index
    &&& spec_map_items_rel(f, inp.items@, out.items@)
}

impl<T> Collection<T> {
    /// Maps every leaf under the tree through `f`, preserving the node
    /// structure; a leaf that `f` maps to `None` is dropped.
    pub fn map<O, F: Fn(&T) -> Option<O> + Copy>(&self, f: F) -> (r: Collection<O>)
        requires
            forall|t: &T| #[trigger] f.requires((t,)),
        ensures
            spec_map_rel(f, *self, r),
        decreases *self,
    {
        let mut out: Vec<CollectionItem<O>> = Vec::new();
        let mut i: usize = 0;
        proof {
            assert(self.items@.take(0) =~= Seq::<CollectionItem<T>>::empty());
        }
        while i < self.items.len()
            invariant
                forall|t: &T| #[trigger] f.requires((t,)),
                0 <= i <= self.items@.len(),
                spec_map_items_rel(f, self.items@.take(i as int), out@),
            decreases self.items@.len() - i,
        {
            proof {
                assert(self.items@.take(i + 1).drop_last() =~= self.items@.take(i as int));
                assert(self.items@.take(i + 1).last() == self.items@[i as int]);
            }
            let ghost out_old = out@;
            match &self.items[i] {
                CollectionItem::Collection(c) => {
                    let col = c.map(f);
                    out.push(CollectionItem::Collection(col));
                    proof {
                        assert(out@.drop_last() =~= out_old);
                    }
                },
                CollectionItem::Item(item) => {
                    match f(item) {
                        Some(o) => {
                            out.push(CollectionItem::Item(o));
                            proof {
                                assert(out@.drop_last() =~= out_old);
                            }
                        },
                        None => (),
                    }
                },
            }
            i = i + 1;
        }
        proof {
            assert(self.items@.take(self.items@.len() as int) =~= self.items@);
        }
        Collection {
            collection_type: self.collection_type,
            usage: self.usage,
            designator_index: self.designator_index,
            string_index: self.string_index,
            items: out,
        }
    }
}

/// The view of a child sequence has the same length, and each child views
/// pointwise.
pub proof fn lemma_deep_view_items<T: View>(items: Seq<CollectionItem<T>>)
    ensures
        deep_view_items(items).len() == items.len(),
        forall|i: int|
            0 <= i < items.len() ==> deep_view_items(items)[i] == #[trigger] items[i].deep_view(),
    decreases items,
{
    if items.len() > 0 {
        lemma_deep_view_items(items.drop_last());
        assert forall|i: int| 0 <= i < items.len() implies deep_view_items(items)[i]
            == #[trigger] items[i].deep_view() by {
            if i < items.len() - 1 {
                assert(items.drop_last()[i] == items[i]);
            }
        }
    }
}

} // verus!
