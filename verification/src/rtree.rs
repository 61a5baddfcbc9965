//! The boundary to the `rstar` crate: an R-tree of integer rectangles, each
//! tagged with a provider id.
//!
//! Nothing in this file is proved. Each function states what the `rstar`
//! call in its body does to the items the tree holds; the rest of the library
//! is verified against these statements.

use vstd::prelude::*;
use vstd::multiset::Multiset;
use rstar::RTree;
use rstar::primitives::GeomWithData;
use rstar::primitives::Rectangle;
use crate::geo::COORD_LIMIT;

verus! {

/// An `rstar::RTree` over rectangles with `i64` corners, each carrying a
/// `u32` id. The verifier sees nothing inside it; what it holds is spoken of
/// through `tree_items`.
#[verifier::external_body]
pub struct ProviderTree {
    inner: RTree<GeomWithData<Rectangle<[i64; 2]>, u32>>,
}

/// The items a tree holds, each as
/// `(lower longitude, lower latitude, upper longitude, upper latitude, id)`:
/// the two corners of its rectangle and its data. An item stored twice
/// counts twice.
pub uninterp spec fn tree_items(tree: ProviderTree) -> Multiset<(i64, i64, i64, i64, u32)>;

/// The item's corners are ordered and within the coordinate limit.
pub open spec fn item_bounded(item: (i64, i64, i64, i64, u32)) -> bool {
    &&& -COORD_LIMIT <= item.0 <= item.2 <= COORD_LIMIT
    &&& -COORD_LIMIT <= item.1 <= item.3 <= COORD_LIMIT
}

/// The item's rectangle holds the point, borders included.
pub open spec fn item_holds(item: (i64, i64, i64, i64, u32), lon: i64, lat: i64) -> bool {
    &&& item.0 <= lon <= item.2
    &&& item.1 <= lat <= item.3
}

/// Calls `RTree::bulk_load` on the rectangles made by
/// `Rectangle::from_corners` and `GeomWithData::new`.
///
/// Claims that the tree holds exactly the given items, each as often as the
/// list does. Corners must be ordered, so that `from_corners` keeps them as
/// given.
#[verifier::external_body]
pub(crate) fn tree_bulk_load(items: Vec<(i64, i64, i64, i64, u32)>) -> (tree: ProviderTree)
    requires
        forall|i: int| 0 <= i < items@.len() ==> item_bounded(#[trigger] items@[i]),
    ensures
        tree_items(tree) == items@.to_multiset(),
{
    ProviderTree {
        inner: RTree::bulk_load(
            items.into_iter().map(
                |it| GeomWithData::new(Rectangle::from_corners([it.0, it.1], [it.2, it.3]), it.4),
            ).collect(),
        ),
    }
}

/// Calls `RTree::insert`.
///
/// Claims that the tree afterwards holds one more instance of the item and
/// is otherwise unchanged. The insertion heuristic multiplies and adds
/// coordinate extents of stored rectangles, so every item, old and new, must
/// be within the coordinate limit.
#[verifier::external_body]
pub(crate) fn tree_insert(
    tree: &mut ProviderTree,
    item: (i64, i64, i64, i64, u32),
)
    requires
        item_bounded(item),
        forall|it: (i64, i64, i64, i64, u32)|
            tree_items(*old(tree)).count(it) > 0 ==> item_bounded(it),
    ensures
        tree_items(*final(tree)) == tree_items(*old(tree)).insert(item),
{
    tree.inner.insert(
        GeomWithData::new(Rectangle::from_corners([item.0, item.1], [item.2, item.3]), item.4),
    );
}

/// Calls `RTree::remove`.
///
/// Claims that one instance of the item leaves the tree if the tree holds
/// it, that the tree is unchanged if not, and that the result tells which.
#[verifier::external_body]
pub(crate) fn tree_remove(
    tree: &mut ProviderTree,
    item: (i64, i64, i64, i64, u32),
) -> (found: bool)
    requires
        item_bounded(item),
    ensures
        found == (tree_items(*old(tree)).count(item) > 0),
        tree_items(*final(tree)) == tree_items(*old(tree)).remove(item),
{
    tree.inner.remove(
        &GeomWithData::new(Rectangle::from_corners([item.0, item.1], [item.2, item.3]), item.4),
    ).is_some()
}

/// Calls `RTree::locate_all_at_point` and reads the corners and the id off
/// each item it yields.
///
/// Claims that the result lists exactly the stored items whose rectangle
/// holds the point, each as often as the tree holds it, in no stated order.
#[verifier::external_body]
pub(crate) fn tree_locate(
    tree: &ProviderTree,
    lon: i64,
    lat: i64,
) -> (found: Vec<(i64, i64, i64, i64, u32)>)
    ensures
        found@.to_multiset() == tree_items(*tree).filter(
            (|it: (i64, i64, i64, i64, u32)| item_holds(it, lon, lat)),
        ),
{
    tree.inner.locate_all_at_point([lon, lat]).map(
        |g| {
            let (lower, upper) = (g.geom().lower(), g.geom().upper());
            (lower[0], lower[1], upper[0], upper[1], g.data)
        },
    ).collect()
}

} // verus!
