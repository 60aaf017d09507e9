//! The list of paths that are to be granted.

use smallvec::SmallVec;
use vstd::prelude::*;

verus! {

/// The paths that are to be granted: a `smallvec::SmallVec`, since a request
/// mostly names few of them.
#[verifier::external_body]
pub struct GrantList {
    items: SmallVec<[String; 8]>,
}

/// The paths that `list` holds, in order.
pub uninterp spec fn grant_items(list: GrantList) -> Seq<Seq<char>>;

impl View for GrantList {
    type V = Seq<Seq<char>>;

    open spec fn view(&self) -> Seq<Seq<char>> {
        grant_items(*self)
    }
}

/// `smallvec::SmallVec::new`: the list without items.
#[verifier::external_body]
pub(crate) fn grant_list() -> (r: GrantList)
    ensures
        grant_items(r) == Seq::<Seq<char>>::empty(),
{
    GrantList { items: SmallVec::new() }
}

/// `smallvec::SmallVec::push`: the list with one more item at its end.
#[verifier::external_body]
pub(crate) fn grant_push(list: &mut GrantList, path: String)
    ensures
        grant_items(*final(list)) == grant_items(*old(list)).push(path@),
{
    list.items.push(path);
}

/// `smallvec::SmallVec::len`: the number of items.
#[verifier::external_body]
pub(crate) fn grant_len(list: &GrantList) -> (r: usize)
    ensures
        r == grant_items(*list).len(),
{
    list.items.len()
}

/// The `Index` impl of `smallvec::SmallVec`: the item at a position.
#[verifier::external_body]
pub(crate) fn grant_at(list: &GrantList, i: usize) -> (r: &String)
    requires
        i < grant_items(*list).len(),
    ensures
        r@ == grant_items(*list)[i as int],
{
    &list.items[i]
}

impl GrantList {
    /// The number of paths.
    pub fn len(&self) -> (r: usize)
        ensures
            r == self@.len(),
    {
        grant_len(self)
    }

    /// Whether there is no path.
    pub fn is_empty(&self) -> (r: bool)
        ensures
            r == (self@.len() == 0),
    {
        grant_len(self) == 0
    }

    /// The path at position `i`.
    pub fn at(&self, i: usize) -> (r: &String)
        requires
            i < self@.len(),
        ensures
            r@ == self@[i as int],
    {
        grant_at(self, i)
    }
}

} // verus!
