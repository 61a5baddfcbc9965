//! Pages of a list: twenty lines each.

use vstd::prelude::*;

verus! {

/// Lines per page.
pub const PAGE_SIZE: usize = 20;

/// One page of a list, with the length of the whole list and whether any
/// line follows the page.
#[derive(Debug)]
pub struct Page<T> {
    pub results: Vec<T>,
    pub has_more: bool,
    pub total_count: usize,
}

/// Index of the first line of a page, or the list's length if the list ends
/// before it.
pub open spec fn page_start(len: nat, page: nat) -> nat {
    if page * PAGE_SIZE as nat <= len {
        page * PAGE_SIZE as nat
    } else {
        len
    }
}

/// Index after the last line of a page, cut to the list's length.
pub open spec fn page_end(len: nat, page: nat) -> nat {
    if (page + 1) * PAGE_SIZE as nat <= len {
        (page + 1) * PAGE_SIZE as nat
    } else {
        len
    }
}

/// The lines of a page: those at indices from `page * 20` up to, but not
/// including, `page * 20 + 20`, as far as the list has them.
pub open spec fn page_spec<T>(list: Seq<T>, page: nat) -> Seq<T> {
    list.subrange(page_start(list.len(), page) as int, page_end(list.len(), page) as int)
}

/// Lines follow the page.
pub open spec fn has_more_spec(len: nat, page: nat) -> bool {
    len > (page + 1) * PAGE_SIZE as nat
}

/// Pages `0` to `count - 1`, one after another.
pub open spec fn pages_upto<T>(list: Seq<T>, count: nat) -> Seq<T>
    decreases count,
{
    if count == 0 {
        Seq::empty()
    } else {
        pages_upto(list, (count - 1) as nat) + page_spec(list, (count - 1) as nat)
    }
}

/// Cuts one page out of a list. A page beyond the end of the list is empty
/// and nothing follows it.
pub fn paginate<T>(list: Vec<T>, page: u32) -> (p: Page<T>)
    ensures
        p.results@ == page_spec(list@, page as nat),
        p.has_more == has_more_spec(list@.len(), page as nat),
        p.total_count == list@.len(),
{
    let total: usize = list.len();
    let start: u64 = page as u64 * PAGE_SIZE as u64;
    let mut rest = list;
    if start >= total as u64 {
        rest.truncate(0);
        assert(rest@ =~= page_spec(list@, page as nat));
        Page { results: rest, has_more: false, total_count: total }
    } else {
        let from: usize = start as usize;
        let mut results = rest.split_off(from);
        let has_more: bool = results.len() > PAGE_SIZE;
        results.truncate(PAGE_SIZE);
        assert(results@ =~= page_spec(list@, page as nat));
        Page { results, has_more, total_count: total }
    }
}

/// The first `count` pages, one after another, are the list's first
/// `count * 20` lines, or the whole list if it has no more than that.
pub proof fn lemma_pages_upto<T>(list: Seq<T>, count: nat)
    ensures
        pages_upto(list, count) == list.subrange(0, page_start(list.len(), count) as int),
    decreases count,
{
    if count == 0 {
        assert(pages_upto(list, count) =~= list.subrange(0, 0));
    } else {
        let before = (count - 1) as nat;
        lemma_pages_upto(list, before);
        assert(page_end(list.len(), before) == page_start(list.len(), count));
        assert(before * PAGE_SIZE as nat <= count * PAGE_SIZE as nat) by (nonlinear_arith)
            requires
                before <= count,
        ;
        assert(pages_upto(list, count) =~= list.subrange(
            0,
            page_start(list.len(), count) as int,
        ));
    }
}

/// Pages `0, 1, 2, ...` put one after another give the list back, every line
/// once: the pages up to and including `page` are the whole list exactly
/// when nothing follows `page`, which is so on the last page that has lines
/// and on every page after it.
pub proof fn lemma_pages_complete<T>(list: Seq<T>, page: nat)
    ensures
        !has_more_spec(list.len(), page) <==> pages_upto(list, page + 1) == list,
        pages_upto(list, page + 1).len() <= list.len(),
{
    lemma_pages_upto(list, page + 1);
    let upto = page_start(list.len(), page + 1);
    if !has_more_spec(list.len(), page) {
        assert(list.subrange(0, upto as int) =~= list);
    } else {
        assert(list.subrange(0, upto as int).len() < list.len());
    }
}

} // verus!
