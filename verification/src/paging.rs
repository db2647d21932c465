//! Pages of a result: which part of a sequence a page holds.

use crate::entities::{views, WalkRequest};
use crate::error::{Error, Invalid};
use vstd::prelude::*;

verus! {

/// A page of a result. Pages are counted from 1; `size` is the length of a
/// full page.
#[derive(Clone, Copy, Debug, PartialEq, Eq, Structural)]
pub struct Pagination {
    pub page: i64,
    pub size: i64,
}

impl Pagination {
    pub fn new(page: i64, size: i64) -> (pagination: Self)
        ensures
            pagination.page == page,
            pagination.size == size,
    {
        Self { page, size }
    }

    /// There is such a page: it is not before the first, and its length
    /// is not negative.
    pub open spec fn valid(self) -> bool {
        self.page >= 1 && self.size >= 0
    }

    /// How many items come before the page.
    pub open spec fn offset(self) -> int {
        (self.page - 1) * self.size
    }

    /// Where the page starts in a sequence of `len` items.
    pub open spec fn start(self, len: nat) -> int {
        if self.offset() < len {
            self.offset()
        } else {
            len as int
        }
    }

    /// Where the page stops in a sequence of `len` items.
    pub open spec fn stop(self, len: nat) -> int {
        if self.offset() + self.size < len {
            self.offset() + self.size
        } else {
            len as int
        }
    }

    /// The items of `items` that the page holds: those from the offset on,
    /// as many as the page is long, or as are left.
    pub open spec fn page_of<T>(self, items: Seq<T>) -> Seq<T> {
        items.subrange(self.start(items.len()), self.stop(items.len()))
    }

    /// How many items to skip to reach the page: its offset, or the
    /// largest number there is where the offset is larger still.
    pub fn skip(&self) -> (skip: Result<u64, Error>)
        ensures
            self.valid() ==> skip == Ok::<u64, Error>(
                if self.offset() <= u64::MAX {
                    self.offset() as u64
                } else {
                    u64::MAX
                },
            ),
            !self.valid() ==> skip == Err::<u64, Error>(Error::Validation(Invalid::Pagination)),
    {
        if self.page < 1 || self.size < 0 {
            return Err(Error::Validation(Invalid::Pagination));
        }
        let before: u64 = (self.page - 1) as u64;
        let size: u64 = self.size as u64;
        match before.checked_mul(size) {
            None => Ok(u64::MAX),
            Some(offset) => Ok(offset),
        }
    }

    /// Where the page starts and stops in a sequence of `len` items.
    pub fn window(&self, len: usize) -> (window: Result<(usize, usize), Error>)
        ensures
            self.valid() ==> window == Ok::<(usize, usize), Error>(
                (self.start(len as nat) as usize, self.stop(len as nat) as usize),
            ),
            !self.valid() ==> window == Err::<(usize, usize), Error>(
                Error::Validation(Invalid::Pagination),
            ),
            window matches Ok((start, stop)) ==> start <= stop <= len,
    {
        let offset = match self.skip() {
            Ok(offset) => offset,
            Err(e) => {
                return Err(e);
            },
        };
        let size: u64 = self.size as u64;
        let limit: u64 = len as u64;
        if offset >= limit {
            Ok((len, len))
        } else if size >= limit - offset {
            Ok((offset as usize, len))
        } else {
            Ok((offset as usize, (offset + size) as usize))
        }
    }
}

/// The page of `items` that `pagination` asks for.
pub fn take_page(items: Vec<WalkRequest>, pagination: &Pagination) -> (page: Result<
    Vec<WalkRequest>,
    Error,
>)
    ensures
        pagination.valid() ==> page is Ok && views(page->Ok_0@) == pagination.page_of(
            views(items@),
        ),
        !pagination.valid() ==> page == Err::<Vec<WalkRequest>, Error>(
            Error::Validation(Invalid::Pagination),
        ),
{
    let mut items = items;
    let ghost all = items@;
    match pagination.window(items.len()) {
        Err(e) => Err(e),
        Ok((start, stop)) => {
            items.truncate(stop);
            let page = items.split_off(start);
            assert(page@ =~= all.subrange(start as int, stop as int));
            assert(views(page@) =~= views(all).subrange(start as int, stop as int));
            Ok(page)
        },
    }
}

/// The second page of ten holds the items at the offsets from 10 up to,
/// and not including, 20, as far as there are any.
pub proof fn lemma_second_page_of_ten<T>(items: Seq<T>)
    ensures
        ({
            let page = Pagination { page: 2, size: 10 }.page_of(items);
            &&& items.len() >= 20 ==> page == items.subrange(10, 20)
            &&& 10 <= items.len() < 20 ==> page == items.subrange(10, items.len() as int)
            &&& items.len() < 10 ==> page == Seq::<T>::empty()
        }),
{
    let page = Pagination { page: 2, size: 10 }.page_of(items);
    if items.len() < 10 {
        assert(page =~= Seq::<T>::empty());
    }
}

/// A page holds the items from its offset on, in their order: the item at
/// position `i` of page `page` is the item at `(page - 1) * size + i`.
pub proof fn lemma_page_holds_its_offsets<T>(pagination: Pagination, items: Seq<T>, i: int)
    requires
        pagination.valid(),
        0 <= i < pagination.page_of(items).len(),
    ensures
        pagination.offset() + i < items.len(),
        i < pagination.size,
        pagination.page_of(items)[i] == items[pagination.offset() + i],
        pagination.page_of(items).len() == pagination.stop(items.len()) - pagination.start(
            items.len(),
        ),
{
    assert(0 <= pagination.offset()) by (nonlinear_arith)
        requires
            pagination.page >= 1,
            pagination.size >= 0,
            pagination.offset() == (pagination.page - 1) * pagination.size,
    ;
}

/// The first page holds everything where there is no more than a page of
/// it.
pub proof fn lemma_first_page_holds_short_result<T>(pagination: Pagination, items: Seq<T>)
    requires
        pagination.page == 1,
        items.len() <= pagination.size,
    ensures
        pagination.page_of(items) == items,
{
    assert(pagination.offset() == 0) by (nonlinear_arith)
        requires
            pagination.page == 1,
            pagination.offset() == (pagination.page - 1) * pagination.size,
    ;
    assert(pagination.page_of(items) =~= items);
}

} // verus!
