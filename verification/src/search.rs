//! Laying out the requests that a query chose: rank, order and page.
//!
//! A query by proximity ranks what it chose by distance, nearest first,
//! takes the page from that ranking, and only then applies an explicit
//! order, to the page alone. Any other query applies the explicit order
//! first and takes the page from the ordered result.

use crate::entities::{views, WalkRequest, WalkRequestView};
use crate::error::{Error, Invalid};
use crate::paging::{take_page, Pagination};
use crate::sorting::{
    lemma_sorted, ordered, sort_requests, sorted, Order, SortBy, SortByView, SortField,
};
use vstd::prelude::*;

verus! {

/// What an optional order holds.
pub open spec fn sort_view(sort_by: Option<SortBy>) -> Option<SortByView> {
    match sort_by {
        Some(s) => Some(s@),
        None => None,
    }
}

/// `requests` in the order asked for. Without an order, or with one by a
/// field that requests are not ordered by, they stay as they are.
pub open spec fn arranged(requests: Seq<WalkRequestView>, sort_by: Option<SortByView>) -> Seq<
    WalkRequestView,
> {
    match sort_by {
        Some(s) => match SortField::named(s.field) {
            Some(field) => sorted(requests, field, s.order),
            None => requests,
        },
        None => requests,
    }
}

/// The page of `requests` asked for; all of them where none is.
pub open spec fn paged(requests: Seq<WalkRequestView>, pagination: Option<Pagination>) -> Seq<
    WalkRequestView,
> {
    match pagination {
        Some(p) => p.page_of(requests),
        None => requests,
    }
}

/// What a query returns of the requests it chose. `ranked` says that the
/// query was one by proximity.
pub open spec fn laid_out(
    chosen: Seq<WalkRequestView>,
    ranked: bool,
    sort_by: Option<SortByView>,
    pagination: Option<Pagination>,
) -> Seq<WalkRequestView> {
    if ranked {
        arranged(paged(sorted(chosen, SortField::Distance, Order::Asc), pagination), sort_by)
    } else {
        paged(arranged(chosen, sort_by), pagination)
    }
}

/// Orders `requests` as asked.
pub fn arrange(requests: Vec<WalkRequest>, sort_by: &Option<SortBy>) -> (result: Vec<WalkRequest>)
    ensures
        views(result@) == arranged(views(requests@), sort_view(*sort_by)),
{
    match sort_by {
        Some(s) => match SortField::parse(&s.field) {
            Some(field) => sort_requests(requests, field, s.order),
            None => requests,
        },
        None => requests,
    }
}

/// Takes the page asked for from `requests`.
pub fn page(requests: Vec<WalkRequest>, pagination: &Option<Pagination>) -> (result: Result<
    Vec<WalkRequest>,
    Error,
>)
    ensures
        match *pagination {
            Some(p) if !p.valid() => result == Err::<Vec<WalkRequest>, Error>(
                Error::Validation(Invalid::Pagination),
            ),
            _ => result is Ok && views(result->Ok_0@) == paged(views(requests@), *pagination),
        },
{
    match pagination {
        Some(p) => take_page(requests, p),
        None => Ok(requests),
    }
}

/// Lays out the requests that a query chose. Fails, before anything is
/// ordered, where the page asked for does not exist.
pub fn lay_out(
    chosen: Vec<WalkRequest>,
    ranked: bool,
    sort_by: &Option<SortBy>,
    pagination: &Option<Pagination>,
) -> (result: Result<Vec<WalkRequest>, Error>)
    ensures
        match *pagination {
            Some(p) if !p.valid() => result == Err::<Vec<WalkRequest>, Error>(
                Error::Validation(Invalid::Pagination),
            ),
            _ => result is Ok && views(result->Ok_0@) == laid_out(
                views(chosen@),
                ranked,
                sort_view(*sort_by),
                *pagination,
            ),
        },
{
    if let Some(p) = pagination {
        if p.page < 1 || p.size < 0 {
            return Err(Error::Validation(Invalid::Pagination));
        }
    }
    if ranked {
        let nearest_first = sort_requests(chosen, SortField::Distance, Order::Asc);
        match page(nearest_first, pagination) {
            Ok(part) => Ok(arrange(part, sort_by)),
            Err(e) => Err(e),
        }
    } else {
        page(arrange(chosen, sort_by), pagination)
    }
}

/// A page of `requests` holds only requests of `requests`, and keeps
/// their order.
pub proof fn lemma_paged(requests: Seq<WalkRequestView>, pagination: Option<Pagination>)
    requires
        pagination matches Some(p) ==> p.valid(),
    ensures
        forall|x: WalkRequestView| paged(requests, pagination).contains(x) ==> requests.contains(x),
        forall|field: SortField, order: Order|
            ordered(requests, field, order) ==> #[trigger] ordered(
                paged(requests, pagination),
                field,
                order,
            ),
{
    if let Some(p) = pagination {
        let part = p.page_of(requests);
        let from = p.start(requests.len());
        assert(0 <= p.offset()) by (nonlinear_arith)
            requires
                p.page >= 1,
                p.size >= 0,
                p.offset() == (p.page - 1) * p.size,
        ;
        assert forall|x: WalkRequestView| part.contains(x) implies requests.contains(x) by {
            let i = choose|i: int| 0 <= i < part.len() && part[i] == x;
            assert(requests[from + i] == x);
        }
        assert forall|field: SortField, order: Order|
            ordered(requests, field, order) implies #[trigger] ordered(part, field, order) by {
            assert forall|i: int, j: int| 0 <= i < j < part.len() implies !crate::sorting::precedes(
                field.key(#[trigger] part[j]),
                field.key(#[trigger] part[i]),
                order,
            ) by {
                assert(part[i] == requests[from + i] && part[j] == requests[from + j]);
            }
        }
    }
}

/// Ordering `requests` returns the requests of `requests`, all of them
/// and no other.
pub proof fn lemma_arranged(requests: Seq<WalkRequestView>, sort_by: Option<SortByView>)
    ensures
        forall|x: WalkRequestView| arranged(requests, sort_by).contains(x) <==> requests.contains(x),
        arranged(requests, sort_by).len() == requests.len(),
{
    if let Some(s) = sort_by {
        if let Some(field) = SortField::named(s.field) {
            lemma_sorted(requests, field, s.order);
        }
    }
}

/// What a query returns is among what it chose. Where the query was one
/// by proximity and no explicit order was asked for, the result is in the
/// order of distance, nearest first: no request in it stands behind one
/// that is farther away.
pub proof fn lemma_laid_out(
    chosen: Seq<WalkRequestView>,
    ranked: bool,
    sort_by: Option<SortByView>,
    pagination: Option<Pagination>,
)
    requires
        pagination matches Some(p) ==> p.valid(),
    ensures
        forall|x: WalkRequestView|
            laid_out(chosen, ranked, sort_by, pagination).contains(x) ==> chosen.contains(x),
        ranked && sort_by is None ==> ordered(
            laid_out(chosen, ranked, sort_by, pagination),
            SortField::Distance,
            Order::Asc,
        ),
{
    if ranked {
        let nearest_first = sorted(chosen, SortField::Distance, Order::Asc);
        lemma_sorted(chosen, SortField::Distance, Order::Asc);
        lemma_paged(nearest_first, pagination);
        lemma_arranged(paged(nearest_first, pagination), sort_by);
    } else {
        lemma_arranged(chosen, sort_by);
        lemma_paged(arranged(chosen, sort_by), pagination);
    }
}

} // verus!
