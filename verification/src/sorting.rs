//! Ordering a result by one field, upwards or downwards.
//!
//! Requests are ordered by what the field holds: numbers and times by
//! their value, texts by their bytes in UTF-8, as a store orders strings.
//! A request without the field comes before every request that has it when
//! the order is upwards, and after them when it is downwards. Requests
//! that the field does not tell apart stay in the order they came in.

use crate::entities::{views, WalkRequest, WalkRequestView};
use vstd::multiset::Multiset;
use vstd::prelude::*;
use vstd::utf8::encode_utf8;

verus! {

/// The direction of an order.
#[derive(Clone, Copy, Debug, PartialEq, Eq, Structural)]
pub enum Order {
    Asc,
    Desc,
}

/// The field to order a result by, and the direction.
#[derive(Clone, Debug, PartialEq, Eq)]
pub struct SortBy {
    pub field: String,
    pub order: Order,
}

/// What an order holds.
pub struct SortByView {
    pub field: Seq<char>,
    pub order: Order,
}

impl View for SortBy {
    type V = SortByView;

    open spec fn view(&self) -> SortByView {
        SortByView { field: self.field@, order: self.order }
    }
}

/// A field of a walk request that requests can be ordered by.
#[derive(Clone, Copy, Debug, PartialEq, Eq, Structural)]
pub enum SortField {
    Id,
    CreatedBy,
    AcceptedBy,
    ShouldStartAfter,
    ShouldStartBefore,
    ShouldEndAfter,
    ShouldEndBefore,
    Latitude,
    Longitude,
    Distance,
    CanceledAt,
    AcceptedAt,
    StartedAt,
    FinishedAt,
    CreatedAt,
    UpdatedAt,
}

/// What a field holds of a request, as far as requests are ordered by it.
pub ghost enum Key {
    /// The request is without the field.
    Absent,
    /// A number, or a time in milliseconds.
    Number(int),
    /// The bytes of a text in UTF-8.
    Text(Seq<u8>),
}

/// What an optional time counts as.
pub open spec fn number(time: Option<i64>) -> Key {
    match time {
        Some(t) => Key::Number(t as int),
        None => Key::Absent,
    }
}

/// What a text counts as.
pub open spec fn text(chars: Seq<char>) -> Key {
    Key::Text(encode_utf8(chars))
}

/// What a field holds of a request, for the comparisons that order
/// requests.
#[derive(Clone, Copy, Debug, PartialEq, Eq)]
pub enum SortKey<'a> {
    Absent,
    Number(i128),
    Text(&'a str),
}

impl<'a> View for SortKey<'a> {
    type V = Key;

    open spec fn view(&self) -> Key {
        match self {
            SortKey::Absent => Key::Absent,
            SortKey::Number(n) => Key::Number(*n as int),
            SortKey::Text(t) => text(t@),
        }
    }
}

impl SortField {
    /// The field of that name, if it is one that requests can be ordered
    /// by.
    pub open spec fn named(name: Seq<char>) -> Option<SortField> {
        if name == "id"@ {
            Some(SortField::Id)
        } else if name == "created_by"@ {
            Some(SortField::CreatedBy)
        } else if name == "accepted_by"@ {
            Some(SortField::AcceptedBy)
        } else if name == "should_start_after"@ {
            Some(SortField::ShouldStartAfter)
        } else if name == "should_start_before"@ {
            Some(SortField::ShouldStartBefore)
        } else if name == "should_end_after"@ {
            Some(SortField::ShouldEndAfter)
        } else if name == "should_end_before"@ {
            Some(SortField::ShouldEndBefore)
        } else if name == "latitude"@ {
            Some(SortField::Latitude)
        } else if name == "longitude"@ {
            Some(SortField::Longitude)
        } else if name == "distance"@ {
            Some(SortField::Distance)
        } else if name == "canceled_at"@ {
            Some(SortField::CanceledAt)
        } else if name == "accepted_at"@ {
            Some(SortField::AcceptedAt)
        } else if name == "started_at"@ {
            Some(SortField::StartedAt)
        } else if name == "finished_at"@ {
            Some(SortField::FinishedAt)
        } else if name == "created_at"@ {
            Some(SortField::CreatedAt)
        } else if name == "updated_at"@ {
            Some(SortField::UpdatedAt)
        } else {
            None
        }
    }

    /// The field of that name, if it is one that requests can be ordered
    /// by.
    pub fn parse(name: &String) -> (field: Option<SortField>)
        ensures
            field == SortField::named(name@),
    {
        if *name == "id".to_owned() {
            Some(SortField::Id)
        } else if *name == "created_by".to_owned() {
            Some(SortField::CreatedBy)
        } else if *name == "accepted_by".to_owned() {
            Some(SortField::AcceptedBy)
        } else if *name == "should_start_after".to_owned() {
            Some(SortField::ShouldStartAfter)
        } else if *name == "should_start_before".to_owned() {
            Some(SortField::ShouldStartBefore)
        } else if *name == "should_end_after".to_owned() {
            Some(SortField::ShouldEndAfter)
        } else if *name == "should_end_before".to_owned() {
            Some(SortField::ShouldEndBefore)
        } else if *name == "latitude".to_owned() {
            Some(SortField::Latitude)
        } else if *name == "longitude".to_owned() {
            Some(SortField::Longitude)
        } else if *name == "distance".to_owned() {
            Some(SortField::Distance)
        } else if *name == "canceled_at".to_owned() {
            Some(SortField::CanceledAt)
        } else if *name == "accepted_at".to_owned() {
            Some(SortField::AcceptedAt)
        } else if *name == "started_at".to_owned() {
            Some(SortField::StartedAt)
        } else if *name == "finished_at".to_owned() {
            Some(SortField::FinishedAt)
        } else if *name == "created_at".to_owned() {
            Some(SortField::CreatedAt)
        } else if *name == "updated_at".to_owned() {
            Some(SortField::UpdatedAt)
        } else {
            None
        }
    }

    /// What the field holds of `r`.
    pub open spec fn key(self, r: WalkRequestView) -> Key {
        match self {
            SortField::Id => text(r.id),
            SortField::CreatedBy => text(r.created_by),
            SortField::AcceptedBy => match r.accepted_by {
                Some(walker) => text(walker),
                None => Key::Absent,
            },
            SortField::ShouldStartAfter => number(r.should_start_after),
            SortField::ShouldStartBefore => number(r.should_start_before),
            SortField::ShouldEndAfter => number(r.should_end_after),
            SortField::ShouldEndBefore => number(r.should_end_before),
            SortField::Latitude => Key::Number(r.latitude as int),
            SortField::Longitude => Key::Number(r.longitude as int),
            SortField::Distance => match r.distance {
                Some(d) => Key::Number(d as int),
                None => Key::Absent,
            },
            SortField::CanceledAt => number(r.canceled_at),
            SortField::AcceptedAt => number(r.accepted_at),
            SortField::StartedAt => number(r.started_at),
            SortField::FinishedAt => number(r.finished_at),
            SortField::CreatedAt => number(r.created_at),
            SortField::UpdatedAt => number(r.updated_at),
        }
    }

    /// What the field holds of `r`.
    pub fn key_of<'a>(&self, r: &'a WalkRequest) -> (key: SortKey<'a>)
        ensures
            key@ == self.key(r@),
    {
        match self {
            SortField::Id => SortKey::Text(r.id.as_str()),
            SortField::CreatedBy => SortKey::Text(r.created_by.as_str()),
            SortField::AcceptedBy => match &r.accepted_by {
                Some(walker) => SortKey::Text(walker.as_str()),
                None => SortKey::Absent,
            },
            SortField::ShouldStartAfter => widen(r.should_start_after),
            SortField::ShouldStartBefore => widen(r.should_start_before),
            SortField::ShouldEndAfter => widen(r.should_end_after),
            SortField::ShouldEndBefore => widen(r.should_end_before),
            SortField::Latitude => SortKey::Number(r.latitude as i128),
            SortField::Longitude => SortKey::Number(r.longitude as i128),
            SortField::Distance => match r.distance {
                Some(d) => SortKey::Number(d as i128),
                None => SortKey::Absent,
            },
            SortField::CanceledAt => widen(r.canceled_at),
            SortField::AcceptedAt => widen(r.accepted_at),
            SortField::StartedAt => widen(r.started_at),
            SortField::FinishedAt => widen(r.finished_at),
            SortField::CreatedAt => widen(r.created_at),
            SortField::UpdatedAt => widen(r.updated_at),
        }
    }
}

fn widen<'a>(time: Option<i64>) -> (key: SortKey<'a>)
    ensures
        key@ == number(time),
{
    match time {
        Some(t) => SortKey::Number(t as i128),
        None => SortKey::Absent,
    }
}

/// The bytes `a` come before the bytes `b` in the order of a dictionary:
/// at the first place where they differ `a` has the lesser byte, or `a`
/// ends where `b` goes on.
pub open spec fn lex_below(a: Seq<u8>, b: Seq<u8>) -> bool
    decreases a.len(),
{
    if b.len() == 0 {
        false
    } else if a.len() == 0 {
        true
    } else if a[0] != b[0] {
        a[0] < b[0]
    } else {
        lex_below(a.drop_first(), b.drop_first())
    }
}

/// The key `a` is below the key `b`: a request without the field is
/// below every request with it, a number below every text, a number below
/// a greater number, and a text below a text that comes after it.
pub open spec fn below(a: Key, b: Key) -> bool {
    match (a, b) {
        (Key::Absent, Key::Absent) => false,
        (Key::Absent, _) => true,
        (Key::Number(x), Key::Number(y)) => x < y,
        (Key::Number(_), Key::Text(_)) => true,
        (Key::Text(x), Key::Text(y)) => lex_below(x, y),
        _ => false,
    }
}

/// No bytes come before themselves, and of two different sequences of
/// bytes exactly one comes before the other.
pub proof fn lemma_lex_below_is_total(a: Seq<u8>, b: Seq<u8>)
    ensures
        !(lex_below(a, b) && lex_below(b, a)),
        lex_below(a, b) || lex_below(b, a) || a == b,
    decreases a.len(),
{
    if a.len() == 0 || b.len() == 0 {
        if a.len() == 0 && b.len() == 0 {
            assert(a =~= b);
        }
    } else if a[0] == b[0] {
        lemma_lex_below_is_total(a.drop_first(), b.drop_first());
        if a.drop_first() == b.drop_first() {
            assert(a =~= seq![a[0]] + a.drop_first());
            assert(b =~= seq![b[0]] + b.drop_first());
        }
    }
}

/// Coming before is transitive.
pub proof fn lemma_lex_below_is_transitive(a: Seq<u8>, b: Seq<u8>, c: Seq<u8>)
    requires
        lex_below(a, b),
        lex_below(b, c),
    ensures
        lex_below(a, c),
    decreases a.len(),
{
    if a.len() > 0 && a[0] == b[0] && b[0] == c[0] {
        lemma_lex_below_is_transitive(a.drop_first(), b.drop_first(), c.drop_first());
    }
}

/// The keys are in a strict order in which any two that are not below
/// one another count as equal: no key is below one that is below it, and a
/// key below another is below any third key or has that third key below
/// the other.
pub proof fn lemma_below_is_an_order(a: Key, b: Key, c: Key)
    ensures
        !(below(a, b) && below(b, a)),
        below(a, c) ==> below(a, b) || below(b, c),
{
    if let (Key::Text(x), Key::Text(y)) = (a, b) {
        lemma_lex_below_is_total(x, y);
        if let Key::Text(z) = c {
            if lex_below(x, z) && !lex_below(x, y) {
                if lex_below(y, x) {
                    lemma_lex_below_is_transitive(y, x, z);
                }
            }
        }
    }
}

/// Whether the bytes `a` come before the bytes `b`.
fn bytes_below(a: &[u8], b: &[u8]) -> (before: bool)
    ensures
        before == lex_below(a@, b@),
{
    let mut i: usize = 0;
    assert(a@.skip(0) =~= a@ && b@.skip(0) =~= b@);
    while i < a.len() && i < b.len()
        invariant
            i <= a.len(),
            i <= b.len(),
            lex_below(a@, b@) == lex_below(a@.skip(i as int), b@.skip(i as int)),
        decreases a.len() - i,
    {
        proof {
            assert(a@.skip(i as int)[0] == a@[i as int]);
            assert(b@.skip(i as int)[0] == b@[i as int]);
            assert(a@.skip(i as int).drop_first() =~= a@.skip(i + 1));
            assert(b@.skip(i as int).drop_first() =~= b@.skip(i + 1));
        }
        if a[i] != b[i] {
            return a[i] < b[i];
        }
        i += 1;
    }
    i < b.len()
}

impl<'a> SortKey<'a> {
    /// Whether a request with this key must come before one with the key
    /// `other`.
    pub fn precedes(&self, other: &SortKey, order: Order) -> (before: bool)
        ensures
            before == precedes(self@, other@, order),
    {
        match order {
            Order::Asc => self.below(other),
            Order::Desc => other.below(self),
        }
    }

    /// Whether this key is below the key `other`.
    pub fn below(&self, other: &SortKey) -> (lower: bool)
        ensures
            lower == below(self@, other@),
    {
        match (self, other) {
            (SortKey::Absent, SortKey::Absent) => false,
            (SortKey::Absent, _) => true,
            (SortKey::Number(x), SortKey::Number(y)) => *x < *y,
            (SortKey::Number(_), SortKey::Text(_)) => true,
            (SortKey::Text(x), SortKey::Text(y)) => bytes_below(x.as_bytes(), y.as_bytes()),
            _ => false,
        }
    }
}

/// A request with the key `a` must come before one with the key `b`.
pub open spec fn precedes(a: Key, b: Key, order: Order) -> bool {
    match order {
        Order::Asc => below(a, b),
        Order::Desc => below(b, a),
    }
}

/// In either direction the keys are in a strict order in which any two
/// that need not come before one another count as equal.
pub proof fn lemma_precedes_is_an_order(a: Key, b: Key, c: Key, order: Order)
    ensures
        !(precedes(a, b, order) && precedes(b, a, order)),
        precedes(a, c, order) ==> precedes(a, b, order) || precedes(b, c, order),
{
    lemma_below_is_an_order(a, b, c);
    lemma_below_is_an_order(c, b, a);
}

/// `sorted` with `x` put in: behind the requests at its front that must
/// come before `x`, and in front of the rest.
pub open spec fn place(
    x: WalkRequestView,
    sorted: Seq<WalkRequestView>,
    field: SortField,
    order: Order,
) -> Seq<WalkRequestView>
    decreases sorted.len(),
{
    if sorted.len() > 0 && precedes(field.key(sorted.first()), field.key(x), order) {
        seq![sorted.first()] + place(x, sorted.drop_first(), field, order)
    } else {
        seq![x] + sorted
    }
}

/// `requests` in the order that `field` and `order` give; requests that
/// these do not tell apart stay in the order in which they came.
pub open spec fn sorted(requests: Seq<WalkRequestView>, field: SortField, order: Order) -> Seq<
    WalkRequestView,
>
    decreases requests.len(),
{
    if requests.len() == 0 {
        requests
    } else {
        place(requests.first(), sorted(requests.drop_first(), field, order), field, order)
    }
}

/// No request of `requests` stands behind one that it must come before.
pub open spec fn ordered(requests: Seq<WalkRequestView>, field: SortField, order: Order) -> bool {
    forall|i: int, j: int|
        0 <= i < j < requests.len() ==> !precedes(
            field.key(#[trigger] requests[j]),
            field.key(#[trigger] requests[i]),
            order,
        )
}

/// Where `x` goes in `sorted`: the number of requests at its front that
/// must come before `x`.
proof fn lemma_place_is_insert(
    x: WalkRequestView,
    sorted: Seq<WalkRequestView>,
    field: SortField,
    order: Order,
    at: int,
)
    requires
        0 <= at <= sorted.len(),
        forall|i: int| 0 <= i < at ==> precedes(field.key(#[trigger] sorted[i]), field.key(x), order),
        at < sorted.len() ==> !precedes(field.key(sorted[at]), field.key(x), order),
    ensures
        place(x, sorted, field, order) == sorted.insert(at, x),
    decreases sorted.len(),
{
    if at == 0 {
        assert(sorted.insert(0, x) =~= seq![x] + sorted);
    } else {
        let rest = sorted.drop_first();
        assert forall|i: int| 0 <= i < at - 1 implies precedes(
            field.key(#[trigger] rest[i]),
            field.key(x),
            order,
        ) by {
            assert(rest[i] == sorted[i + 1]);
        }
        if at < sorted.len() {
            assert(rest[at - 1] == sorted[at]);
        }
        lemma_place_is_insert(x, rest, field, order, at - 1);
        assert(sorted.insert(at, x) =~= seq![sorted.first()] + rest.insert(at - 1, x));
    }
}

/// Putting a request into an ordered sequence leaves it ordered, and adds
/// that request and no other.
pub proof fn lemma_place(x: WalkRequestView, seq: Seq<WalkRequestView>, field: SortField, order: Order)
    ensures
        place(x, seq, field, order).len() == seq.len() + 1,
        place(x, seq, field, order).to_multiset() == seq.to_multiset().insert(x),
        ordered(seq, field, order) ==> ordered(place(x, seq, field, order), field, order),
    decreases seq.len(),
{
    broadcast use vstd::seq_lib::group_to_multiset_ensures;

    let placed = place(x, seq, field, order);
    if seq.len() > 0 && precedes(field.key(seq.first()), field.key(x), order) {
        let rest = seq.drop_first();
        lemma_place(x, rest, field, order);
        let tail = place(x, rest, field, order);
        assert(seq =~= seq![seq.first()] + rest);
        vstd::seq_lib::lemma_multiset_commutative(seq![seq.first()], rest);
        vstd::seq_lib::lemma_multiset_commutative(seq![seq.first()], tail);
        assert(placed.to_multiset() =~= seq.to_multiset().insert(x));
        if ordered(seq, field, order) {
            assert(ordered(rest, field, order)) by {
                assert forall|i: int, j: int| 0 <= i < j < rest.len() implies !precedes(
                    field.key(#[trigger] rest[j]),
                    field.key(#[trigger] rest[i]),
                    order,
                ) by {
                    assert(rest[i] == seq[i + 1] && rest[j] == seq[j + 1]);
                }
            }
            assert forall|i: int, j: int| 0 <= i < j < placed.len() implies !precedes(
                field.key(#[trigger] placed[j]),
                field.key(#[trigger] placed[i]),
                order,
            ) by {
                if i == 0 {
                    // Whatever stands behind the first request is `x` or
                    // was behind it before.
                    lemma_precedes_is_an_order(
                        field.key(seq.first()),
                        field.key(x),
                        field.key(x),
                        order,
                    );
                    assert(placed[j] == tail[j - 1]);
                    assert(tail.to_multiset().count(tail[j - 1]) > 0) by {
                        tail.to_multiset_ensures();
                        assert(tail.contains(tail[j - 1]));
                    }
                    if tail[j - 1] != x {
                        assert(rest.to_multiset().count(tail[j - 1]) > 0);
                        rest.to_multiset_ensures();
                        assert(rest.contains(tail[j - 1]));
                        let k = choose|k: int| 0 <= k < rest.len() && rest[k] == tail[j - 1];
                        assert(seq[k + 1] == rest[k]);
                    }
                } else {
                    assert(placed[i] == tail[i - 1] && placed[j] == tail[j - 1]);
                }
            }
        }
    } else {
        assert(placed =~= seq![x] + seq);
        vstd::seq_lib::lemma_multiset_commutative(seq![x], seq);
        assert(seq![x].to_multiset() =~= Multiset::<WalkRequestView>::empty().insert(x)) by {
            assert(seq![x] =~= Seq::<WalkRequestView>::empty().push(x));
        }
        assert(placed.to_multiset() =~= seq.to_multiset().insert(x));
        if ordered(seq, field, order) {
            assert forall|i: int, j: int| 0 <= i < j < placed.len() implies !precedes(
                field.key(#[trigger] placed[j]),
                field.key(#[trigger] placed[i]),
                order,
            ) by {
                if i == 0 {
                    assert(placed[j] == seq[j - 1]);
                    if j > 1 {
                        assert(!precedes(field.key(seq[j - 1]), field.key(seq[0]), order));
                        lemma_precedes_is_an_order(
                            field.key(seq[j - 1]),
                            field.key(seq[0]),
                            field.key(x),
                            order,
                        );
                    }
                } else {
                    assert(placed[i] == seq[i - 1] && placed[j] == seq[j - 1]);
                }
            }
        }
    }
}

/// Two sequences that hold the same requests equally often have the same
/// members.
proof fn lemma_same_members(a: Seq<WalkRequestView>, b: Seq<WalkRequestView>)
    ensures
        a.to_multiset() == b.to_multiset() ==> forall|x: WalkRequestView|
            a.contains(x) <==> b.contains(x),
{
    a.to_multiset_ensures();
    b.to_multiset_ensures();
    if a.to_multiset() == b.to_multiset() {
        assert forall|x: WalkRequestView| a.contains(x) <==> b.contains(x) by {
            assert(a.contains(x) <==> a.to_multiset().count(x) > 0);
            assert(b.contains(x) <==> b.to_multiset().count(x) > 0);
        }
    }
}

/// A sorted result holds the requests that were to be sorted, each as
/// often as before, and none of them stands behind one that it must come
/// before.
pub proof fn lemma_sorted(requests: Seq<WalkRequestView>, field: SortField, order: Order)
    ensures
        sorted(requests, field, order).len() == requests.len(),
        sorted(requests, field, order).to_multiset() == requests.to_multiset(),
        forall|x: WalkRequestView|
            sorted(requests, field, order).contains(x) <==> requests.contains(x),
        ordered(sorted(requests, field, order), field, order),
    decreases requests.len(),
{
    lemma_same_members(sorted(requests, field, order), requests);
    if requests.len() > 0 {
        let rest = requests.drop_first();
        lemma_sorted(rest, field, order);
        lemma_place(requests.first(), sorted(rest, field, order), field, order);
        assert(requests =~= seq![requests.first()] + rest);
        vstd::seq_lib::lemma_multiset_commutative(seq![requests.first()], rest);
        assert(seq![requests.first()].to_multiset() =~= Multiset::<WalkRequestView>::empty().insert(
            requests.first(),
        )) by {
            broadcast use vstd::seq_lib::group_to_multiset_ensures;

            assert(seq![requests.first()] =~= Seq::<WalkRequestView>::empty().push(
                requests.first(),
            ));
        }
        assert(sorted(requests, field, order).to_multiset() =~= requests.to_multiset());
    }
}

/// The keys `a` and `b` need not come before one another.
pub open spec fn same_rank(a: Key, b: Key) -> bool {
    !below(a, b) && !below(b, a)
}

/// The requests of `requests` whose key is of the rank of `key`, in their
/// order.
pub open spec fn of_rank(requests: Seq<WalkRequestView>, field: SortField, key: Key) -> Seq<
    WalkRequestView,
> {
    requests.filter(|r: WalkRequestView| same_rank(field.key(r), key))
}

/// What is of a rank in a sequence of one request.
proof fn lemma_of_rank_one(x: WalkRequestView, field: SortField, key: Key)
    ensures
        of_rank(seq![x], field, key) == if same_rank(field.key(x), key) {
            seq![x]
        } else {
            Seq::empty()
        },
{
    reveal_with_fuel(Seq::filter, 2);
    assert(seq![x].drop_last() =~= Seq::<WalkRequestView>::empty());
    assert(seq![x].last() == x);
    assert(of_rank(seq![x], field, key) =~= if same_rank(field.key(x), key) {
        seq![x]
    } else {
        Seq::empty()
    });
}

/// Putting a request into a sequence, before which it came, leaves the
/// requests of each rank in their order.
proof fn lemma_place_is_stable(
    x: WalkRequestView,
    seq: Seq<WalkRequestView>,
    field: SortField,
    order: Order,
    key: Key,
)
    ensures
        of_rank(place(x, seq, field, order), field, key) == of_rank(seq![x] + seq, field, key),
    decreases seq.len(),
{
    let of_key = |r: WalkRequestView| same_rank(field.key(r), key);
    if seq.len() > 0 && precedes(field.key(seq.first()), field.key(x), order) {
        let first = seq.first();
        let rest = seq.drop_first();
        lemma_place_is_stable(x, rest, field, order, key);
        lemma_of_rank_one(first, field, key);
        lemma_of_rank_one(x, field, key);
        Seq::filter_distributes_over_add(seq![first], place(x, rest, field, order), of_key);
        Seq::filter_distributes_over_add(seq![x], rest, of_key);
        Seq::filter_distributes_over_add(seq![x], seq, of_key);
        Seq::filter_distributes_over_add(seq![first], rest, of_key);
        assert(seq =~= seq![first] + rest);
        // A request that must come before another is not of its rank.
        lemma_below_is_an_order(field.key(first), key, field.key(x));
        lemma_below_is_an_order(field.key(x), key, field.key(first));
        assert(!(same_rank(field.key(first), key) && same_rank(field.key(x), key)));
        assert(of_rank(place(x, seq, field, order), field, key) =~= of_rank(
            seq![x] + seq,
            field,
            key,
        ));
    }
}

/// Sorting is stable: the requests of each rank, which the field does not
/// tell apart, stay in the order in which they came.
pub proof fn lemma_sorted_is_stable(
    requests: Seq<WalkRequestView>,
    field: SortField,
    order: Order,
    key: Key,
)
    ensures
        of_rank(sorted(requests, field, order), field, key) == of_rank(requests, field, key),
    decreases requests.len(),
{
    let of_key = |r: WalkRequestView| same_rank(field.key(r), key);
    if requests.len() > 0 {
        let x = requests.first();
        let rest = requests.drop_first();
        lemma_sorted_is_stable(rest, field, order, key);
        lemma_place_is_stable(x, sorted(rest, field, order), field, order, key);
        Seq::filter_distributes_over_add(seq![x], sorted(rest, field, order), of_key);
        Seq::filter_distributes_over_add(seq![x], rest, of_key);
        assert(requests =~= seq![x] + rest);
    }
}

/// Orders `requests` by `field` in the direction `order`.
pub fn sort_requests(requests: Vec<WalkRequest>, field: SortField, order: Order) -> (result: Vec<
    WalkRequest,
>)
    ensures
        views(result@) == sorted(views(requests@), field, order),
{
    let mut pending = requests;
    let ghost all = views(pending@);
    let mut result: Vec<WalkRequest> = Vec::new();
    assert(all.skip(all.len() as int) =~= Seq::<WalkRequestView>::empty());
    assert(views(result@) =~= Seq::<WalkRequestView>::empty());
    while pending.len() > 0
        invariant
            pending.len() <= all.len(),
            views(pending@) == all.take(pending.len() as int),
            views(result@) == sorted(all.skip(pending.len() as int), field, order),
        decreases pending.len(),
    {
        let ghost before = views(pending@);
        let ghost done = views(result@);
        let popped = pending.pop();
        let x = popped.unwrap();
        assert(x@ == all[pending.len() as int]) by {
            assert(before[before.len() - 1] == x@);
        }
        let key = field.key_of(&x);
        let mut at: usize = 0;
        while at < result.len() && field.key_of(&result[at]).precedes(&key, order)
            invariant
                at <= result.len(),
                views(result@) == done,
                key@ == field.key(x@),
                forall|i: int|
                    0 <= i < at ==> precedes(field.key(#[trigger] done[i]), field.key(x@), order),
            decreases result.len() - at,
        {
            assert(done[at as int] == result@[at as int]@);
            at += 1;
        }
        proof {
            if at < result.len() {
                assert(done[at as int] == result@[at as int]@);
            }
            lemma_place_is_insert(x@, done, field, order, at as int);
            let tail = all.skip(pending.len() as int);
            assert(tail.first() == x@);
            assert(tail.drop_first() =~= all.skip(pending.len() as int + 1));
        }
        result.insert(at, x);
        assert(views(result@) =~= done.insert(at as int, x@));
        assert(views(pending@) =~= all.take(pending.len() as int));
    }
    assert(all.skip(0) =~= all);
    result
}

} // verus!
