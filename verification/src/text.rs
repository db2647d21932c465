//! Strings as sequences of characters, and lists of them.

use vstd::prelude::*;

verus! {

/// What a list of strings holds, in order.
pub open spec fn texts(list: Seq<String>) -> Seq<Seq<char>> {
    list.map_values(|s: String| s@)
}

/// What an optional string holds.
pub open spec fn opt_text(value: Option<String>) -> Option<Seq<char>> {
    match value {
        Some(s) => Some(s@),
        None => None,
    }
}

/// What an optional list of strings holds.
pub open spec fn opt_texts(value: Option<Vec<String>>) -> Option<Seq<Seq<char>>> {
    match value {
        Some(list) => Some(texts(list@)),
        None => None,
    }
}

/// Whether `item` occurs in `list`.
pub fn contains_text(list: &Vec<String>, item: &String) -> (found: bool)
    ensures
        found == texts(list@).contains(item@),
{
    let mut i: usize = 0;
    while i < list.len()
        invariant
            i <= list.len(),
            forall|j: int| 0 <= j < i ==> texts(list@)[j] != item@,
        decreases list.len() - i,
    {
        if list[i] == *item {
            assert(texts(list@)[i as int] == item@);
            return true;
        }
        i += 1;
    }
    false
}

/// A copy of `list`.
pub fn copy_texts(list: &Vec<String>) -> (copy: Vec<String>)
    ensures
        copy@ == list@,
{
    let mut copy: Vec<String> = Vec::new();
    let mut i: usize = 0;
    while i < list.len()
        invariant
            i <= list.len(),
            copy@ == list@.take(i as int),
        decreases list.len() - i,
    {
        copy.push(list[i].clone());
        assert(copy@ == list@.take(i + 1));
        i += 1;
    }
    assert(list@.take(list.len() as int) == list@);
    copy
}

/// A copy of an optional string.
pub fn copy_opt_text(value: &Option<String>) -> (copy: Option<String>)
    ensures
        copy == *value,
{
    match value {
        Some(s) => Some(s.clone()),
        None => None,
    }
}

/// `list` without any occurrence of `item`, the rest in order.
pub open spec fn without(list: Seq<Seq<char>>, item: Seq<char>) -> Seq<Seq<char>> {
    list.filter(|x: Seq<char>| x != item)
}

/// `list` with `item` at its end, unless `item` occurs in it already.
pub open spec fn with_once(list: Seq<Seq<char>>, item: Seq<char>) -> Seq<Seq<char>> {
    if list.contains(item) {
        list
    } else {
        list.push(item)
    }
}

/// A copy of `list` without any occurrence of `item`.
pub fn remove_text(list: &Vec<String>, item: &String) -> (rest: Vec<String>)
    ensures
        texts(rest@) == without(texts(list@), item@),
{
    let mut rest: Vec<String> = Vec::new();
    let mut i: usize = 0;
    proof {
        reveal(Seq::filter);
        assert(texts(list@).take(0) =~= Seq::empty());
        assert(texts(rest@) =~= without(texts(list@).take(0), item@));
    }
    while i < list.len()
        invariant
            i <= list.len(),
            texts(rest@) == without(texts(list@).take(i as int), item@),
        decreases list.len() - i,
    {
        proof {
            let keep = |x: Seq<char>| x != item@;
            let before = texts(list@).take(i as int);
            before.lemma_filter_push(list@[i as int]@, keep);
            assert(before.push(list@[i as int]@) =~= texts(list@).take(i + 1));
        }
        if !(list[i] == *item) {
            let ghost kept = texts(rest@);
            rest.push(list[i].clone());
            assert(texts(rest@) =~= kept.push(list@[i as int]@));
        }
        i += 1;
    }
    assert(texts(list@).take(list.len() as int) =~= texts(list@));
    rest
}

/// A copy of `list` with `item` at its end, unless `item` occurs in it
/// already.
pub fn insert_text_once(list: &Vec<String>, item: &String) -> (grown: Vec<String>)
    ensures
        texts(grown@) == with_once(texts(list@), item@),
{
    let mut grown = copy_texts(list);
    if !contains_text(list, item) {
        grown.push(item.clone());
        assert(texts(grown@) =~= texts(list@).push(item@));
    }
    grown
}

} // verus!
