//! Work on byte strings and on lists of them.

use vstd::prelude::*;
use crate::table::Key;
use crate::types::Did;

verus! {

/// A copy of `did`.
pub fn clone_did(did: &Did) -> (copy: Did)
    ensures
        copy.deep_view() == did.deep_view(),
        copy@ == did@,
{
    let mut copy: Vec<u8> = Vec::new();
    let mut i: usize = 0;
    while i < did.len()
        invariant
            i <= did@.len(),
            copy@ == did@.take(i as int),
        decreases did@.len() - i,
    {
        copy.push(did[i]);
        assert(did@.take(i as int).push(did@[i as int]) =~= did@.take(i + 1));
        i += 1;
    }
    assert(did@.take(did@.len() as int) =~= did@);
    copy
}

/// A copy of `list`.
pub fn clone_dids(list: &Vec<Did>) -> (copy: Vec<Did>)
    ensures
        copy.deep_view() == list.deep_view(),
{
    let mut copy: Vec<Did> = Vec::new();
    let mut i: usize = 0;
    while i < list.len()
        invariant
            i <= list@.len(),
            copy@.len() == i,
            forall|j: int| 0 <= j < i ==> copy@[j].deep_view() == list@[j].deep_view(),
        decreases list@.len() - i,
    {
        copy.push(clone_did(&list[i]));
        i += 1;
    }
    assert(copy.deep_view() =~= list.deep_view());
    copy
}

/// The first place of `item` in `list`, where it occurs.
pub open spec fn first_index<A>(list: Seq<A>, item: A) -> int {
    choose|i: int|
        0 <= i < list.len() && list[i] == item && forall|j: int| 0 <= j < i ==> list[j] != item
}

/// `list` without the first occurrence of `item`.
pub open spec fn without_first<A>(list: Seq<A>, item: A) -> Seq<A> {
    if list.contains(item) {
        list.remove(first_index(list, item))
    } else {
        list
    }
}

/// The place `i` where `item` occurs first in `list` is its first index.
pub proof fn lemma_first_index<A>(list: Seq<A>, item: A, i: int)
    requires
        0 <= i < list.len(),
        list[i] == item,
        forall|j: int| 0 <= j < i ==> list[j] != item,
    ensures
        first_index(list, item) == i,
        list.contains(item),
{
    let k = first_index(list, item);
    assert(0 <= k < list.len() && list[k] == item && forall|j: int|
        0 <= j < k ==> list[j] != item);
    if k < i {
        assert(list[k] != item);
    } else if i < k {
        assert(list[i] != item);
    }
}

/// The first place of `item` in `list`.
pub fn index_of<K: Key>(list: &Vec<K>, item: &K) -> (r: Option<usize>)
    ensures
        match r {
            Some(i) => i < list@.len() && list.deep_view().contains(item.deep_view())
                && first_index(list.deep_view(), item.deep_view()) == i,
            None => !list.deep_view().contains(item.deep_view()),
        },
{
    let mut i: usize = 0;
    while i < list.len()
        invariant
            i <= list@.len(),
            forall|j: int| 0 <= j < i ==> list.deep_view()[j] != item.deep_view(),
        decreases list@.len() - i,
    {
        if list[i].same(item) {
            proof {
                lemma_first_index(list.deep_view(), item.deep_view(), i as int);
            }
            return Some(i);
        }
        i += 1;
    }
    None
}

/// Whether `item` is in `list`.
pub fn contains<K: Key>(list: &Vec<K>, item: &K) -> (b: bool)
    ensures
        b == list.deep_view().contains(item.deep_view()),
{
    index_of(list, item).is_some()
}

/// Takes the first occurrence of `item` out of `list`.
pub fn remove_first<K: Key>(list: &mut Vec<K>, item: &K)
    ensures
        final(list).deep_view() == without_first(old(list).deep_view(), item.deep_view()),
        final(list)@.len() <= old(list)@.len(),
{
    let ghost before = list.deep_view();
    match index_of(list, item) {
        Some(i) => {
            let _gone = list.remove(i);
            assert(list.deep_view() =~= before.remove(i as int));
        },
        None => {},
    }
}

/// Whether `needle` is among `bytes`.
pub fn contains_byte(bytes: &[u8], needle: u8) -> (found: bool)
    ensures
        found == bytes@.contains(needle),
{
    let mut i: usize = 0;
    while i < bytes.len()
        invariant
            i <= bytes@.len(),
            forall|j: int| 0 <= j < i ==> bytes@[j] != needle,
        decreases bytes@.len() - i,
    {
        if bytes[i] == needle {
            return true;
        }
        i += 1;
    }
    false
}

/// The sum of the bytes of `bytes`.
pub open spec fn byte_sum(bytes: Seq<u8>) -> int
    decreases bytes.len(),
{
    if bytes.len() == 0 {
        0
    } else {
        byte_sum(bytes.drop_last()) + bytes.last()
    }
}

/// Whether the bytes of `bytes` add up to an even number.
pub fn even_byte_sum(bytes: &[u8]) -> (even: bool)
    ensures
        even == (byte_sum(bytes@) % 2 == 0),
{
    let mut even = true;
    let mut i: usize = 0;
    while i < bytes.len()
        invariant
            i <= bytes@.len(),
            even == (byte_sum(bytes@.take(i as int)) % 2 == 0),
        decreases bytes@.len() - i,
    {
        assert(bytes@.take(i + 1).drop_last() =~= bytes@.take(i as int));
        if bytes[i] % 2 == 1 {
            even = !even;
        }
        i += 1;
    }
    assert(bytes@.take(bytes@.len() as int) =~= bytes@);
    even
}

} // verus!
