//! Which sites of the coverage map an input reached.

use vstd::prelude::*;

use super::metadata::SancovIndexesMetadata;

verus! {

/// The indexes at which the coverage map differs from its initial value.
pub open spec fn reached(map: Seq<u8>, initial: u8) -> Seq<usize>
    decreases map.len(),
{
    if map.len() == 0 {
        Seq::empty()
    } else if map.last() != initial {
        reached(map.drop_last(), initial).push((map.len() - 1) as usize)
    } else {
        reached(map.drop_last(), initial)
    }
}

/// Every reached site is listed once, in ascending order, and no other.
pub proof fn reached_are_listed(map: Seq<u8>, initial: u8)
    requires
        map.len() <= usize::MAX,
    ensures
        forall|i: int|
            0 <= i < map.len() ==> (reached(map, initial).contains(i as usize) <==> #[trigger] map[i]
                != initial),
        forall|k: int|
            0 <= k < reached(map, initial).len() ==> #[trigger] reached(map, initial)[k]
                < map.len(),
        forall|j: int, k: int|
            0 <= j < k < reached(map, initial).len() ==> reached(map, initial)[j] < reached(
                map,
                initial,
            )[k],
    decreases map.len(),
{
    if map.len() > 0 {
        let front = map.drop_last();
        reached_are_listed(front, initial);
        let before = reached(front, initial);
        let all = reached(map, initial);
        let last = (map.len() - 1) as usize;
        assert(!before.contains(last)) by {
            if before.contains(last) {
                let k = choose|k: int| 0 <= k < before.len() && before[k] == last;
                assert(before[k] < front.len());
            }
        }
        assert forall|i: int| 0 <= i < map.len() implies (all.contains(i as usize)
            <==> #[trigger] map[i] != initial) by {
            if map.last() != initial {
                assert(all == before.push(last));
                assert(all[before.len() as int] == last);
                if i < front.len() {
                    assert(front[i] == map[i]);
                    if before.contains(i as usize) {
                        let k = choose|k: int| 0 <= k < before.len() && before[k] == i as usize;
                        assert(all[k] == i as usize);
                    }
                    if all.contains(i as usize) {
                        let k = choose|k: int| 0 <= k < all.len() && all[k] == i as usize;
                        assert(k < before.len());
                        assert(before[k] == i as usize);
                    }
                }
            } else {
                assert(all == before);
                if i < front.len() {
                    assert(front[i] == map[i]);
                }
            }
        }
    }
}

/// The indexes at which the coverage map differs from its initial value.
pub fn reached_indexes(map: &Vec<u8>, initial: u8) -> (r: Vec<usize>)
    ensures
        r@ == reached(map@, initial),
{
    let mut r: Vec<usize> = Vec::new();
    let mut i: usize = 0;
    while i < map.len()
        invariant
            i <= map@.len(),
            r@ == reached(map@.take(i as int), initial),
        decreases map@.len() - i,
    {
        assert(map@.take(i + 1).drop_last() =~= map@.take(i as int));
        if map[i] != initial {
            r.push(i);
        }
        i = i + 1;
    }
    assert(map@.take(map@.len() as int) =~= map@);
    r
}

/// The indexes that a testcase keeps.
pub open spec fn list_of(meta: Option<SancovIndexesMetadata>) -> Option<Seq<usize>> {
    match meta {
        Some(m) => Some(m.list@),
        None => None,
    }
}

/// The indexes that a testcase keeps once a run has been looked at: those of the run, unless it
/// reached nothing.
pub open spec fn noted(before: Option<Seq<usize>>, map: Seq<u8>, initial: u8) -> Option<
    Seq<usize>,
> {
    if reached(map, initial).len() > 0 {
        Some(reached(map, initial))
    } else {
        before
    }
}

/// Notes with a testcase which sites its run reached, unless it reached none.
pub fn note_indexes(meta: &mut Option<SancovIndexesMetadata>, map: &Vec<u8>, initial: u8)
    ensures
        list_of(*final(meta)) == noted(list_of(*old(meta)), map@, initial),
{
    let idx: Vec<usize> = reached_indexes(map, initial);
    if idx.len() > 0 {
        *meta = Some(SancovIndexesMetadata::new(idx));
    }
}

/// Notes with a testcase which sites its run reached, unless it reached none, and gives the share
/// to report: how many sites the testcase keeps, of how many there are.
pub fn append_metadata(meta: &mut Option<SancovIndexesMetadata>, map: &Vec<u8>, initial: u8) -> (r:
    (u64, u64))
    ensures
        list_of(*final(meta)) == noted(list_of(*old(meta)), map@, initial),
        r.0 == (match list_of(*final(meta)) {
            Some(list) => list.len(),
            None => 0,
        }),
        r.1 == map@.len(),
{
    note_indexes(meta, map, initial);
    let n: usize = match &*meta {
        Some(m) => m.list.len(),
        None => 0,
    };
    (n as u64, map.len() as u64)
}

/// A run that reached anything replaces what is noted by the sites that it reached; a run that reached
/// nothing leaves it as it was.
pub proof fn reached_sites_are_noted(before: Option<Seq<usize>>, map: Seq<u8>, initial: u8)
    requires
        map.len() <= usize::MAX,
    ensures
        (exists|i: int| 0 <= i < map.len() && #[trigger] map[i] != initial) ==> noted(
            before,
            map,
            initial,
        ) is Some && forall|i: int|
            0 <= i < map.len() ==> ((noted(before, map, initial)->0).contains(i as usize)
                <==> #[trigger] map[i] != initial),
        (forall|i: int| 0 <= i < map.len() ==> #[trigger] map[i] == initial) ==> noted(
            before,
            map,
            initial,
        ) == before,
{
    reached_are_listed(map, initial);
    if exists|i: int| 0 <= i < map.len() && #[trigger] map[i] != initial {
        let i = choose|i: int| 0 <= i < map.len() && #[trigger] map[i] != initial;
        assert(reached(map, initial).contains(i as usize));
    } else if reached(map, initial).len() > 0 {
        let x = reached(map, initial)[0];
        assert(reached(map, initial).contains(x));
        assert(map[x as int] == initial);
    }
}

/// What is told of a run is how many sites are noted and how many there are.
pub proof fn noted_sites_are_counted(
    meta: &mut Option<SancovIndexesMetadata>,
    map: Vec<u8>,
    initial: u8,
    r: (u64, u64),
)
    requires
        call_ensures(append_metadata, (meta, &map, initial), r),
    ensures
        r.1 == map@.len(),
        *final(meta) is None ==> r.0 == 0,
        *final(meta) matches Some(m) ==> r.0 == m.list@.len(),
        (forall|i: int| 0 <= i < map@.len() ==> #[trigger] map@[i] == initial) && map@.len()
            <= usize::MAX ==> list_of(*final(meta)) == list_of(*old(meta)),
{
    if map@.len() <= usize::MAX {
        reached_sites_are_noted(list_of(*old(meta)), map@, initial);
    }
}

} // verus!
