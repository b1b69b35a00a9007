use vstd::prelude::*;

verus! {

/// Items ordered by an integer key.
pub trait Keyed {
    spec fn key_of(&self) -> i128;

    fn key(&self) -> (k: i128)
        ensures
            k == self.key_of(),
    ;
}

/// The positions of the items in order of falling key; items with equal keys keep their
/// order.
pub open spec fn by_key(keys: Seq<i128>) -> Seq<int>
    decreases keys.len(),
{
    if keys.len() == 0 {
        Seq::empty()
    } else {
        let rest = by_key(keys.drop_last());
        insert_by_key(rest, keys, (keys.len() - 1) as int)
    }
}

/// Inserts item `i` into an order of falling key, after every item with a key at least as
/// high.
pub open spec fn insert_by_key(order: Seq<int>, keys: Seq<i128>, i: int) -> Seq<int> {
    let pos = insert_position(order, keys, i, order.len() as int);
    order.subrange(0, pos).push(i) + order.subrange(pos, order.len() as int)
}

/// The position before which item `i` goes: just after the last item among the first `upto`
/// whose key is at least item `i`'s.
pub open spec fn insert_position(order: Seq<int>, keys: Seq<i128>, i: int, upto: int) -> int
    decreases upto,
{
    if upto <= 0 {
        0
    } else if keys[order[upto - 1]] >= keys[i] {
        upto
    } else {
        insert_position(order, keys, i, upto - 1)
    }
}

pub open spec fn keys_of<T: Keyed>(items: Seq<T>) -> Seq<i128> {
    items.map_values(|t: T| t.key_of())
}

/// The items in order of falling key, equal keys in the order they came in: each item taken
/// once, in the order `by_key` gives (see `law_sort_is_stable_and_falling` for the direct
/// statement of these properties).
pub open spec fn sorted_desc<T: Keyed>(items: Seq<T>) -> Seq<T> {
    by_key(keys_of(items)).map_values(|k: int| items[k])
}

proof fn lemma_insert_position(order: Seq<int>, keys: Seq<i128>, i: int, upto: int)
    requires
        0 <= upto <= order.len(),
    ensures
        0 <= insert_position(order, keys, i, upto) <= upto,
    decreases upto,
{
    if upto > 0 && !(keys[order[upto - 1]] >= keys[i]) {
        lemma_insert_position(order, keys, i, upto - 1);
    }
}

pub proof fn lemma_by_key_indices(keys: Seq<i128>)
    ensures
        by_key(keys).len() == keys.len(),
        forall|k: int| 0 <= k < keys.len() ==> 0 <= #[trigger] by_key(keys)[k] < keys.len(),
    decreases keys.len(),
{
    if keys.len() > 0 {
        let prev = keys.drop_last();
        lemma_by_key_indices(prev);
        let rest = by_key(prev);
        let i = (keys.len() - 1) as int;
        lemma_insert_position(rest, keys, i, rest.len() as int);
        let pos = insert_position(rest, keys, i, rest.len() as int);
        let r = rest.subrange(0, pos).push(i) + rest.subrange(pos, rest.len() as int);
        assert forall|k: int| 0 <= k < keys.len() implies 0 <= #[trigger] by_key(keys)[k] < keys.len() by {
            assert(by_key(keys) == r);
            if k < pos {
                assert(r[k] == rest[k]);
            } else if k > pos {
                assert(r[k] == rest[k - 1]);
            }
        }
    }
}

pub proof fn lemma_sorted_len<T: Keyed>(items: Seq<T>)
    ensures
        sorted_desc(items).len() == items.len(),
{
    lemma_by_key_indices(keys_of(items));
}

/// Sorts items by falling key; items with equal keys keep their order.
pub fn sort_desc_by_key<T: Keyed>(items: Vec<T>) -> (r: Vec<T>)
    ensures
        r@ == sorted_desc(items@),
        r@.len() == items@.len(),
        forall|a: int, b: int| 0 <= a < b < r@.len() ==> (#[trigger] r@[a]).key_of() >= (#[trigger] r@[b]).key_of(),
{
    proof {
        law_sort_is_stable_and_falling(items@);
    }
    let ghost all = items@;
    let ghost keys = keys_of(all);
    proof {
        lemma_by_key_indices(keys);
    }
    let mut rest = items;
    let mut out: Vec<T> = Vec::new();
    let mut taken: usize = 0;
    assert(all.len() == rest.len());
    while rest.len() > 0
        invariant
            taken + rest@.len() == all.len(),
            all.len() <= usize::MAX,
            rest@ == all.skip(taken as int),
            keys == keys_of(all),
            out@ == by_key(keys.take(taken as int)).map_values(|k: int| all[k]),
            forall|k: int| 0 <= k < out@.len() ==> (#[trigger] out@[k]).key_of() == keys[by_key(keys.take(taken as int))[k]],
        decreases rest@.len(),
    {
        let ghost pre = keys.take(taken as int);
        let ghost order = by_key(pre);
        proof {
            lemma_by_key_indices(pre);
        }
        let next = rest.remove(0);
        assert(next == all[taken as int]);
        let next_key = next.key();
        let ghost now_keys = keys.take(taken + 1);
        assert(now_keys.drop_last() =~= pre);
        let ghost i = taken as int;
        let mut pos: usize = out.len();
        while pos > 0 && out[pos - 1].key() < next_key
            invariant
                pos <= out@.len(),
                out@.len() == order.len(),
                forall|k: int| 0 <= k < out@.len() ==> (#[trigger] out@[k]).key_of() == keys[order[k]],
                now_keys[i] == next_key,
                insert_position(order, now_keys, i, order.len() as int) == insert_position(
                    order,
                    now_keys,
                    i,
                    pos as int,
                ),
                forall|k: int| 0 <= k < order.len() ==> 0 <= #[trigger] order[k] < taken,
                now_keys == keys.take(taken + 1),
                taken < keys.len(),
            decreases pos,
        {
            assert(now_keys[order[pos - 1]] == keys[order[pos - 1]]);
            pos = pos - 1;
        }
        proof {
            if pos > 0 {
                assert(now_keys[order[pos - 1]] == keys[order[pos - 1]]);
            }
            lemma_insert_position(order, now_keys, i, order.len() as int);
        }
        let ghost old_out = out@;
        out.insert(pos, next);
        let ghost new_order = by_key(now_keys);
        assert(new_order == order.subrange(0, pos as int).push(i) + order.subrange(pos as int, order.len() as int));
        proof {
            assert forall|k: int| 0 <= k < out@.len() implies out@[k] == all[new_order[k]] && (#[trigger] out@[k]).key_of()
                == keys[new_order[k]] by {
                if k < pos {
                    assert(out@[k] == old_out[k]);
                    assert(new_order[k] == order[k]);
                } else if k == pos {
                    assert(new_order[k] == i);
                } else {
                    assert(out@[k] == old_out[k - 1]);
                    assert(new_order[k] == order[k - 1]);
                }
            }
            lemma_by_key_indices(now_keys);
            assert(out@ =~= new_order.map_values(|k: int| all[k]));
        }
        taken = taken + 1;
        assert(rest@ =~= all.skip(taken as int));
    }
    assert(keys.take(taken as int) =~= keys);
    out
}

} // verus!

verus! {

/// Whether an order of positions puts the keys in falling order.
pub open spec fn falling_order(order: Seq<int>, keys: Seq<i128>) -> bool {
    forall|a: int, b: int| 0 <= a < b < order.len() ==> keys[#[trigger] order[a]] >= keys[#[trigger] order[b]]
}

/// Whether an order keeps positions with equal keys in the order they came in.
pub open spec fn stable_order(order: Seq<int>, keys: Seq<i128>) -> bool {
    forall|a: int, b: int|
        0 <= a < b < order.len() && keys[#[trigger] order[a]] == keys[#[trigger] order[b]] ==> order[a] < order[b]
}

/// Whether an order holds each of the positions `0..n` exactly once.
pub open spec fn permutation_of_range(order: Seq<int>, n: int) -> bool {
    &&& order.len() == n
    &&& forall|k: int| 0 <= k < n ==> 0 <= #[trigger] order[k] < n
    &&& forall|a: int, b: int| 0 <= a < b < n ==> #[trigger] order[a] != #[trigger] order[b]
}

proof fn lemma_insert_position_facts(order: Seq<int>, keys: Seq<i128>, i: int, upto: int)
    requires
        0 <= upto <= order.len(),
    ensures
        forall|q: int| insert_position(order, keys, i, upto) <= q < upto ==> keys[#[trigger] order[q]] < keys[i],
        insert_position(order, keys, i, upto) > 0 ==> keys[order[insert_position(order, keys, i, upto) - 1]]
            >= keys[i],
    decreases upto,
{
    if upto > 0 && !(keys[order[upto - 1]] >= keys[i]) {
        lemma_insert_position_facts(order, keys, i, upto - 1);
    }
}

proof fn lemma_by_key_order(keys: Seq<i128>)
    ensures
        permutation_of_range(by_key(keys), keys.len() as int),
        falling_order(by_key(keys), keys),
        stable_order(by_key(keys), keys),
    decreases keys.len(),
{
    if keys.len() > 0 {
        let n = keys.len() as int;
        let prev = keys.drop_last();
        lemma_by_key_order(prev);
        lemma_by_key_indices(prev);
        let rest = by_key(prev);
        let i = n - 1;
        lemma_insert_position(rest, keys, i, rest.len() as int);
        lemma_insert_position_facts(rest, keys, i, rest.len() as int);
        let pos = insert_position(rest, keys, i, rest.len() as int);
        let r = rest.subrange(0, pos).push(i) + rest.subrange(pos, rest.len() as int);
        assert(by_key(keys) == r);
        assert forall|k: int| 0 <= k < rest.len() implies #[trigger] keys[rest[k]] == prev[rest[k]] by {
            assert(0 <= rest[k] < n - 1);
        }
        assert forall|k: int| 0 <= k < r.len() implies #[trigger] r[k] == (if k < pos {
            rest[k]
        } else if k == pos {
            i
        } else {
            rest[k - 1]
        }) by {}
        assert forall|a: int, b: int| 0 <= a < b < r.len() implies keys[#[trigger] r[a]] >= keys[#[trigger] r[b]] by {
            if b < pos {
                assert(prev[rest[a]] >= prev[rest[b]]);
                assert(keys[rest[a]] == prev[rest[a]] && keys[rest[b]] == prev[rest[b]]);
            } else if b == pos {
                if a < pos - 1 {
                    assert(prev[rest[a]] >= prev[rest[pos - 1]]);
                    assert(keys[rest[a]] == prev[rest[a]] && keys[rest[pos - 1]] == prev[rest[pos - 1]]);
                }
            } else if a < pos {
                assert(prev[rest[a]] >= prev[rest[b - 1]]);
                assert(keys[rest[a]] == prev[rest[a]] && keys[rest[b - 1]] == prev[rest[b - 1]]);
            } else if a == pos {
                assert(keys[rest[b - 1]] < keys[i]);
            } else {
                assert(prev[rest[a - 1]] >= prev[rest[b - 1]]);
                assert(keys[rest[a - 1]] == prev[rest[a - 1]] && keys[rest[b - 1]] == prev[rest[b - 1]]);
            }
        }
        assert forall|a: int, b: int|
            0 <= a < b < r.len() && keys[#[trigger] r[a]] == keys[#[trigger] r[b]] implies r[a] < r[b] by {
            if b < pos {
                assert(keys[rest[a]] == prev[rest[a]] && keys[rest[b]] == prev[rest[b]]);
                assert(prev[rest[a]] == prev[rest[b]]);
            } else if b == pos {
                assert(rest[a] < n - 1);
            } else if a < pos {
                assert(keys[rest[a]] == prev[rest[a]] && keys[rest[b - 1]] == prev[rest[b - 1]]);
                assert(prev[rest[a]] == prev[rest[b - 1]]);
            } else if a == pos {
                assert(keys[rest[b - 1]] < keys[i]);
            } else {
                assert(keys[rest[a - 1]] == prev[rest[a - 1]] && keys[rest[b - 1]] == prev[rest[b - 1]]);
                assert(prev[rest[a - 1]] == prev[rest[b - 1]]);
            }
        }
        assert forall|a: int, b: int| 0 <= a < b < n implies #[trigger] r[a] != #[trigger] r[b] by {
            if b < pos {
                assert(rest[a] != rest[b]);
            } else if b == pos {
                assert(rest[a] < n - 1);
            } else if a < pos {
                assert(rest[a] != rest[b - 1]);
            } else if a == pos {
                assert(rest[b - 1] < n - 1);
            } else {
                assert(rest[a - 1] != rest[b - 1]);
            }
        }
        assert forall|k: int| 0 <= k < n implies 0 <= #[trigger] r[k] < n by {
            if k < pos {
                assert(0 <= rest[k] < n - 1);
            } else if k > pos {
                assert(0 <= rest[k - 1] < n - 1);
            }
        }
    }
}

/// Sorting by falling key holds every item exactly once, puts the keys in falling order and
/// keeps items with equal keys in the order they came in.
pub proof fn law_sort_is_stable_and_falling<T: Keyed>(items: Seq<T>)
    ensures
        sorted_desc(items).len() == items.len(),
        permutation_of_range(by_key(keys_of(items)), items.len() as int),
        forall|k: int| 0 <= k < items.len() ==> #[trigger] sorted_desc(items)[k] == items[by_key(keys_of(items))[k]],
        forall|a: int, b: int|
            0 <= a < b < items.len() ==> (#[trigger] sorted_desc(items)[a]).key_of() >= (
            #[trigger] sorted_desc(items)[b]).key_of(),
        stable_order(by_key(keys_of(items)), keys_of(items)),
{
    let keys = keys_of(items);
    lemma_by_key_order(keys);
    lemma_by_key_indices(keys);
    let order = by_key(keys);
    assert forall|a: int, b: int| 0 <= a < b < items.len() implies (#[trigger] sorted_desc(items)[a]).key_of() >= (
    #[trigger] sorted_desc(items)[b]).key_of() by {
        assert(keys[order[a]] >= keys[order[b]]);
        assert(sorted_desc(items)[a] == items[order[a]]);
        assert(sorted_desc(items)[b] == items[order[b]]);
    }
}

} // verus!
