//! Lists of named entries: the order of names, and lists kept in that order as maps.

use vstd::prelude::*;

use crate::text;

verus! {

/// The names of the entries.
pub open spec fn names_of<V>(e: Seq<(String, V)>) -> Seq<Seq<char>> {
    Seq::new(e.len(), |i: int| e[i].0@)
}

/// `k` put into an order of positions, behind those whose name is not greater.
pub open spec fn insert_key(keys: Seq<Seq<char>>, order: Seq<int>, k: int) -> Seq<int>
    decreases order.len(),
{
    if order.len() == 0 || !text::lex_less(keys[k], keys[order.last()]) {
        order.push(k)
    } else {
        insert_key(keys, order.drop_last(), k).push(order.last())
    }
}

/// The first `n` positions in the order of their names; equal names stay as they came.
pub open spec fn key_order(keys: Seq<Seq<char>>, n: nat) -> Seq<int>
    decreases n,
{
    if n == 0 {
        Seq::empty()
    } else {
        insert_key(keys, key_order(keys, (n - 1) as nat), n - 1)
    }
}

/// The positions of the entries in the order of their names.
pub fn sorted_order<V>(e: &Vec<(String, V)>) -> (r: Vec<usize>)
    ensures
        r@.len() == e@.len(),
        key_order(names_of(e@), e@.len()).len() == e@.len(),
        forall|j: int| 0 <= j < r@.len() ==> 0 <= #[trigger] r@[j] < e@.len(),
        forall|j: int|
            0 <= j < r@.len() ==> #[trigger] r@[j] == key_order(names_of(e@), e@.len())[j],
{
    let ghost keys = names_of(e@);
    let mut order: Vec<usize> = Vec::new();
    let mut k: usize = 0;
    while k < e.len()
        invariant
            k <= e@.len(),
            keys == names_of(e@),
            order@.len() == k,
            key_order(keys, k as nat).len() == k,
            forall|j: int| 0 <= j < k ==> 0 <= #[trigger] order@[j] < k,
            forall|j: int| 0 <= j < k ==> #[trigger] order@[j] == key_order(keys, k as nat)[j],
        decreases e@.len() - k,
    {
        let ghost prior = key_order(keys, k as nat);
        let mut p: usize = order.len();
        proof {
            assert(prior.take(p as int) =~= prior);
            assert(insert_key(keys, prior, k as int) =~= insert_key(
                keys,
                prior.take(p as int),
                k as int,
            ) + prior.skip(p as int));
        }
        while p > 0 && text::str_less(e[k].0.as_str(), e[order[p - 1]].0.as_str())
            invariant
                p <= k < e@.len(),
                keys == names_of(e@),
                order@.len() == k,
                prior.len() == k,
                forall|j: int| 0 <= j < k ==> 0 <= #[trigger] order@[j] < k,
                forall|j: int| 0 <= j < k ==> #[trigger] order@[j] == prior[j],
                insert_key(keys, prior, k as int) == insert_key(
                    keys,
                    prior.take(p as int),
                    k as int,
                ) + prior.skip(p as int),
            decreases p,
        {
            proof {
                let head = prior.take(p as int);
                assert(head.last() == order@[p - 1]);
                assert(head.drop_last() =~= prior.take(p - 1));
                assert(insert_key(keys, prior.take(p - 1), k as int).push(head.last())
                    + prior.skip(p as int) =~= insert_key(keys, prior.take(p - 1), k as int)
                    + prior.skip(p - 1));
            }
            p -= 1;
        }
        proof {
            let head = prior.take(p as int);
            if p > 0 {
                assert(head.last() == order@[p - 1]);
            }
            assert(insert_key(keys, head, k as int) == head.push(k as int));
            assert(head.push(k as int) + prior.skip(p as int) =~= prior.insert(
                p as int,
                k as int,
            ));
        }
        order.insert(p, k);
        k += 1;
    }
    order
}

/// The names come in strictly increasing order, so no name occurs twice.
pub open spec fn sorted_names<V>(e: Seq<(String, V)>) -> bool {
    forall|i: int, j: int|
        0 <= i < j < e.len() ==> text::lex_less(#[trigger] e[i].0@, #[trigger] e[j].0@)
}

pub open spec fn is_at<V>(e: Seq<(String, V)>, name: Seq<char>, i: int) -> bool {
    0 <= i < e.len() && e[i].0@ == name
}

/// Some entry has the name.
pub open spec fn named<V>(e: Seq<(String, V)>, name: Seq<char>) -> bool {
    exists|i: int| is_at(e, name, i)
}

/// The entries as a map from names.
pub open spec fn map_of<V>(e: Seq<(String, V)>) -> Map<Seq<char>, V> {
    Map::new(|n: Seq<char>| named(e, n), |n: Seq<char>| e[choose|i: int| is_at(e, n, i)].1)
}

/// In a sorted list one position at most has a given name.
pub proof fn lemma_one_position<V>(e: Seq<(String, V)>, i: int, j: int)
    requires
        sorted_names(e),
        0 <= i < e.len(),
        0 <= j < e.len(),
        e[i].0@ == e[j].0@,
    ensures
        i == j,
{
    text::lemma_lex_irreflexive(e[i].0@);
}

pub proof fn lemma_map_at<V>(e: Seq<(String, V)>, i: int)
    requires
        sorted_names(e),
        0 <= i < e.len(),
    ensures
        map_of(e).dom().contains(e[i].0@),
        map_of(e)[e[i].0@] == e[i].1,
{
    assert(is_at(e, e[i].0@, i));
    let k = choose|k: int| is_at(e, e[i].0@, k);
    lemma_one_position(e, i, k);
}

/// A sorted list has as many names as entries.
pub proof fn lemma_map_len<V>(e: Seq<(String, V)>)
    requires
        sorted_names(e),
    ensures
        map_of(e).dom().finite(),
        map_of(e).dom().len() == e.len(),
    decreases e.len(),
{
    if e.len() == 0 {
        assert(map_of(e).dom() =~= Set::empty());
    } else {
        let i = e.len() - 1;
        let f = e.remove(i);
        assert forall|a: int, b: int| 0 <= a < b < f.len() implies text::lex_less(
            #[trigger] f[a].0@,
            #[trigger] f[b].0@,
        ) by {
            assert(f[a] == e[a] && f[b] == e[b]);
        }
        lemma_map_len(f);
        lemma_map_of_remove(e, i);
        lemma_map_at(e, i);
        let name = e[i].0@;
        assert(map_of(e).dom() =~= map_of(f).dom().insert(name));
        assert(!map_of(f).dom().contains(name));
    }
}

/// Where a name stands in a sorted list, or where it would go.
pub fn locate<V>(e: &Vec<(String, V)>, name: &str) -> (r: (bool, usize))
    requires
        sorted_names(e@),
    ensures
        r.1 <= e@.len(),
        r.0 == named(e@, name@),
        r.0 ==> is_at(e@, name@, r.1 as int),
        forall|j: int| 0 <= j < r.1 ==> text::lex_less(#[trigger] e@[j].0@, name@),
        !r.0 ==> forall|j: int| r.1 <= j < e@.len() ==> text::lex_less(name@, #[trigger] e@[j].0@),
{
    let mut i: usize = 0;
    while i < e.len()
        invariant
            i <= e@.len(),
            sorted_names(e@),
            forall|j: int| 0 <= j < i ==> text::lex_less(#[trigger] e@[j].0@, name@),
        decreases e@.len() - i,
    {
        if !text::str_less(e[i].0.as_str(), name) {
            if text::text_eq(e[i].0.as_str(), name) {
                proof {
                    assert(is_at(e@, name@, i as int));
                }
                return (true, i);
            }
            proof {
                text::lemma_lex_total(e@[i as int].0@, name@);
                assert forall|j: int| i <= j < e@.len() implies text::lex_less(
                    name@,
                    #[trigger] e@[j].0@,
                ) by {
                    if j > i {
                        text::lemma_lex_transitive(name@, e@[i as int].0@, e@[j].0@);
                    }
                }
                assert forall|j: int| !is_at(e@, name@, j) by {
                    text::lemma_lex_irreflexive(name@);
                }
            }
            return (false, i);
        }
        i += 1;
    }
    proof {
        assert forall|j: int| !is_at(e@, name@, j) by {
            text::lemma_lex_irreflexive(name@);
        }
    }
    (false, i)
}

/// The entry with the name.
pub fn get<'a, V>(e: &'a Vec<(String, V)>, name: &str) -> (r: Option<&'a V>)
    requires
        sorted_names(e@),
    ensures
        match r {
            Some(v) => map_of(e@).dom().contains(name@) && map_of(e@)[name@] == *v,
            None => !map_of(e@).dom().contains(name@),
        },
{
    let (found, i) = locate(e, name);
    if found {
        proof {
            lemma_map_at(e@, i as int);
        }
        Some(&e[i].1)
    } else {
        None
    }
}

/// Takes the entry with the name out of the list.
pub fn take<V>(e: &mut Vec<(String, V)>, name: &str) -> (r: Option<V>)
    requires
        sorted_names(old(e)@),
    ensures
        sorted_names(final(e)@),
        map_of(final(e)@) == map_of(old(e)@).remove(name@),
        match r {
            Some(v) => map_of(old(e)@).dom().contains(name@) && map_of(old(e)@)[name@] == v,
            None => !map_of(old(e)@).dom().contains(name@),
        },
{
    let (found, i) = locate(e, name);
    if found {
        let ghost before = e@;
        let entry = e.remove(i);
        proof {
            lemma_map_at(before, i as int);
            assert(e@ == before.remove(i as int));
            assert forall|a: int, b: int| 0 <= a < b < e@.len() implies text::lex_less(
                #[trigger] e@[a].0@,
                #[trigger] e@[b].0@,
            ) by {
                let x = if a < i { a } else { a + 1 };
                let y = if b < i { b } else { b + 1 };
                assert(e@[a] == before[x] && e@[b] == before[y]);
            }
            lemma_map_of_remove(before, i as int);
        }
        Some(entry.1)
    } else {
        proof {
            assert(map_of(e@) =~= map_of(e@).remove(name@));
        }
        None
    }
}

proof fn lemma_map_of_remove<V>(e: Seq<(String, V)>, i: int)
    requires
        sorted_names(e),
        0 <= i < e.len(),
        sorted_names(e.remove(i)),
    ensures
        map_of(e.remove(i)) == map_of(e).remove(e[i].0@),
{
    let f = e.remove(i);
    let name = e[i].0@;
    assert forall|n: Seq<char>| named(f, n) == (named(e, n) && n != name) by {
        if named(f, n) {
            let k = choose|k: int| is_at(f, n, k);
            let x = if k < i { k } else { k + 1 };
            assert(f[k] == e[x]);
            assert(is_at(e, n, x));
            if n == name {
                lemma_one_position(e, i, x);
            }
        }
        if named(e, n) && n != name {
            let k = choose|k: int| is_at(e, n, k);
            let x = if k < i { k } else { k - 1 };
            assert(f[x] == e[k]);
            assert(is_at(f, n, x));
        }
    }
    assert forall|n: Seq<char>| named(f, n) implies map_of(f)[n] == map_of(e)[n] by {
        let k = choose|k: int| is_at(f, n, k);
        let x = if k < i { k } else { k + 1 };
        assert(f[k] == e[x]);
        lemma_map_at(f, k);
        lemma_map_at(e, x);
    }
    assert(map_of(f) =~= map_of(e).remove(name));
}

/// Puts an entry into the list, in place of the one with that name if there is one.
pub fn put<V>(e: &mut Vec<(String, V)>, name: String, value: V)
    requires
        sorted_names(old(e)@),
    ensures
        sorted_names(final(e)@),
        map_of(final(e)@) == map_of(old(e)@).insert(name@, value),
{
    let ghost start = e@;
    let _ = take(e, name.as_str());
    let ghost before = e@;
    let (found, i) = locate(e, name.as_str());
    let ghost entry = (name, value);
    proof {
        assert(!found) by {
            assert(!map_of(before).dom().contains(name@));
        }
    }
    e.insert(i, (name, value));
    proof {
        let f = e@;
        assert(f == before.insert(i as int, entry));
        assert forall|a: int, b: int| 0 <= a < b < f.len() implies text::lex_less(
            #[trigger] f[a].0@,
            #[trigger] f[b].0@,
        ) by {
            let x = if a < i { a } else { a - 1 };
            let y = if b < i { b } else { b - 1 };
            if a != i {
                assert(f[a] == before[x]);
            }
            if b != i {
                assert(f[b] == before[y]);
            }
        }
        lemma_map_at(f, i as int);
        assert(f.remove(i as int) =~= before);
        lemma_map_of_remove(f, i as int);
        assert(map_of(f) =~= map_of(start).insert(entry.0@, entry.1)) by {
            assert(map_of(before) == map_of(f).remove(entry.0@));
            assert(map_of(before) == map_of(start).remove(entry.0@));
            assert forall|n: Seq<char>| map_of(f).dom().contains(n) == map_of(start).insert(
                entry.0@,
                entry.1,
            ).dom().contains(n) by {
                assert(map_of(before).dom().contains(n) == map_of(f).remove(entry.0@).dom().contains(n));
                assert(map_of(before).dom().contains(n) == map_of(start).remove(entry.0@).dom().contains(n));
            }
            assert forall|n: Seq<char>| map_of(f).dom().contains(n) implies map_of(f)[n] == map_of(
                start,
            ).insert(entry.0@, entry.1)[n] by {
                if n != entry.0@ {
                    assert(map_of(before)[n] == map_of(f)[n]);
                    assert(map_of(before)[n] == map_of(start)[n]);
                }
            }
        }
    }
}

/// The map with an entry for the name, which stays as it is where there is one.
pub open spec fn with_new<V>(m: Map<Seq<char>, V>, name: Seq<char>, value: V) -> Map<Seq<char>, V> {
    if m.dom().contains(name) {
        m
    } else {
        m.insert(name, value)
    }
}

/// Puts an entry into the list unless the name has one.
pub fn put_new<V>(e: &mut Vec<(String, V)>, name: &str, value: V)
    requires
        sorted_names(old(e)@),
    ensures
        sorted_names(final(e)@),
        map_of(final(e)@) == with_new(map_of(old(e)@), name@, value),
{
    if get(e, name).is_none() {
        put(e, name.to_owned(), value);
    }
}

/// A name put into its place in an ordered list, unless it is there.
pub open spec fn insert_name(list: Seq<Seq<char>>, name: Seq<char>) -> Seq<Seq<char>>
    decreases list.len(),
{
    if list.len() == 0 || text::lex_less(list.last(), name) {
        list.push(name)
    } else if list.last() == name {
        list
    } else {
        insert_name(list.drop_last(), name).push(list.last())
    }
}

/// Puts a name into its place in an ordered list, unless it is there.
pub fn add_name(list: &mut Vec<String>, name: &str)
    ensures
        text::views(final(list)@) == insert_name(text::views(old(list)@), name@),
{
    let ghost prior = text::views(list@);
    let mut p: usize = list.len();
    proof {
        assert(prior.take(p as int) =~= prior);
        assert(insert_name(prior, name@) =~= insert_name(prior.take(p as int), name@) + prior.skip(
            p as int,
        ));
    }
    while p > 0 && !text::str_less(list[p - 1].as_str(), name)
        invariant
            p <= list@.len(),
            prior == text::views(list@),
            insert_name(prior, name@) == insert_name(prior.take(p as int), name@) + prior.skip(
                p as int,
            ),
        decreases p,
    {
        proof {
            let head = prior.take(p as int);
            assert(head.last() == list@[p - 1]@);
        }
        if text::text_eq(list[p - 1].as_str(), name) {
            proof {
                assert(prior.take(p as int) + prior.skip(p as int) =~= prior);
            }
            return;
        }
        proof {
            let head = prior.take(p as int);
            assert(head.drop_last() =~= prior.take(p - 1));
            assert(insert_name(prior.take(p - 1), name@).push(head.last()) + prior.skip(p as int)
                =~= insert_name(prior.take(p - 1), name@) + prior.skip(p - 1));
        }
        p -= 1;
    }
    proof {
        let head = prior.take(p as int);
        if p > 0 {
            assert(head.last() == list@[p - 1]@);
        }
        assert(insert_name(head, name@) == head.push(name@));
        assert(head.push(name@) + prior.skip(p as int) =~= prior.insert(p as int, name@));
    }
    list.insert(p, name.to_owned());
    proof {
        assert(text::views(list@) =~= prior.insert(p as int, name@));
    }
}

/// Names in strictly increasing order.
pub open spec fn increasing(list: Seq<Seq<char>>) -> bool {
    forall|i: int, j: int|
        0 <= i < j < list.len() ==> text::lex_less(#[trigger] list[i], #[trigger] list[j])
}

/// Two increasing lists of the same names agree on their first `n` places.
pub proof fn lemma_increasing_unique(a: Seq<Seq<char>>, b: Seq<Seq<char>>, n: nat)
    requires
        increasing(a),
        increasing(b),
        a.len() == b.len(),
        forall|i: int| 0 <= i < a.len() ==> b.contains(#[trigger] a[i]),
        forall|i: int| 0 <= i < b.len() ==> a.contains(#[trigger] b[i]),
        n <= a.len(),
    ensures
        forall|i: int| 0 <= i < n ==> #[trigger] a[i] == b[i],
    decreases n,
{
    if n > 0 {
        lemma_increasing_unique(a, b, (n - 1) as nat);
        let i = n - 1;
        assert(a[i] == b[i]) by {
            text::lemma_lex_total(a[i], b[i]);
            text::lemma_lex_irreflexive(a[i]);
            if text::lex_less(a[i], b[i]) {
                assert(b.contains(a[i]));
                let k = choose|k: int| 0 <= k < b.len() && b[k] == a[i];
                if k < i {
                    assert(a[k] == b[k]);
                    assert(text::lex_less(a[k], a[i]));
                } else if k > i {
                    assert(text::lex_less(b[i], b[k]));
                    text::lemma_lex_transitive(a[i], b[i], a[i]);
                } else {
                    assert(false);
                }
            } else if text::lex_less(b[i], a[i]) {
                text::lemma_lex_irreflexive(b[i]);
                assert(a.contains(b[i]));
                let k = choose|k: int| 0 <= k < a.len() && a[k] == b[i];
                if k < i {
                    assert(a[k] == b[k]);
                    assert(text::lex_less(b[k], b[i]));
                } else if k > i {
                    assert(text::lex_less(a[i], a[k]));
                    text::lemma_lex_transitive(b[i], a[i], b[i]);
                } else {
                    assert(false);
                }
            }
        }
    }
}

/// The positions below `n`, each once, in the order of their keys.
pub open spec fn is_key_order(keys: Seq<Seq<char>>, order: Seq<int>, n: nat) -> bool {
    &&& order.len() == n
    &&& forall|i: int| 0 <= i < order.len() ==> 0 <= #[trigger] order[i] < n
    &&& forall|k: int| 0 <= k < n ==> #[trigger] order.contains(k)
    &&& forall|i: int, j: int|
        0 <= i < j < order.len() ==> #[trigger] order[i] != #[trigger] order[j]
            && !text::lex_less(keys[order[j]], keys[order[i]])
}

proof fn lemma_insert_key(keys: Seq<Seq<char>>, order: Seq<int>, k: int)
    requires
        forall|i: int| 0 <= i < order.len() ==> #[trigger] order[i] != k,
        forall|i: int, j: int|
            0 <= i < j < order.len() ==> #[trigger] order[i] != #[trigger] order[j]
                && !text::lex_less(keys[order[j]], keys[order[i]]),
    ensures
        ({
            let now = insert_key(keys, order, k);
            &&& now.len() == order.len() + 1
            &&& now.contains(k)
            &&& forall|i: int| 0 <= i < order.len() ==> now.contains(#[trigger] order[i])
            &&& forall|i: int|
                0 <= i < now.len() ==> #[trigger] now[i] == k || order.contains(now[i])
            &&& forall|i: int, j: int|
                0 <= i < j < now.len() ==> #[trigger] now[i] != #[trigger] now[j]
                    && !text::lex_less(keys[now[j]], keys[now[i]])
        }),
    decreases order.len(),
{
    let now = insert_key(keys, order, k);
    if order.len() == 0 || !text::lex_less(keys[k], keys[order.last()]) {
        assert(now[order.len() as int] == k);
        assert forall|i: int| 0 <= i < order.len() implies now.contains(#[trigger] order[i]) by {
            assert(now[i] == order[i]);
        }
        assert forall|i: int| 0 <= i < now.len() implies #[trigger] now[i] == k || order.contains(
            now[i],
        ) by {
            if i < order.len() {
                assert(order[i] == now[i]);
            }
        }
        assert forall|i: int, j: int| 0 <= i < j < now.len() implies #[trigger] now[i]
            != #[trigger] now[j] && !text::lex_less(keys[now[j]], keys[now[i]]) by {
            if j == order.len() && i < order.len() - 1 {
                let last = order.last();
                assert(order[i] != order[order.len() - 1]);
                if text::lex_less(keys[k], keys[order[i]]) {
                    text::lemma_lex_total(keys[order[i]], keys[last]);
                    if text::lex_less(keys[order[i]], keys[last]) {
                        text::lemma_lex_transitive(keys[k], keys[order[i]], keys[last]);
                    }
                }
            }
        }
    } else {
        let head = order.drop_last();
        lemma_insert_key(keys, head, k);
        let grown = insert_key(keys, head, k);
        let last = order.last();
        assert(now == grown.push(last));
        assert(now.contains(k)) by {
            let w = choose|w: int| 0 <= w < grown.len() && grown[w] == k;
            assert(now[w] == k);
        }
        assert forall|i: int| 0 <= i < order.len() implies now.contains(#[trigger] order[i]) by {
            if i < head.len() {
                assert(grown.contains(head[i]));
                let w = choose|w: int| 0 <= w < grown.len() && grown[w] == head[i];
                assert(now[w] == order[i]);
            } else {
                assert(now[grown.len() as int] == order[i]);
            }
        }
        assert forall|i: int| 0 <= i < now.len() implies #[trigger] now[i] == k || order.contains(
            now[i],
        ) by {
            if i < grown.len() {
                assert(now[i] == grown[i]);
                if grown[i] != k {
                    let w = choose|w: int| 0 <= w < head.len() && head[w] == grown[i];
                    assert(order[w] == now[i]);
                }
            } else {
                assert(order[order.len() - 1] == now[i]);
            }
        }
        assert forall|i: int, j: int| 0 <= i < j < now.len() implies #[trigger] now[i]
            != #[trigger] now[j] && !text::lex_less(keys[now[j]], keys[now[i]]) by {
            if j < grown.len() {
                assert(now[i] == grown[i] && now[j] == grown[j]);
            } else {
                assert(now[i] == grown[i]);
                if grown[i] == k {
                    if text::lex_less(keys[last], keys[k]) {
                        text::lemma_lex_irreflexive(keys[k]);
                        text::lemma_lex_transitive(keys[k], keys[last], keys[k]);
                    }
                } else {
                    let w = choose|w: int| 0 <= w < head.len() && head[w] == grown[i];
                    assert(order[w] != order[order.len() - 1]);
                }
            }
        }
    }
}

pub proof fn lemma_key_order(keys: Seq<Seq<char>>, n: nat)
    requires
        n <= keys.len(),
    ensures
        is_key_order(keys, key_order(keys, n), n),
    decreases n,
{
    if n > 0 {
        lemma_key_order(keys, (n - 1) as nat);
        let before = key_order(keys, (n - 1) as nat);
        lemma_insert_key(keys, before, n - 1);
        let now = key_order(keys, n);
        assert forall|k: int| 0 <= k < n implies #[trigger] now.contains(k) by {
            if k < n - 1 {
                assert(before.contains(k));
                let w = choose|w: int| 0 <= w < before.len() && before[w] == k;
                assert(now.contains(before[w]));
            }
        }
        assert forall|i: int| 0 <= i < now.len() implies 0 <= #[trigger] now[i] < n by {
            if now[i] != n - 1 {
                let w = choose|w: int| 0 <= w < before.len() && before[w] == now[i];
                assert(0 <= before[w] < n - 1);
            }
        }
    }
}

} // verus!
