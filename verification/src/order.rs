//! The order of texts, and stable sorting by keys made of texts.

use vstd::prelude::*;

verus! {

/// The lexicographic order of texts by the code points of their characters.
pub open spec fn text_le(a: Seq<char>, b: Seq<char>) -> bool
    decreases a.len(),
{
    if a.len() == 0 {
        true
    } else if b.len() == 0 {
        false
    } else if a[0] == b[0] {
        text_le(a.skip(1), b.skip(1))
    } else {
        (a[0] as int) < (b[0] as int)
    }
}

/// The lexicographic order of keys, a key being a list of texts: the first
/// text in which two keys differ decides.
pub open spec fn key_le(a: Seq<Seq<char>>, b: Seq<Seq<char>>) -> bool
    decreases a.len(),
{
    if a.len() == 0 {
        true
    } else if b.len() == 0 {
        false
    } else if a[0] == b[0] {
        key_le(a.skip(1), b.skip(1))
    } else {
        text_le(a[0], b[0])
    }
}

/// The texts of a key.
pub open spec fn key_of(key: Seq<Vec<char>>) -> Seq<Seq<char>> {
    key.map_values(|part: Vec<char>| part@)
}

/// The texts of a list of keys.
pub open spec fn keys_of(keys: Seq<Vec<Vec<char>>>) -> Seq<Seq<Seq<char>>> {
    keys.map_values(|key: Vec<Vec<char>>| key_of(key@))
}

/// `order` with `i` put behind every index whose key is not above that of `i`.
pub open spec fn insert_index(keys: Seq<Seq<Seq<char>>>, order: Seq<int>, i: int) -> Seq<int>
    decreases order.len(),
{
    if order.len() == 0 || key_le(keys[order.last()], keys[i]) {
        order.push(i)
    } else {
        insert_index(keys, order.drop_last(), i).push(order.last())
    }
}

/// The indices below `n` in the order of their keys, equal keys by index.
pub open spec fn sorted_indices(keys: Seq<Seq<Seq<char>>>, n: nat) -> Seq<int>
    decreases n,
{
    if n == 0 {
        Seq::empty()
    } else {
        insert_index(keys, sorted_indices(keys, (n - 1) as nat), n - 1)
    }
}

/// The code point of a character.
fn code(c: char) -> (u: u32)
    ensures
        u == c as int,
{
    c as u32
}

/// Compares texts: below, equal or above.
enum Compared {
    Below,
    Same,
    Above,
}

/// The order of two texts.
fn order_texts(a: &Vec<char>, b: &Vec<char>) -> (c: Compared)
    ensures
        c is Same <==> a@ == b@,
        c is Above <==> !text_le(a@, b@),
{
    let mut i: usize = 0;
    assert(a@.skip(0) == a@ && b@.skip(0) == b@);
    while i < a.len() && i < b.len()
        invariant
            i <= a@.len(),
            i <= b@.len(),
            a@.take(i as int) == b@.take(i as int),
            text_le(a@, b@) == text_le(a@.skip(i as int), b@.skip(i as int)),
        decreases a@.len() - i,
    {
        let x: u32 = code(a[i]);
        let y: u32 = code(b[i]);
        let ghost s = a@.skip(i as int);
        let ghost t = b@.skip(i as int);
        assert(s[0] == a@[i as int] && t[0] == b@[i as int]);
        if a[i] != b[i] {
            if x < y {
                return Compared::Below;
            }
            return Compared::Above;
        }
        assert(s.skip(1) == a@.skip(i + 1) && t.skip(1) == b@.skip(i + 1));
        assert(a@.take(i + 1) == a@.take(i as int).push(a@[i as int]));
        assert(b@.take(i + 1) == b@.take(i as int).push(b@[i as int]));
        i = i + 1;
    }
    if i < a.len() {
        Compared::Above
    } else if i < b.len() {
        Compared::Below
    } else {
        assert(a@.take(i as int) == a@ && b@.take(i as int) == b@);
        Compared::Same
    }
}

/// Whether text `a` is not above text `b`.
pub fn text_not_above(a: &Vec<char>, b: &Vec<char>) -> (yes: bool)
    ensures
        yes == text_le(a@, b@),
{
    match order_texts(a, b) {
        Compared::Above => false,
        _ => true,
    }
}

/// Whether key `a` is not above key `b`.
fn key_not_above(a: &Vec<Vec<char>>, b: &Vec<Vec<char>>) -> (yes: bool)
    ensures
        yes == key_le(key_of(a@), key_of(b@)),
{
    let ghost ka = key_of(a@);
    let ghost kb = key_of(b@);
    let mut i: usize = 0;
    assert(ka.skip(0) == ka && kb.skip(0) == kb);
    while i < a.len() && i < b.len()
        invariant
            ka == key_of(a@),
            kb == key_of(b@),
            i <= a@.len(),
            i <= b@.len(),
            key_le(ka, kb) == key_le(ka.skip(i as int), kb.skip(i as int)),
        decreases a@.len() - i,
    {
        let ghost s = ka.skip(i as int);
        let ghost t = kb.skip(i as int);
        assert(s[0] == a@[i as int]@ && t[0] == b@[i as int]@);
        match order_texts(&a[i], &b[i]) {
            Compared::Below => {
                return true;
            },
            Compared::Above => {
                return false;
            },
            Compared::Same => {
                assert(s.skip(1) == ka.skip(i + 1) && t.skip(1) == kb.skip(i + 1));
                i = i + 1;
            },
        }
    }
    i >= a.len()
}

/// The indices as integers.
pub open spec fn indices(order: Seq<usize>) -> Seq<int> {
    order.map_values(|i: usize| i as int)
}

/// The indices of `keys` in the order of the keys, equal keys by index.
pub fn stable_order(keys: &Vec<Vec<Vec<char>>>) -> (order: Vec<usize>)
    ensures
        indices(order@) == sorted_indices(keys_of(keys@), keys@.len()),
        order@.len() == keys@.len(),
        forall|k: int| 0 <= k < order@.len() ==> (#[trigger] order@[k]) < keys@.len(),
{
    let mut order: Vec<usize> = Vec::new();
    for i in 0..keys.len()
        invariant
            indices(order@) == sorted_indices(keys_of(keys@), i as nat),
            order@.len() == i,
            forall|k: int| 0 <= k < order@.len() ==> (#[trigger] order@[k]) < i,
    {
        let ghost all = keys_of(keys@);
        let ghost before = order@;
        let mut p: usize = order.len();
        assert(before.take(p as int) == before);
        assert(before.skip(p as int) == Seq::<usize>::empty());
        assert(insert_index(all, indices(before), i as int) == insert_index(
            all,
            indices(before.take(p as int)),
            i as int,
        ) + indices(before.skip(p as int)));
        while p > 0 && !key_not_above(&keys[order[p - 1]], &keys[i])
            invariant
                i < keys@.len(),
                all == keys_of(keys@),
                before == order@,
                p <= order@.len(),
                forall|k: int| 0 <= k < order@.len() ==> (#[trigger] order@[k]) < i,
                insert_index(all, indices(before), i as int) == insert_index(
                    all,
                    indices(before.take(p as int)),
                    i as int,
                ) + indices(before.skip(p as int)),
            decreases p,
        {
            proof {
                let head = indices(before.take(p as int));
                assert(head.last() == before[p - 1]);
                assert(all[head.last()] == key_of(keys@[before[p - 1] as int]@));
                assert(all[i as int] == key_of(keys@[i as int]@));
                assert(head.drop_last() == indices(before.take(p - 1)));
                assert(insert_index(all, head, i as int) == insert_index(
                    all,
                    indices(before.take(p - 1)),
                    i as int,
                ).push(before[p - 1] as int));
                assert(indices(before.skip(p - 1)) == seq![before[p - 1] as int] + indices(
                    before.skip(p as int),
                ));
                let inner = insert_index(all, indices(before.take(p - 1)), i as int);
                assert(inner.push(before[p - 1] as int) + indices(before.skip(p as int)) == inner
                    + (seq![before[p - 1] as int] + indices(before.skip(p as int))));
            }
            p = p - 1;
        }
        proof {
            let head = indices(before.take(p as int));
            if p > 0 {
                assert(head.last() == before[p - 1]);
                assert(all[head.last()] == key_of(keys@[before[p - 1] as int]@));
                assert(all[i as int] == key_of(keys@[i as int]@));
            }
            assert(insert_index(all, head, i as int) == head.push(i as int));
        }
        order.insert(p, i);
        assert(indices(order@) == indices(before.take(p as int)).push(i as int) + indices(
            before.skip(p as int),
        ));
    }
    order
}

// ---------------------------------------------------------------------------
// Laws of sorting
// ---------------------------------------------------------------------------

/// Texts are totally ordered: any two can be compared, and two that are each
/// not above the other are equal.
pub proof fn law_text_order_total(a: Seq<char>, b: Seq<char>)
    ensures
        text_le(a, b) || text_le(b, a),
        text_le(a, b) && text_le(b, a) ==> a == b,
        a == b ==> text_le(a, b),
    decreases a.len(),
{
    if a.len() > 0 && b.len() > 0 {
        if a[0] == b[0] {
            law_text_order_total(a.skip(1), b.skip(1));
            if a.skip(1) == b.skip(1) {
                assert(a == seq![a[0]] + a.skip(1));
                assert(b == seq![b[0]] + b.skip(1));
            }
        } else {
            assert(a[0] as int != b[0] as int);
        }
    } else if a.len() == 0 && b.len() == 0 {
        assert(a == b);
    }
}

/// The order of texts is transitive.
pub proof fn law_text_order_transitive(a: Seq<char>, b: Seq<char>, c: Seq<char>)
    requires
        text_le(a, b),
        text_le(b, c),
    ensures
        text_le(a, c),
    decreases a.len(),
{
    if a.len() > 0 && b.len() > 0 && c.len() > 0 {
        if a[0] == b[0] && b[0] == c[0] {
            law_text_order_transitive(a.skip(1), b.skip(1), c.skip(1));
        }
    }
}

/// Keys are totally ordered.
pub proof fn law_key_order_total(a: Seq<Seq<char>>, b: Seq<Seq<char>>)
    ensures
        key_le(a, b) || key_le(b, a),
        key_le(a, b) && key_le(b, a) ==> a == b,
        a == b ==> key_le(a, b),
    decreases a.len(),
{
    if a.len() > 0 && b.len() > 0 {
        law_text_order_total(a[0], b[0]);
        if a[0] == b[0] {
            law_key_order_total(a.skip(1), b.skip(1));
            if a.skip(1) == b.skip(1) {
                assert(a == seq![a[0]] + a.skip(1));
                assert(b == seq![b[0]] + b.skip(1));
            }
        }
    } else if a.len() == 0 && b.len() == 0 {
        assert(a == b);
    }
}

/// The order of keys is transitive.
pub proof fn law_key_order_transitive(
    a: Seq<Seq<char>>,
    b: Seq<Seq<char>>,
    c: Seq<Seq<char>>,
)
    requires
        key_le(a, b),
        key_le(b, c),
    ensures
        key_le(a, c),
    decreases a.len(),
{
    if a.len() > 0 && b.len() > 0 && c.len() > 0 {
        if a[0] == b[0] && b[0] == c[0] {
            law_key_order_transitive(a.skip(1), b.skip(1), c.skip(1));
        } else if a[0] != b[0] && b[0] != c[0] {
            law_text_order_transitive(a[0], b[0], c[0]);
            if a[0] == c[0] {
                law_text_order_total(a[0], b[0]);
            }
        }
    }
}

/// Whether `order` lists indices by ascending key, equal keys by index.
pub open spec fn is_sorted_by(keys: Seq<Seq<Seq<char>>>, order: Seq<int>) -> bool {
    forall|k: int, l: int|
        #![trigger order[k], order[l]]
        0 <= k < l < order.len() ==> key_le(keys[order[k]], keys[order[l]]) && (keys[order[k]]
            == keys[order[l]] ==> order[k] < order[l])
}

/// Whether `order` lists each index below `n` exactly once.
pub open spec fn lists_each_once(order: Seq<int>, n: nat) -> bool {
    &&& order.len() == n
    &&& forall|k: int| 0 <= k < order.len() ==> 0 <= #[trigger] order[k] < n
    &&& forall|k: int, l: int|
        #![trigger order[k], order[l]]
        0 <= k < l < order.len() ==> order[k] != order[l]
    &&& forall|i: int| 0 <= i < n ==> #[trigger] order.contains(i)
}

/// Inserting the next index keeps a list sorted, and it then holds that index
/// beside what it held.
proof fn lemma_insert_index(keys: Seq<Seq<Seq<char>>>, order: Seq<int>, i: int)
    requires
        is_sorted_by(keys, order),
        forall|k: int| 0 <= k < order.len() ==> 0 <= #[trigger] order[k] < i,
    ensures
        is_sorted_by(keys, insert_index(keys, order, i)),
        insert_index(keys, order, i).len() == order.len() + 1,
        forall|k: int|
            0 <= k < order.len() + 1 ==> {
                let x = #[trigger] insert_index(keys, order, i)[k];
                x == i || order.contains(x)
            },
        insert_index(keys, order, i).contains(i),
        forall|x: int| order.contains(x) ==> #[trigger] insert_index(keys, order, i).contains(x),
    decreases order.len(),
{
    let out = insert_index(keys, order, i);
    if order.len() == 0 || key_le(keys[order.last()], keys[i]) {
        assert(out == order.push(i));
        assert forall|k: int, l: int|
            #![trigger out[k], out[l]]
            0 <= k < l < out.len() implies key_le(keys[out[k]], keys[out[l]]) && (keys[out[k]]
            == keys[out[l]] ==> out[k] < out[l]) by {
            if l == order.len() {
                if k < order.len() - 1 {
                    let _ = order[order.len() - 1];
                    law_key_order_transitive(keys[order[k]], keys[order.last()], keys[i]);
                }
            } else {
                let _ = (order[k], order[l]);
            }
        }
        assert(out[order.len() as int] == i);
        assert forall|x: int| order.contains(x) implies #[trigger] out.contains(x) by {
            let k = choose|k: int| 0 <= k < order.len() && order[k] == x;
            assert(out[k] == x);
        }
        assert forall|k: int| 0 <= k < order.len() + 1 implies ({
            let x = #[trigger] out[k];
            x == i || order.contains(x)
        }) by {
            if k < order.len() {
                assert(order[k] == out[k]);
            }
        }
    } else {
        let head = order.drop_last();
        assert forall|k: int, l: int|
            #![trigger head[k], head[l]]
            0 <= k < l < head.len() implies key_le(keys[head[k]], keys[head[l]]) && (
        keys[head[k]] == keys[head[l]] ==> head[k] < head[l]) by {
            let _ = (order[k], order[l]);
        }
        assert forall|k: int| 0 <= k < head.len() implies 0 <= #[trigger] head[k] < i by {
            let _ = order[k];
        }
        lemma_insert_index(keys, head, i);
        let inner = insert_index(keys, head, i);
        assert(out == inner.push(order.last()));
        law_key_order_total(keys[order.last()], keys[i]);
        assert forall|k: int, l: int|
            #![trigger out[k], out[l]]
            0 <= k < l < out.len() implies key_le(keys[out[k]], keys[out[l]]) && (keys[out[k]]
            == keys[out[l]] ==> out[k] < out[l]) by {
            if l == inner.len() {
                let x = inner[k];
                if x != i {
                    assert(head.contains(x));
                    let m = choose|m: int| 0 <= m < head.len() && head[m] == x;
                    let _ = (order[m], order[order.len() - 1]);
                }
            } else {
                let _ = (inner[k], inner[l]);
            }
        }
        let w = choose|w: int| 0 <= w < inner.len() && inner[w] == i;
        assert(out[w] == i);
        assert forall|x: int| order.contains(x) implies #[trigger] out.contains(x) by {
            let k = choose|k: int| 0 <= k < order.len() && order[k] == x;
            if k < head.len() {
                assert(head[k] == x);
                assert(inner.contains(x));
                let m = choose|m: int| 0 <= m < inner.len() && inner[m] == x;
                assert(out[m] == x);
            } else {
                assert(out[inner.len() as int] == x);
            }
        }
        assert forall|k: int| 0 <= k < order.len() + 1 implies ({
            let x = #[trigger] out[k];
            x == i || order.contains(x)
        }) by {
            if k < inner.len() {
                let x = inner[k];
                if x != i {
                    let m = choose|m: int| 0 <= m < head.len() && head[m] == x;
                    assert(order[m] == x);
                }
            } else {
                assert(order[order.len() - 1] == out[k]);
            }
        }
    }
}

/// Sorting lists every index exactly once, by ascending key, and keeps the
/// order of indices whose keys are equal.
pub proof fn law_sorted_indices(keys: Seq<Seq<Seq<char>>>, n: nat)
    ensures
        is_sorted_by(keys, sorted_indices(keys, n)),
        lists_each_once(sorted_indices(keys, n), n),
    decreases n,
{
    if n > 0 {
        let before = sorted_indices(keys, (n - 1) as nat);
        law_sorted_indices(keys, (n - 1) as nat);
        lemma_insert_index(keys, before, n - 1);
        let out = sorted_indices(keys, n);
        assert forall|k: int| 0 <= k < out.len() implies 0 <= #[trigger] out[k] < n by {
            if out[k] != n - 1 {
                let m = choose|m: int| 0 <= m < before.len() && before[m] == out[k];
                assert(0 <= before[m] < n - 1);
            }
        }
        assert forall|k: int, l: int|
            #![trigger out[k], out[l]]
            0 <= k < l < out.len() implies out[k] != out[l] by {
            // equal indices have equal keys, and equal keys stand by index
            assert(keys[out[k]] == keys[out[l]] ==> out[k] < out[l]);
        }
        assert forall|i: int| 0 <= i < n implies #[trigger] out.contains(i) by {
            if i < n - 1 {
                assert(before.contains(i));
            }
        }
    }
}

} // verus!
