//! The order of a signature's arguments.

use crate::text::{digits_are_read_in_order, number_in, number_of};
use vstd::prelude::*;

verus! {

/// Every name holds a number.
pub open spec fn all_numbered(names: Seq<Seq<char>>) -> bool {
    forall|i: int| 0 <= i < names.len() ==> number_in(#[trigger] names[i]) is Some
}

/// Argument `a` precedes argument `b`: by the numbers in their names, and by
/// position where those are equal or not every name holds one.
pub open spec fn precedes(names: Seq<Seq<char>>, a: int, b: int) -> bool {
    if all_numbered(names) && number_in(names[a]) != number_in(names[b]) {
        number_in(names[a]).unwrap() < number_in(names[b]).unwrap()
    } else {
        a < b
    }
}

/// `order` lists every argument once, each after those that precede it.
pub open spec fn is_argument_order(names: Seq<Seq<char>>, order: Seq<usize>) -> bool {
    &&& order.len() == names.len()
    &&& forall|i: int| 0 <= i < order.len() ==> #[trigger] order[i] < names.len()
    &&& forall|i: int, j: int|
        0 <= i < j < order.len() ==> precedes(names, #[trigger] order[i] as int, #[trigger] order[j] as int)
}

/// From the position that a caller gives an argument to the position that the
/// runtime gives it.
pub open spec fn order_of(names: Seq<Seq<char>>) -> Seq<usize> {
    choose|order: Seq<usize>| is_argument_order(names, order)
}

/// The texts of a list of strings.
pub open spec fn texts(v: Seq<String>) -> Seq<Seq<char>> {
    Seq::new(v.len(), |i: int| v[i]@)
}

/// Every index below `n`, each once.
pub open spec fn is_permutation(order: Seq<usize>, n: nat) -> bool {
    &&& order.len() == n
    &&& forall|i: int| 0 <= i < n ==> #[trigger] order[i] < n
    &&& order.no_duplicates()
}

proof fn lemma_permutation_reaches(order: Seq<usize>, n: nat, a: usize)
    requires
        is_permutation(order, n),
        a < n,
    ensures
        order.contains(a),
{
    let all = vstd::set_lib::set_int_range(0, n as int);
    let ints = order.map_values(|u: usize| u as int);
    assert(ints.no_duplicates());
    vstd::set_lib::lemma_int_range(0, n as int);
    ints.unique_seq_to_set();
    assert(ints.to_set().subset_of(all)) by {
        assert forall|x: int| ints.to_set().contains(x) implies all.contains(x) by {
            let k = choose|k: int| 0 <= k < ints.len() && ints[k] == x;
            assert(order[k] < n);
        }
    }
    vstd::set_lib::lemma_subset_equality(ints.to_set(), all);
    assert(ints.to_set().contains(a as int));
    let k = choose|k: int| 0 <= k < ints.len() && ints[k] == a as int;
    assert(order[k] == a);
}

/// An argument order rearranges the arguments: each occurs in it, and once.
pub proof fn order_permutes(names: Seq<Seq<char>>, order: Seq<usize>)
    requires
        is_argument_order(names, order),
    ensures
        is_permutation(order, names.len()),
        forall|a: usize| a < names.len() ==> #[trigger] order.contains(a),
{
    assert(order.no_duplicates());
    assert forall|a: usize| a < names.len() implies #[trigger] order.contains(a) by {
        lemma_permutation_reaches(order, names.len(), a);
    }
}

proof fn lemma_map_keeps_multiset<B>(a: Seq<usize>, b: Seq<usize>, f: spec_fn(usize) -> B)
    requires
        a.to_multiset() == b.to_multiset(),
    ensures
        a.map_values(f).to_multiset() == b.map_values(f).to_multiset(),
    decreases a.len(),
{
    broadcast use vstd::seq_lib::group_to_multiset_ensures;

    broadcast use vstd::multiset::group_multiset_axioms;

    assert(a.len() == a.to_multiset().len());
    assert(b.len() == b.to_multiset().len());
    if a.len() == 0 {
        assert(a.map_values(f) =~= b.map_values(f));
    } else {
        let x = a.last();
        assert(a.contains(x));
        assert(b.to_multiset().count(x) > 0);
        assert(b.contains(x));
        let i = choose|i: int| 0 <= i < b.len() && b[i] == x;
        assert(a.drop_last() =~= a.remove(a.len() - 1));
        lemma_map_keeps_multiset(a.drop_last(), b.remove(i), f);
        assert(a.map_values(f).remove(a.len() - 1) =~= a.drop_last().map_values(f));
        assert(b.map_values(f).remove(i) =~= b.remove(i).map_values(f));
        vstd::seq_lib::to_multiset_remove(a.map_values(f), a.len() - 1);
        vstd::seq_lib::to_multiset_remove(b.map_values(f), i);
        assert(a.map_values(f)[a.len() - 1] == f(x));
        assert(b.map_values(f)[i] == f(x));
        assert(a.map_values(f).contains(f(x)));
        assert(b.map_values(f).contains(f(x)));
        let ma = a.map_values(f).to_multiset();
        let mb = b.map_values(f).to_multiset();
        assert(ma.count(f(x)) > 0 && mb.count(f(x)) > 0);
        assert(ma =~= ma.remove(f(x)).insert(f(x)));
        assert(mb =~= mb.remove(f(x)).insert(f(x)));
    }
}

/// What a permutation reorders can be numbered.
pub proof fn lemma_small_indices(order: Seq<usize>, n: nat)
    requires
        is_permutation(order, n),
    ensures
        n <= usize::MAX + 1,
{
    let all = vstd::set_lib::set_int_range(0, usize::MAX + 1);
    let ints = order.map_values(|u: usize| u as int);
    assert(ints.no_duplicates());
    vstd::set_lib::lemma_int_range(0, usize::MAX + 1);
    ints.unique_seq_to_set();
    assert(ints.to_set().subset_of(all));
    vstd::set_lib::lemma_len_subset(ints.to_set(), all);
}

/// Rearranging neither loses nor doubles anything.
pub proof fn permutation_keeps_multiset<B>(order: Seq<usize>, s: Seq<B>)
    requires
        is_permutation(order, s.len()),
    ensures
        Seq::new(order.len(), |j: int| s[order[j] as int]).to_multiset() == s.to_multiset(),
{
    broadcast use vstd::seq_lib::group_to_multiset_ensures;

    let n = s.len();
    if n > 0 {
        assert(order[0] < n);
    }
    let id = Seq::new(n, |i: int| i as usize);
    let f = |u: usize| s[u as int];
    lemma_small_indices(order, n);
    assert(id.no_duplicates());
    order.lemma_multiset_has_no_duplicates();
    id.lemma_multiset_has_no_duplicates();
    assert forall|x: usize| #[trigger] order.to_multiset().count(x) == id.to_multiset().count(x) by {
        if x < n {
            lemma_permutation_reaches(order, n, x);
            assert(id[x as int] == x);
            assert(id.contains(x));
        } else {
            assert(!order.contains(x));
            assert(!id.contains(x));
        }
    }
    assert(order.to_multiset() =~= id.to_multiset());
    lemma_map_keeps_multiset(order, id, f);
    assert(order.map_values(f) =~= Seq::new(order.len(), |j: int| s[order[j] as int]));
    assert(id.map_values(f) =~= s);
}

proof fn lemma_orders_agree(names: Seq<Seq<char>>, o1: Seq<usize>, o2: Seq<usize>, k: int)
    requires
        is_argument_order(names, o1),
        is_argument_order(names, o2),
        0 <= k < o1.len(),
    ensures
        o1[k] == o2[k],
    decreases k,
{
    assert forall|j: int| 0 <= j < k implies #[trigger] o1[j] == o2[j] by {
        lemma_orders_agree(names, o1, o2, j);
    }
    order_permutes(names, o2);
    order_permutes(names, o1);
    assert(o2.contains(o1[k]) && o1.contains(o2[k]));
    let p = choose|p: int| 0 <= p < o2.len() && o2[p] == o1[k];
    let q = choose|q: int| 0 <= q < o1.len() && o1[q] == o2[k];
    if p < k {
        assert(o1[p] == o2[p]);
    }
    if q < k {
        assert(o1[q] == o2[q]);
    }
    if p > k && q > k {
        assert(precedes(names, o2[k] as int, o2[p] as int));
        assert(precedes(names, o1[k] as int, o1[q] as int));
    }
}

/// Names determine the argument order.
pub proof fn order_is_unique(names: Seq<Seq<char>>, order: Seq<usize>)
    requires
        is_argument_order(names, order),
    ensures
        order == order_of(names),
{
    let other = order_of(names);
    assert(is_argument_order(names, other));
    assert forall|k: int| 0 <= k < order.len() implies order[k] == other[k] by {
        lemma_orders_agree(names, order, other, k);
    }
    assert(order =~= other);
}

proof fn lemma_place(names: Seq<Seq<char>>, order: Seq<usize>, x: usize, at: int) -> (place: int)
    requires
        0 <= at <= order.len(),
        forall|j: int| 0 <= j < order.len() ==> #[trigger] order[j] < x,
        forall|i: int, j: int|
            0 <= i < j < order.len() ==> precedes(
                names,
                #[trigger] order[i] as int,
                #[trigger] order[j] as int,
            ),
        forall|j: int|
            at <= j < order.len() ==> precedes(names, x as int, #[trigger] order[j] as int),
        x < names.len(),
    ensures
        0 <= place <= order.len(),
        forall|j: int| 0 <= j < place ==> precedes(names, #[trigger] order[j] as int, x as int),
        forall|j: int|
            place <= j < order.len() ==> precedes(names, x as int, #[trigger] order[j] as int),
    decreases at,
{
    if at == 0 {
        0
    } else if precedes(names, order[at - 1] as int, x as int) {
        assert forall|j: int| 0 <= j < at implies precedes(
            names,
            #[trigger] order[j] as int,
            x as int,
        ) by {
            if j < at - 1 {
                assert(precedes(names, order[j] as int, order[at - 1] as int));
            }
        }
        at
    } else {
        assert(order[at - 1] < x);
        lemma_place(names, order, x, at - 1)
    }
}

proof fn lemma_order_of_first(names: Seq<Seq<char>>, k: nat) -> (order: Seq<usize>)
    requires
        k <= names.len() <= usize::MAX,
    ensures
        order.len() == k,
        forall|j: int| 0 <= j < k ==> #[trigger] order[j] < k,
        forall|i: int, j: int|
            0 <= i < j < k ==> precedes(
                names,
                #[trigger] order[i] as int,
                #[trigger] order[j] as int,
            ),
    decreases k,
{
    if k == 0 {
        seq![]
    } else {
        let x = (k - 1) as usize;
        let rest = lemma_order_of_first(names, (k - 1) as nat);
        let place = lemma_place(names, rest, x, rest.len() as int);
        let order = rest.insert(place, x);
        assert forall|i: int, j: int| 0 <= i < j < k implies precedes(
            names,
            #[trigger] order[i] as int,
            #[trigger] order[j] as int,
        ) by {
            let i0 = if i < place {
                i
            } else {
                i - 1
            };
            let j0 = if j < place {
                j
            } else {
                j - 1
            };
            if i != place {
                assert(order[i] == rest[i0]);
            }
            if j != place {
                assert(order[j] == rest[j0]);
            }
        }
        order
    }
}

/// There is an argument order for any names.
pub proof fn order_exists(names: Seq<Seq<char>>)
    requires
        names.len() <= usize::MAX,
    ensures
        is_argument_order(names, order_of(names)),
{
    let order = lemma_order_of_first(names, names.len());
    assert(is_argument_order(names, order));
}

proof fn lemma_numbers_climb(names: Seq<Seq<char>>, order: Seq<usize>, k: int)
    requires
        is_argument_order(names, order),
        all_numbered(names),
        forall|i: int, j: int|
            0 <= i < j < names.len() ==> number_in(#[trigger] names[i]) != number_in(
                #[trigger] names[j],
            ),
        0 <= k < order.len(),
    ensures
        number_in(names[order[k] as int]).unwrap() >= k,
    decreases k,
{
    if k > 0 {
        lemma_numbers_climb(names, order, k - 1);
        assert(precedes(names, order[k - 1] as int, order[k] as int));
    }
}

proof fn lemma_numbers_stay_low(names: Seq<Seq<char>>, order: Seq<usize>, k: int)
    requires
        is_argument_order(names, order),
        all_numbered(names),
        forall|i: int, j: int|
            0 <= i < j < names.len() ==> number_in(#[trigger] names[i]) != number_in(
                #[trigger] names[j],
            ),
        forall|i: int|
            0 <= i < names.len() ==> number_in(#[trigger] names[i]).unwrap() < names.len(),
        0 <= k < order.len(),
    ensures
        number_in(names[order[k] as int]).unwrap() <= k,
    decreases order.len() - k,
{
    assert(number_in(names[order[k] as int]).unwrap() < names.len());
    if k + 1 < order.len() {
        lemma_numbers_stay_low(names, order, k + 1);
        assert(precedes(names, order[k] as int, order[k + 1] as int));
    }
}

/// Where the names number the arguments from zero without gap, the argument
/// with number `k` comes in place `k`, wherever the runtime puts it.
pub proof fn numbered_arguments_come_in_place(names: Seq<Seq<char>>, order: Seq<usize>, k: int)
    requires
        is_argument_order(names, order),
        all_numbered(names),
        forall|i: int, j: int|
            0 <= i < j < names.len() ==> number_in(#[trigger] names[i]) != number_in(
                #[trigger] names[j],
            ),
        forall|i: int|
            0 <= i < names.len() ==> number_in(#[trigger] names[i]).unwrap() < names.len(),
        0 <= k < order.len(),
    ensures
        number_in(names[order[k] as int]) == Some(k as u64),
{
    lemma_numbers_climb(names, order, k);
    lemma_numbers_stay_low(names, order, k);
}

/// Orders the arguments of a signature by the numbers in their names.
///
/// The runtime lists arguments by name in dictionary order, where `args_10`
/// stands before `args_2`, while callers pass them by position. Where a name is
/// missing or holds no number the runtime's order stays.
pub fn argument_order(names: &Vec<String>) -> (r: Vec<usize>)
    ensures
        is_argument_order(texts(names@), r@),
        r@ == order_of(texts(names@)),
{
    let ghost all = texts(names@);
    let mut numbers: Vec<u64> = Vec::new();
    let mut numbered: bool = true;
    let mut i: usize = 0;
    while i < names.len()
        invariant
            i <= names.len(),
            all == texts(names@),
            numbers@.len() == i,
            numbered == (forall|k: int| 0 <= k < i ==> number_in(#[trigger] all[k]) is Some),
            numbered ==> forall|k: int|
                0 <= k < i ==> Some(#[trigger] numbers@[k]) == number_in(all[k]),
        decreases names.len() - i,
    {
        match number_of(names[i].as_str()) {
            Some(n) => {
                numbers.push(n);
            },
            None => {
                assert(number_in(all[i as int]) is None);
                numbered = false;
                numbers.push(0);
            },
        }
        i = i + 1;
    }
    assert(numbered == all_numbered(all));
    let mut order: Vec<usize> = Vec::new();
    let mut next: usize = 0;
    while next < names.len()
        invariant
            next <= names.len(),
            all == texts(names@),
            numbered == all_numbered(all),
            numbers@.len() == all.len(),
            numbered ==> forall|k: int|
                0 <= k < all.len() ==> Some(#[trigger] numbers@[k]) == number_in(all[k]),
            order@.len() == next,
            forall|k: int| 0 <= k < next ==> #[trigger] order@[k] < next,
            forall|a: int, b: int|
                0 <= a < b < next ==> precedes(
                    all,
                    #[trigger] order@[a] as int,
                    #[trigger] order@[b] as int,
                ),
        decreases names.len() - next,
    {
        let mut at: usize = next;
        while numbered && at > 0 && numbers[order[at - 1]] > numbers[next]
            invariant
                at <= next < names.len(),
                all == texts(names@),
                numbered == all_numbered(all),
                numbers@.len() == all.len(),
                numbered ==> forall|k: int|
                    0 <= k < all.len() ==> Some(#[trigger] numbers@[k]) == number_in(all[k]),
                order@.len() == next,
                forall|k: int| 0 <= k < next ==> #[trigger] order@[k] < next,
                forall|k: int|
                    at <= k < next ==> precedes(all, next as int, #[trigger] order@[k] as int),
            decreases at,
        {
            at = at - 1;
        }
        let ghost old_order = order@;
        proof {
            if at > 0 {
                assert(precedes(all, old_order[at - 1] as int, next as int));
                assert forall|k: int| 0 <= k < at implies precedes(
                    all,
                    #[trigger] old_order[k] as int,
                    next as int,
                ) by {
                    if k < at - 1 {
                        assert(precedes(all, old_order[k] as int, old_order[at - 1] as int));
                    }
                }
            }
        }
        order.insert(at, next);
        proof {
            assert forall|a: int, b: int| 0 <= a < b < next + 1 implies precedes(
                all,
                #[trigger] order@[a] as int,
                #[trigger] order@[b] as int,
            ) by {
                let a0 = if a < at {
                    a
                } else {
                    a - 1
                };
                let b0 = if b < at {
                    b
                } else {
                    b - 1
                };
                if a != at {
                    assert(order@[a] == old_order[a0]);
                }
                if b != at {
                    assert(order@[b] == old_order[b0]);
                }
            }
        }
        next = next + 1;
    }
    proof {
        order_is_unique(all, order@);
    }
    order
}

/// However many arguments there are: where each name holds a digit and no name's
/// digits spell more than 64 bits hold, the arguments come in the order of what
/// their digits spell, and in the runtime's where they spell the same. Each comes
/// once.
///
/// `values[i]` follows name `i` from left to right: `values[i][k]` is what the
/// digits among its first `k` characters spell. The character at `at[i]` is a
/// digit.
pub proof fn arguments_come_by_number(
    names: Vec<String>,
    values: Seq<Seq<nat>>,
    at: Seq<int>,
    r: Vec<usize>,
)
    requires
        call_ensures(argument_order, (&names,), r),
        values.len() == names@.len(),
        forall|i: int|
            0 <= i < names@.len() ==> (#[trigger] values[i]).len() == names@[i]@.len() + 1
                && values[i][0] == 0 && values[i].last() <= 0xffff_ffff_ffff_ffff,
        forall|i: int, k: int|
            0 <= i < names@.len() && 0 <= k < names@[i]@.len() ==> values[i][k + 1] == (if '0'
                <= #[trigger] names@[i]@[k] <= '9' {
                10 * values[i][k] + (names@[i]@[k] as int - '0' as int)
            } else {
                values[i][k] as int
            }),
        at.len() == names@.len(),
        forall|i: int|
            0 <= i < names@.len() ==> 0 <= #[trigger] at[i] < names@[i]@.len() && '0'
                <= names@[i]@[at[i]] <= '9',
    ensures
        r@.len() == names@.len(),
        forall|a: int| 0 <= a < r@.len() ==> #[trigger] r@[a] < names@.len(),
        forall|a: usize| a < names@.len() ==> #[trigger] r@.contains(a),
        forall|a: int, b: int|
            0 <= a < b < r@.len() ==> ({
                let x = values[#[trigger] r@[a] as int].last();
                let y = values[#[trigger] r@[b] as int].last();
                x < y || x == y && r@[a] < r@[b]
            }),
{
    let all = texts(names@);
    order_permutes(all, r@);
    assert forall|i: int| 0 <= i < all.len() implies number_in(#[trigger] all[i]) == Some(
        values[i].last() as u64,
    ) by {
        let s = names@[i]@;
        assert(all[i] == s);
        assert(values[i].len() == s.len() + 1);
        let v = values[i];
        assert forall|k: int| 0 <= k < s.len() implies v[k + 1] == (if '0' <= #[trigger] s[k]
            <= '9' {
            10 * v[k] + (s[k] as int - '0' as int)
        } else {
            v[k] as int
        }) by {
            assert(names@[i]@[k] == s[k]);
        }
        assert('0' <= s[at[i]] <= '9');
        digits_are_read_in_order(s, v);
    }
    assert(all_numbered(all));
    assert forall|a: int, b: int| 0 <= a < b < r@.len() implies ({
        let x = values[#[trigger] r@[a] as int].last();
        let y = values[#[trigger] r@[b] as int].last();
        x < y || x == y && r@[a] < r@[b]
    }) by {
        assert(precedes(all, r@[a] as int, r@[b] as int));
        assert(number_in(all[r@[a] as int]) == Some(values[r@[a] as int].last() as u64));
        assert(number_in(all[r@[b] as int]) == Some(values[r@[b] as int].last() as u64));
        assert(values[r@[a] as int].len() > 0 && values[r@[b] as int].len() > 0);
    }
}

/// Where the digits in the names of `n` arguments spell the numbers below `n`,
/// each once, the argument whose digits spell `k` comes in place `k`, wherever the
/// runtime puts it and however many there are.
pub proof fn counted_arguments_come_in_place(
    names: Vec<String>,
    values: Seq<Seq<nat>>,
    at: Seq<int>,
    r: Vec<usize>,
    k: int,
)
    requires
        call_ensures(argument_order, (&names,), r),
        values.len() == names@.len(),
        forall|i: int|
            0 <= i < names@.len() ==> (#[trigger] values[i]).len() == names@[i]@.len() + 1
                && values[i][0] == 0 && values[i].last() < names@.len(),
        forall|i: int, j: int|
            0 <= i < j < names@.len() ==> (#[trigger] values[i]).last() != (
            #[trigger] values[j]).last(),
        forall|i: int, k: int|
            0 <= i < names@.len() && 0 <= k < names@[i]@.len() ==> values[i][k + 1] == (if '0'
                <= #[trigger] names@[i]@[k] <= '9' {
                10 * values[i][k] + (names@[i]@[k] as int - '0' as int)
            } else {
                values[i][k] as int
            }),
        at.len() == names@.len(),
        forall|i: int|
            0 <= i < names@.len() ==> 0 <= #[trigger] at[i] < names@[i]@.len() && '0'
                <= names@[i]@[at[i]] <= '9',
        0 <= k < names@.len(),
    ensures
        r@.len() == names@.len(),
        r@[k] < names@.len(),
        values[r@[k] as int].last() == k,
{
    assert(names.len() == names@.len());
    arguments_come_by_number(names, values, at, r);
    lemma_values_climb(values, r@, k);
    lemma_values_stay_low(values, r@, k);
}

proof fn lemma_values_climb(values: Seq<Seq<nat>>, r: Seq<usize>, k: int)
    requires
        forall|a: int, b: int|
            0 <= a < b < r.len() ==> ({
                let x = values[#[trigger] r[a] as int].last();
                let y = values[#[trigger] r[b] as int].last();
                x < y || x == y && r[a] < r[b]
            }),
        r.len() == values.len(),
        forall|a: int| 0 <= a < r.len() ==> #[trigger] r[a] < values.len(),
        forall|i: int, j: int|
            0 <= i < j < values.len() ==> (#[trigger] values[i]).last() != (
            #[trigger] values[j]).last(),
        0 <= k < r.len(),
    ensures
        values[r[k] as int].last() >= k,
    decreases k,
{
    if k > 0 {
        lemma_values_climb(values, r, k - 1);
        assert(r[k - 1] < values.len() && r[k] < values.len());
        let x = values[r[k - 1] as int].last();
        let y = values[r[k] as int].last();
        assert(x < y || x == y && r[k - 1] < r[k]);
    }
}

proof fn lemma_values_stay_low(values: Seq<Seq<nat>>, r: Seq<usize>, k: int)
    requires
        forall|a: int, b: int|
            0 <= a < b < r.len() ==> ({
                let x = values[#[trigger] r[a] as int].last();
                let y = values[#[trigger] r[b] as int].last();
                x < y || x == y && r[a] < r[b]
            }),
        r.len() == values.len(),
        forall|a: int| 0 <= a < r.len() ==> #[trigger] r[a] < values.len(),
        forall|i: int, j: int|
            0 <= i < j < values.len() ==> (#[trigger] values[i]).last() != (
            #[trigger] values[j]).last(),
        forall|i: int| 0 <= i < values.len() ==> (#[trigger] values[i]).last() < values.len(),
        0 <= k < r.len(),
    ensures
        values[r[k] as int].last() <= k,
    decreases r.len() - k,
{
    assert(r[k] < values.len());
    assert(values[r[k] as int].last() < values.len());
    if k + 1 < r.len() {
        lemma_values_stay_low(values, r, k + 1);
        assert(r[k + 1] < values.len());
        let x = values[r[k] as int].last();
        let y = values[r[k + 1] as int].last();
        assert(x < y || x == y && r[k] < r[k + 1]);
    }
}

/// Where a name holds no digit, or its digits spell more than 64 bits hold, all
/// arguments stay where the runtime puts them.
pub proof fn unnumbered_arguments_stay(
    names: Vec<String>,
    r: Vec<usize>,
    i: int,
    values: Seq<nat>,
)
    requires
        call_ensures(argument_order, (&names,), r),
        0 <= i < names@.len(),
        values.len() == names@[i]@.len() + 1,
        values[0] == 0,
        forall|k: int|
            0 <= k < names@[i]@.len() ==> values[k + 1] == (if '0' <= #[trigger] names@[i]@[k]
                <= '9' {
                10 * values[k] + (names@[i]@[k] as int - '0' as int)
            } else {
                values[k] as int
            }),
        values.last() > 0xffff_ffff_ffff_ffff || forall|k: int|
            0 <= k < names@[i]@.len() ==> !('0' <= #[trigger] names@[i]@[k] <= '9'),
    ensures
        r@.len() == names@.len(),
        forall|k: int| 0 <= k < r@.len() ==> #[trigger] r@[k] == k,
{
    let all = texts(names@);
    assert(all[i] == names@[i]@);
    digits_are_read_in_order(names@[i]@, values);
    assert(number_in(all[i]) is None);
    assert(!all_numbered(all));
    assert(names.len() == names@.len());
    let stay = Seq::new(all.len(), |k: int| k as usize);
    assert(is_argument_order(all, stay));
    order_is_unique(all, stay);
}

} // verus!
