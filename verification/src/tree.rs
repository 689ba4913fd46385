use crate::structures::CityView;
use crate::text::{lemma_str_lt_irreflexive, lemma_str_lt_transitive, str_lt};
use vstd::prelude::*;

verus! {

/// A county of the tree as plain values: its name and its cities.
pub type CountyV = (Seq<char>, Seq<CityView>);

/// A state of the tree as plain values: its name and its counties.
pub type StateV = (Seq<char>, Seq<CountyV>);

/// Some key equals `key`.
pub open spec fn has_key<V>(entries: Seq<(Seq<char>, V)>, key: Seq<char>) -> bool {
    exists|i: int| 0 <= i < entries.len() && #[trigger] entries[i].0 == key
}

/// The value stored under `key`, or nothing when no entry has that key.
pub open spec fn lookup<V>(entries: Seq<(Seq<char>, Seq<V>)>, key: Seq<char>) -> Seq<V> {
    if has_key(entries, key) {
        entries[choose|i: int| 0 <= i < entries.len() && #[trigger] entries[i].0 == key].1
    } else {
        Seq::empty()
    }
}

/// The keys strictly increase, as the keys of a `BTreeMap` come out.
pub open spec fn keys_sorted<V>(entries: Seq<(Seq<char>, V)>) -> bool {
    forall|i: int, j: int|
        #![trigger entries[i], entries[j]]
        0 <= i < j < entries.len() ==> str_lt(entries[i].0, entries[j].0)
}

/// Every city of the county lies in that state and that county, and there is one.
pub open spec fn county_wf(state: Seq<char>, county: CountyV) -> bool {
    &&& county.1.len() > 0
    &&& forall|m: int|
        0 <= m < county.1.len() ==> (#[trigger] county.1[m]).state == state && county.1[m].country
            == county.0
}

/// The counties of the state are sorted, not empty, and hold its cities only.
pub open spec fn state_wf(st: StateV) -> bool {
    &&& st.1.len() > 0
    &&& keys_sorted(st.1)
    &&& forall|j: int| 0 <= j < st.1.len() ==> county_wf(st.0, #[trigger] st.1[j])
}

/// The states are sorted and each of them is well formed.
pub open spec fn tree_wf(t: Seq<StateV>) -> bool {
    &&& keys_sorted(t)
    &&& forall|i: int| 0 <= i < t.len() ==> state_wf(#[trigger] t[i])
}

/// The cities filed under state `s` and county `c`.
pub open spec fn cities_at(t: Seq<StateV>, s: Seq<char>, c: Seq<char>) -> Seq<CityView> {
    lookup(lookup(t, s), c)
}

/// The cities of state `s` and county `c`.
pub open spec fn in_group(s: Seq<char>, c: Seq<char>) -> spec_fn(CityView) -> bool {
    |x: CityView| x.state == s && x.country == c
}

/// `t` files each city of `cities` under its state and county, in the order of `cities`,
/// and holds nothing else.
pub open spec fn groups(t: Seq<StateV>, cities: Seq<CityView>) -> bool {
    &&& tree_wf(t)
    &&& forall|s: Seq<char>, c: Seq<char>|
        #[trigger] cities_at(t, s, c) == cities.filter(in_group(s, c))
}

pub proof fn lemma_sorted_keys_unique<V>(entries: Seq<(Seq<char>, V)>, i: int, j: int)
    requires
        keys_sorted(entries),
        0 <= i < entries.len(),
        0 <= j < entries.len(),
        entries[i].0 == entries[j].0,
    ensures
        i == j,
{
    if i < j {
        lemma_str_lt_irreflexive(entries[i].0);
    } else if j < i {
        lemma_str_lt_irreflexive(entries[i].0);
    }
}

pub proof fn lemma_lookup_at<V>(entries: Seq<(Seq<char>, Seq<V>)>, i: int)
    requires
        keys_sorted(entries),
        0 <= i < entries.len(),
    ensures
        has_key(entries, entries[i].0),
        lookup(entries, entries[i].0) == entries[i].1,
{
    let key = entries[i].0;
    assert(has_key(entries, key));
    let c = choose|c: int| 0 <= c < entries.len() && #[trigger] entries[c].0 == key;
    lemma_sorted_keys_unique(entries, i, c);
}

/// Replacing the value of one entry changes the lookup of its key only.
pub proof fn lemma_lookup_update<V>(entries: Seq<(Seq<char>, Seq<V>)>, j: int, v: Seq<V>, k: Seq<char>)
    requires
        keys_sorted(entries),
        0 <= j < entries.len(),
    ensures
        keys_sorted(entries.update(j, (entries[j].0, v))),
        lookup(entries.update(j, (entries[j].0, v)), k) == if k == entries[j].0 {
            v
        } else {
            lookup(entries, k)
        },
{
    let new = entries.update(j, (entries[j].0, v));
    assert forall|a: int, b: int| 0 <= a < b < new.len() implies str_lt(new[a].0, new[b].0) by {
        assert(entries[a].0 == new[a].0);
        assert(entries[b].0 == new[b].0);
    }
    if k == entries[j].0 {
        lemma_lookup_at(new, j);
    } else if has_key(entries, k) {
        let i = choose|i: int| 0 <= i < entries.len() && #[trigger] entries[i].0 == k;
        lemma_lookup_at(entries, i);
        lemma_lookup_at(new, i);
    } else {
        assert forall|i: int| 0 <= i < new.len() implies #[trigger] new[i].0 != k by {
            if i != j {
                assert(new[i] == entries[i]);
            }
        }
    }
}

/// Inserting a new key at its place in the order keeps the keys sorted and adds
/// that key only.
pub proof fn lemma_lookup_insert<V>(
    entries: Seq<(Seq<char>, Seq<V>)>,
    j: int,
    key: Seq<char>,
    v: Seq<V>,
    k: Seq<char>,
)
    requires
        keys_sorted(entries),
        0 <= j <= entries.len(),
        forall|i: int| 0 <= i < j ==> str_lt(#[trigger] entries[i].0, key),
        forall|i: int| j <= i < entries.len() ==> str_lt(key, #[trigger] entries[i].0),
    ensures
        !has_key(entries, key),
        keys_sorted(entries.insert(j, (key, v))),
        lookup(entries.insert(j, (key, v)), k) == if k == key {
            v
        } else {
            lookup(entries, k)
        },
{
    let new = entries.insert(j, (key, v));
    assert forall|i: int| 0 <= i < entries.len() implies #[trigger] entries[i].0 != key by {
        lemma_str_lt_irreflexive(key);
    }
    assert forall|a: int, b: int| 0 <= a < b < new.len() implies str_lt(new[a].0, new[b].0) by {
        if b < j {
            assert(new[a] == entries[a] && new[b] == entries[b]);
        } else if b == j {
            assert(new[a] == entries[a]);
        } else if a < j {
            assert(new[a] == entries[a] && new[b] == entries[b - 1]);
            lemma_str_lt_transitive(entries[a].0, key, entries[b - 1].0);
        } else if a == j {
            assert(new[b] == entries[b - 1]);
        } else {
            assert(new[a] == entries[a - 1] && new[b] == entries[b - 1]);
        }
    }
    if k == key {
        lemma_lookup_at(new, j);
    } else if has_key(entries, k) {
        let i = choose|i: int| 0 <= i < entries.len() && #[trigger] entries[i].0 == k;
        lemma_lookup_at(entries, i);
        if i < j {
            assert(new[i] == entries[i]);
            lemma_lookup_at(new, i);
        } else {
            assert(new[i + 1] == entries[i]);
            lemma_lookup_at(new, i + 1);
        }
    } else {
        assert forall|i: int| 0 <= i < new.len() implies #[trigger] new[i].0 != k by {
            if i < j {
                assert(new[i] == entries[i]);
            } else if i > j {
                assert(new[i] == entries[i - 1]);
            }
        }
    }
}

} // verus!

verus! {

/// Where city `x` goes: the list of its state and county gets it at the end.
pub open spec fn filed(t: Seq<StateV>, x: CityView, s: Seq<char>, c: Seq<char>) -> Seq<CityView> {
    if s == x.state && c == x.country {
        cities_at(t, s, c).push(x)
    } else {
        cities_at(t, s, c)
    }
}

/// Filing a city in a county that is already there.
pub proof fn lemma_file_in_county(t: Seq<StateV>, i: int, j: int, x: CityView)
    requires
        tree_wf(t),
        0 <= i < t.len(),
        t[i].0 == x.state,
        0 <= j < t[i].1.len(),
        t[i].1[j].0 == x.country,
    ensures
        ({
            let cs = t[i].1;
            let t2 = t.update(i, (t[i].0, cs.update(j, (cs[j].0, cs[j].1.push(x)))));
            &&& tree_wf(t2)
            &&& forall|s: Seq<char>, c: Seq<char>| #[trigger]
                cities_at(t2, s, c) == filed(t, x, s, c)
        }),
{
    let cs = t[i].1;
    let l2 = cs[j].1.push(x);
    let cs2 = cs.update(j, (cs[j].0, l2));
    let t2 = t.update(i, (t[i].0, cs2));
    assert(state_wf(t[i]));
    assert(county_wf(t[i].0, cs[j]));
    lemma_lookup_update(cs, j, l2, x.country);
    assert(county_wf(t[i].0, cs2[j]));
    assert(state_wf(t2[i])) by {
        assert forall|k: int| 0 <= k < cs2.len() implies county_wf(t[i].0, #[trigger] cs2[k]) by {
            if k != j {
                assert(cs2[k] == cs[k]);
                assert(county_wf(t[i].0, cs[k]));
            }
        }
    }
    lemma_lookup_update(t, i, cs2, x.state);
    assert(tree_wf(t2)) by {
        assert forall|k: int| 0 <= k < t2.len() implies state_wf(#[trigger] t2[k]) by {
            if k != i {
                assert(t2[k] == t[k]);
                assert(state_wf(t[k]));
            }
        }
    }
    lemma_lookup_at(t, i);
    lemma_lookup_at(cs, j);
    assert forall|s: Seq<char>, c: Seq<char>| #[trigger] cities_at(t2, s, c) == filed(t, x, s, c) by {
        lemma_lookup_update(t, i, cs2, s);
        if s == x.state {
            lemma_lookup_update(cs, j, l2, c);
        }
    }
}

/// Filing a city in a state that is there, under a county that is new.
pub proof fn lemma_file_new_county(t: Seq<StateV>, i: int, j: int, x: CityView)
    requires
        tree_wf(t),
        0 <= i < t.len(),
        t[i].0 == x.state,
        0 <= j <= t[i].1.len(),
        forall|k: int| 0 <= k < j ==> str_lt(#[trigger] t[i].1[k].0, x.country),
        forall|k: int| j <= k < t[i].1.len() ==> str_lt(x.country, #[trigger] t[i].1[k].0),
    ensures
        ({
            let cs = t[i].1;
            let t2 = t.update(i, (t[i].0, cs.insert(j, (x.country, seq![x]))));
            &&& tree_wf(t2)
            &&& forall|s: Seq<char>, c: Seq<char>| #[trigger]
                cities_at(t2, s, c) == filed(t, x, s, c)
        }),
{
    let cs = t[i].1;
    let cs2 = cs.insert(j, (x.country, seq![x]));
    let t2 = t.update(i, (t[i].0, cs2));
    assert(state_wf(t[i]));
    lemma_lookup_insert(cs, j, x.country, seq![x], x.country);
    assert(state_wf(t2[i])) by {
        assert forall|k: int| 0 <= k < cs2.len() implies county_wf(t[i].0, #[trigger] cs2[k]) by {
            if k < j {
                assert(cs2[k] == cs[k]);
                assert(county_wf(t[i].0, cs[k]));
            } else if k > j {
                assert(cs2[k] == cs[k - 1]);
                assert(county_wf(t[i].0, cs[k - 1]));
            }
        }
    }
    lemma_lookup_update(t, i, cs2, x.state);
    assert(tree_wf(t2)) by {
        assert forall|k: int| 0 <= k < t2.len() implies state_wf(#[trigger] t2[k]) by {
            if k != i {
                assert(t2[k] == t[k]);
                assert(state_wf(t[k]));
            }
        }
    }
    lemma_lookup_at(t, i);
    assert forall|s: Seq<char>, c: Seq<char>| #[trigger] cities_at(t2, s, c) == filed(t, x, s, c) by {
        lemma_lookup_update(t, i, cs2, s);
        if s == x.state {
            lemma_lookup_insert(cs, j, x.country, seq![x], c);
            if c == x.country {
                assert(lookup(cs, c) == Seq::<CityView>::empty());
                assert(seq![x] =~= Seq::<CityView>::empty().push(x));
            }
        }
    }
}

/// Filing a city under a state that is new.
pub proof fn lemma_file_new_state(t: Seq<StateV>, i: int, x: CityView)
    requires
        tree_wf(t),
        0 <= i <= t.len(),
        forall|k: int| 0 <= k < i ==> str_lt(#[trigger] t[k].0, x.state),
        forall|k: int| i <= k < t.len() ==> str_lt(x.state, #[trigger] t[k].0),
    ensures
        ({
            let t2 = t.insert(i, (x.state, seq![(x.country, seq![x])]));
            &&& tree_wf(t2)
            &&& forall|s: Seq<char>, c: Seq<char>| #[trigger]
                cities_at(t2, s, c) == filed(t, x, s, c)
        }),
{
    let cs2: Seq<CountyV> = seq![(x.country, seq![x])];
    let t2 = t.insert(i, (x.state, cs2));
    lemma_lookup_insert(t, i, x.state, cs2, x.state);
    assert(state_wf(t2[i])) by {
        assert(county_wf(x.state, cs2[0]));
    }
    assert(tree_wf(t2)) by {
        assert forall|k: int| 0 <= k < t2.len() implies state_wf(#[trigger] t2[k]) by {
            if k < i {
                assert(t2[k] == t[k]);
                assert(state_wf(t[k]));
            } else if k > i {
                assert(t2[k] == t[k - 1]);
                assert(state_wf(t[k - 1]));
            }
        }
    }
    assert forall|s: Seq<char>, c: Seq<char>| #[trigger] cities_at(t2, s, c) == filed(t, x, s, c) by {
        lemma_lookup_insert(t, i, x.state, cs2, s);
        if s == x.state {
            lemma_lookup_at(cs2, 0);
            if c != x.country {
                assert(!has_key(cs2, c));
            }
            assert(seq![x] =~= Seq::<CityView>::empty().push(x));
        }
    }
}

} // verus!

verus! {

/// Cities called `n`.
pub open spec fn named(n: Seq<char>) -> spec_fn(CityView) -> bool {
    |x: CityView| x.name == n
}

/// The names never decrease.
pub open spec fn sorted_by_name(s: Seq<CityView>) -> bool {
    forall|a: int, b: int|
        #![trigger s[a], s[b]]
        0 <= a < b < s.len() ==> crate::text::str_le(s[a].name, s[b].name)
}

/// `out` is `input` sorted by name, where cities of the same name keep their order
/// (what a stable sort by name gives).
pub open spec fn stable_name_sort(out: Seq<CityView>, input: Seq<CityView>) -> bool {
    &&& sorted_by_name(out)
    &&& out.to_multiset() == input.to_multiset()
    &&& forall|n: Seq<char>| #[trigger] out.filter(named(n)) == input.filter(named(n))
}

/// The county `g` of the answer is the county `t` of the tree, its cities sorted by name.
pub open spec fn county_copy(g: CountyV, t: CountyV) -> bool {
    g.0 == t.0 && stable_name_sort(g.1, t.1)
}

/// The state `g` of the answer is the state `t` of the tree, county by county.
pub open spec fn state_copy(g: StateV, t: StateV) -> bool {
    &&& g.0 == t.0
    &&& g.1.len() == t.1.len()
    &&& forall|j: int| 0 <= j < g.1.len() ==> county_copy(#[trigger] g.1[j], t.1[j])
}

/// The answer `g` holds the states and counties of the tree `t` in the same order,
/// each county's cities sorted by name.
pub open spec fn gql_of(g: Seq<StateV>, t: Seq<StateV>) -> bool {
    &&& g.len() == t.len()
    &&& forall|i: int| 0 <= i < g.len() ==> state_copy(#[trigger] g[i], t[i])
}

/// A filter that keeps nothing is empty.
pub proof fn lemma_filter_none<A>(s: Seq<A>, p: spec_fn(A) -> bool)
    requires
        forall|k: int| 0 <= k < s.len() ==> !p(#[trigger] s[k]),
    ensures
        s.filter(p) == Seq::<A>::empty(),
{
    broadcast use vstd::seq_lib::group_filter_ensures;

    if s.filter(p).len() > 0 {
        let e = s.filter(p)[0];
        assert(s.filter(p).contains(e));
        assert(p(e));
        s.lemma_filter_contains_rev(p, e);
    }
    assert(s.filter(p) =~= Seq::<A>::empty());
}

/// Inserting `x` after every city whose name is not greater, and before every city
/// whose name is greater, keeps the order and the cities of each name in their order.
pub proof fn lemma_insert_by_name(s: Seq<CityView>, p: int, x: CityView)
    requires
        sorted_by_name(s),
        0 <= p <= s.len(),
        forall|k: int| p <= k < s.len() ==> crate::text::str_lt(x.name, #[trigger] s[k].name),
        p > 0 ==> crate::text::str_le(s[p - 1].name, x.name),
    ensures
        sorted_by_name(s.insert(p, x)),
        s.insert(p, x).to_multiset() == s.to_multiset().insert(x),
        forall|n: Seq<char>| #[trigger]
            s.insert(p, x).filter(named(n)) == if x.name == n {
                s.filter(named(n)).push(x)
            } else {
                s.filter(named(n))
            },
{
    broadcast use vstd::seq_lib::to_multiset_insert;

    let s2 = s.insert(p, x);
    assert forall|a: int, b: int|
        #![trigger s2[a], s2[b]]
        0 <= a < b < s2.len() implies crate::text::str_le(s2[a].name, s2[b].name) by {
        if a < p && b == p {
            crate::text::lemma_str_le_transitive(s[a].name, s[p - 1].name, x.name);
        } else if a == p {
            if crate::text::str_lt(s2[b].name, x.name) {
                crate::text::lemma_str_lt_transitive(x.name, s2[b].name, x.name);
                crate::text::lemma_str_lt_irreflexive(x.name);
            }
        } else if a < p {
            assert(s2[a] == s[a]);
            if b < p {
                assert(s2[b] == s[b]);
            } else {
                assert(s2[b] == s[b - 1]);
            }
        } else {
            assert(s2[a] == s[a - 1] && s2[b] == s[b - 1]);
        }
    }
    let pre = s.take(p);
    let post = s.skip(p);
    assert(s =~= pre + post);
    assert(s2 =~= pre + (seq![x] + post));
    assert forall|n: Seq<char>| #[trigger]
        s.insert(p, x).filter(named(n)) == if x.name == n {
            s.filter(named(n)).push(x)
        } else {
            s.filter(named(n))
        } by {
        let q = named(n);
        Seq::filter_distributes_over_add(pre, seq![x] + post, q);
        Seq::filter_distributes_over_add(seq![x], post, q);
        Seq::filter_distributes_over_add(pre, post, q);
        assert(seq![x] =~= Seq::<CityView>::empty().push(x));
        Seq::<CityView>::empty().lemma_filter_push(x, q);
        assert(Seq::<CityView>::empty().filter(q) =~= Seq::<CityView>::empty()) by {
            lemma_filter_none(Seq::<CityView>::empty(), q);
        }
        if x.name == n {
            assert forall|k: int| 0 <= k < post.len() implies !q(#[trigger] post[k]) by {
                assert(post[k] == s[p + k]);
                crate::text::lemma_str_lt_irreflexive(x.name);
            }
            lemma_filter_none(post, q);
            assert(pre.filter(q) + seq![x] =~= pre.filter(q).push(x));
            assert(s.filter(q) =~= pre.filter(q) + post.filter(q));
        } else {
            assert(seq![x].filter(q) =~= Seq::<CityView>::empty());
        }
    }
}

} // verus!

verus! {

/// All cities of the counties, county after county.
pub open spec fn flatten_counties(cs: Seq<CountyV>) -> Seq<CityView>
    decreases cs.len(),
{
    if cs.len() == 0 {
        Seq::empty()
    } else {
        flatten_counties(cs.drop_last()) + cs.last().1
    }
}

/// All cities of the tree, state after state.
pub open spec fn flatten_tree(t: Seq<StateV>) -> Seq<CityView>
    decreases t.len(),
{
    if t.len() == 0 {
        Seq::empty()
    } else {
        flatten_tree(t.drop_last()) + flatten_counties(t.last().1)
    }
}

/// How often `x` is in what a filter keeps.
pub proof fn lemma_filter_count<A>(s: Seq<A>, p: spec_fn(A) -> bool, x: A)
    ensures
        s.filter(p).to_multiset().count(x) == if p(x) {
            s.to_multiset().count(x)
        } else {
            0
        },
    decreases s.len(),
{
    broadcast use vstd::seq_lib::to_multiset_build, vstd::multiset::group_multiset_axioms;

    if s.len() == 0 {
        lemma_filter_none(s, p);
        lemma_empty_count(s, x);
        lemma_empty_count(s.filter(p), x);
    } else {
        let dl = s.drop_last();
        assert(s =~= dl.push(s.last()));
        lemma_filter_count(dl, p, x);
        dl.lemma_filter_push(s.last(), p);
    }
}

/// An empty sequence holds nothing.
pub proof fn lemma_empty_count<A>(s: Seq<A>, x: A)
    requires
        s.len() == 0,
    ensures
        s.to_multiset().count(x) == 0,
{
    broadcast use vstd::seq_lib::to_multiset_contains;

    assert(!s.contains(x));
}

/// A list whose cities all differ from `x` does not hold `x`.
pub proof fn lemma_count_absent(l: Seq<CityView>, x: CityView)
    requires
        forall|m: int| 0 <= m < l.len() ==> #[trigger] l[m] != x,
    ensures
        l.to_multiset().count(x) == 0,
{
    broadcast use vstd::seq_lib::to_multiset_contains;

    assert(!l.contains(x));
}

proof fn lemma_prefix_sorted<V>(entries: Seq<(Seq<char>, V)>)
    requires
        keys_sorted(entries),
        entries.len() > 0,
    ensures
        keys_sorted(entries.drop_last()),
        forall|i: int|
            0 <= i < entries.len() - 1 ==> str_lt(
                #[trigger] entries.drop_last()[i].0,
                entries.last().0,
            ),
{
    let dl = entries.drop_last();
    assert forall|i: int, j: int| 0 <= i < j < dl.len() implies str_lt(dl[i].0, dl[j].0) by {
        assert(dl[i] == entries[i] && dl[j] == entries[j]);
    }
    assert forall|i: int| 0 <= i < entries.len() - 1 implies str_lt(
        #[trigger] dl[i].0,
        entries.last().0,
    ) by {
        assert(dl[i] == entries[i]);
    }
}

/// Dropping the last entry leaves the lookups of the other keys as they were.
proof fn lemma_lookup_drop_last<V>(entries: Seq<(Seq<char>, Seq<V>)>, k: Seq<char>)
    requires
        keys_sorted(entries),
        entries.len() > 0,
    ensures
        k == entries.last().0 ==> lookup(entries, k) == entries.last().1 && lookup(
            entries.drop_last(),
            k,
        ) == Seq::<V>::empty(),
        k != entries.last().0 ==> lookup(entries, k) == lookup(entries.drop_last(), k),
{
    let dl = entries.drop_last();
    lemma_prefix_sorted(entries);
    if k == entries.last().0 {
        lemma_lookup_at(entries, entries.len() - 1);
        assert forall|i: int| 0 <= i < dl.len() implies #[trigger] dl[i].0 != k by {
            lemma_str_lt_irreflexive(k);
        }
    } else if has_key(dl, k) {
        let i = choose|i: int| 0 <= i < dl.len() && #[trigger] dl[i].0 == k;
        lemma_lookup_at(dl, i);
        assert(entries[i] == dl[i]);
        lemma_lookup_at(entries, i);
    } else {
        assert forall|i: int| 0 <= i < entries.len() implies #[trigger] entries[i].0 != k by {
            if i < dl.len() {
                assert(entries[i] == dl[i]);
            }
        }
    }
}

/// In the counties of state `s`, a city of `s` is found only in the list of its county.
proof fn lemma_flatten_counties_count(cs: Seq<CountyV>, s: Seq<char>, x: CityView)
    requires
        keys_sorted(cs),
        forall|j: int| 0 <= j < cs.len() ==> county_wf(s, #[trigger] cs[j]),
    ensures
        flatten_counties(cs).to_multiset().count(x) == if x.state == s {
            lookup(cs, x.country).to_multiset().count(x)
        } else {
            0
        },
    decreases cs.len(),
{
    broadcast use vstd::seq_lib::lemma_multiset_commutative, vstd::multiset::group_multiset_axioms;

    if cs.len() == 0 {
        lemma_empty_count(flatten_counties(cs), x);
        lemma_empty_count(Seq::<CityView>::empty(), x);
    } else {
        let dl = cs.drop_last();
        let last = cs.last();
        lemma_prefix_sorted(cs);
        assert forall|j: int| 0 <= j < dl.len() implies county_wf(s, #[trigger] dl[j]) by {
            assert(dl[j] == cs[j]);
        }
        lemma_flatten_counties_count(dl, s, x);
        assert(county_wf(s, cs[cs.len() - 1]));
        lemma_lookup_drop_last(cs, x.country);
        if !(x.state == s && last.0 == x.country) {
            assert forall|m: int| 0 <= m < last.1.len() implies #[trigger] last.1[m] != x by {}
            lemma_count_absent(last.1, x);
        }
        lemma_empty_count(Seq::<CityView>::empty(), x);
    }
}

/// In the tree, a city is found only in the list of its state and county.
proof fn lemma_flatten_tree_count(t: Seq<StateV>, x: CityView)
    requires
        tree_wf(t),
    ensures
        flatten_tree(t).to_multiset().count(x) == cities_at(t, x.state, x.country).to_multiset().count(x),
    decreases t.len(),
{
    broadcast use vstd::seq_lib::lemma_multiset_commutative, vstd::multiset::group_multiset_axioms;

    lemma_empty_count(Seq::<CityView>::empty(), x);
    if t.len() == 0 {
        lemma_empty_count(flatten_tree(t), x);
        lemma_empty_count(cities_at(t, x.state, x.country), x);
    } else {
        let dl = t.drop_last();
        let last = t.last();
        lemma_prefix_sorted(t);
        assert(tree_wf(dl)) by {
            assert forall|i: int| 0 <= i < dl.len() implies state_wf(#[trigger] dl[i]) by {
                assert(dl[i] == t[i]);
            }
        }
        lemma_flatten_tree_count(dl, x);
        assert(state_wf(t[t.len() - 1]));
        lemma_flatten_counties_count(last.1, last.0, x);
        lemma_lookup_drop_last(t, x.state);
    }
}

/// `g` is the GraphQL answer for `cities`: the tree that groups them, with each
/// county's cities sorted by name.
pub open spec fn answer_of(g: Seq<StateV>, cities: Seq<CityView>) -> bool {
    exists|t: Seq<StateV>| #[trigger] groups(t, cities) && gql_of(g, t)
}

/// The answer holds, state by state and county by county, the cities of the tree.
proof fn lemma_copy_keeps_cities(g: Seq<StateV>, t: Seq<StateV>)
    requires
        gql_of(g, t),
    ensures
        flatten_tree(g).to_multiset() == flatten_tree(t).to_multiset(),
    decreases t.len(),
{
    broadcast use vstd::seq_lib::lemma_multiset_commutative;

    if t.len() > 0 {
        let gl = g.drop_last();
        let tl = t.drop_last();
        assert(gql_of(gl, tl)) by {
            assert forall|i: int| 0 <= i < gl.len() implies state_copy(#[trigger] gl[i], tl[i]) by {
                assert(gl[i] == g[i] && tl[i] == t[i]);
            }
        }
        lemma_copy_keeps_cities(gl, tl);
        assert(state_copy(g[g.len() - 1], t[t.len() - 1]));
        lemma_state_copy_keeps_cities(g.last().1, t.last().1);
    }
}

proof fn lemma_state_copy_keeps_cities(gc: Seq<CountyV>, tc: Seq<CountyV>)
    requires
        gc.len() == tc.len(),
        forall|j: int| 0 <= j < gc.len() ==> county_copy(#[trigger] gc[j], tc[j]),
    ensures
        flatten_counties(gc).to_multiset() == flatten_counties(tc).to_multiset(),
    decreases tc.len(),
{
    broadcast use vstd::seq_lib::lemma_multiset_commutative;

    if tc.len() > 0 {
        let gl = gc.drop_last();
        let tl = tc.drop_last();
        assert forall|j: int| 0 <= j < gl.len() implies county_copy(#[trigger] gl[j], tl[j]) by {
            assert(gl[j] == gc[j] && tl[j] == tc[j]);
        }
        lemma_state_copy_keeps_cities(gl, tl);
        assert(county_copy(gc[gc.len() - 1], tc[tc.len() - 1]));
    }
}

/// No city is lost or made up on the way from the input to the GraphQL answer: the
/// cities of the answer, taken together, are the input cities, each as often as there.
pub proof fn lemma_answer_keeps_cities(cities: Seq<CityView>, g: Seq<StateV>)
    requires
        answer_of(g, cities),
    ensures
        flatten_tree(g).to_multiset() == cities.to_multiset(),
{
    let t = choose|t: Seq<StateV>| #[trigger] groups(t, cities) && gql_of(g, t);
    lemma_copy_keeps_cities(g, t);
    assert forall|x: CityView| #[trigger] flatten_tree(t).to_multiset().count(x)
        == cities.to_multiset().count(x) by {
        lemma_flatten_tree_count(t, x);
        assert(cities_at(t, x.state, x.country) == cities.filter(in_group(x.state, x.country)));
        lemma_filter_count(cities, in_group(x.state, x.country), x);
    }
    assert(flatten_tree(t).to_multiset() =~= cities.to_multiset());
}

} // verus!

verus! {

/// The answer lists the states in increasing order and, in each state, the counties
/// in increasing order, none of them empty; each county holds exactly the input cities
/// of its state and county, sorted by name, cities of one name in input order.
pub proof fn lemma_answer_groups(cities: Seq<CityView>, g: Seq<StateV>)
    requires
        answer_of(g, cities),
    ensures
        keys_sorted(g),
        forall|i: int| 0 <= i < g.len() ==> (#[trigger] g[i]).1.len() > 0 && keys_sorted(g[i].1),
        forall|i: int, j: int|
            0 <= i < g.len() && 0 <= j < g[i].1.len() ==> #[trigger] g[i].1[j].1.len() > 0
                && stable_name_sort(g[i].1[j].1, cities.filter(in_group(g[i].0, g[i].1[j].0))),
{
    broadcast use vstd::seq_lib::to_multiset_len;

    let t = choose|t: Seq<StateV>| #[trigger] groups(t, cities) && gql_of(g, t);
    assert forall|a: int, b: int| 0 <= a < b < g.len() implies str_lt(g[a].0, g[b].0) by {
        assert(state_copy(g[a], t[a]) && state_copy(g[b], t[b]));
    }
    assert forall|i: int| 0 <= i < g.len() implies (#[trigger] g[i]).1.len() > 0 && keys_sorted(
        g[i].1,
    ) by {
        assert(state_copy(g[i], t[i]));
        assert(state_wf(t[i]));
        assert forall|a: int, b: int| 0 <= a < b < g[i].1.len() implies str_lt(
            g[i].1[a].0,
            g[i].1[b].0,
        ) by {
            assert(county_copy(g[i].1[a], t[i].1[a]) && county_copy(g[i].1[b], t[i].1[b]));
        }
    }
    assert forall|i: int, j: int| 0 <= i < g.len() && 0 <= j < g[i].1.len() implies #[trigger] g[i].1[j].1.len() > 0
        && stable_name_sort(g[i].1[j].1, cities.filter(in_group(g[i].0, g[i].1[j].0))) by {
        assert(state_copy(g[i], t[i]));
        assert(county_copy(g[i].1[j], t[i].1[j]));
        assert(state_wf(t[i]));
        assert(county_wf(t[i].0, t[i].1[j]));
        lemma_lookup_at(t, i);
        lemma_lookup_at(t[i].1, j);
        assert(cities_at(t, t[i].0, t[i].1[j].0) == t[i].1[j].1);
        assert(g[i].1[j].1.to_multiset().len() == t[i].1[j].1.to_multiset().len());
    }
}

} // verus!

verus! {

/// A key of the entries other than the last one is a key of all but the last entry.
proof fn lemma_has_key_drop_last<V>(entries: Seq<(Seq<char>, V)>, k: Seq<char>)
    requires
        keys_sorted(entries),
        entries.len() > 0,
    ensures
        has_key(entries.drop_last(), k) <==> (has_key(entries, k) && k != entries.last().0),
{
    let dl = entries.drop_last();
    lemma_prefix_sorted(entries);
    if has_key(dl, k) {
        let i = choose|i: int| 0 <= i < dl.len() && #[trigger] dl[i].0 == k;
        assert(entries[i] == dl[i]);
        lemma_str_lt_irreflexive(k);
    }
    if has_key(entries, k) && k != entries.last().0 {
        let i = choose|i: int| 0 <= i < entries.len() && #[trigger] entries[i].0 == k;
        assert(dl[i] == entries[i]);
    }
}

/// Two lists of strictly increasing keys that have the same keys have them in the
/// same places.
proof fn lemma_same_keys<V>(a: Seq<(Seq<char>, V)>, b: Seq<(Seq<char>, V)>)
    requires
        keys_sorted(a),
        keys_sorted(b),
        forall|k: Seq<char>| has_key(a, k) <==> has_key(b, k),
    ensures
        a.len() == b.len(),
        forall|i: int| 0 <= i < a.len() ==> #[trigger] a[i].0 == b[i].0,
    decreases a.len(),
{
    if a.len() == 0 {
        if b.len() > 0 {
            assert(has_key(b, b[0].0));
        }
    } else {
        assert(has_key(a, a.last().0));
        assert(b.len() > 0);
        assert(has_key(b, b.last().0));
        if a.last().0 != b.last().0 {
            let i = choose|i: int| 0 <= i < a.len() && #[trigger] a[i].0 == b.last().0;
            let j = choose|j: int| 0 <= j < b.len() && #[trigger] b[j].0 == a.last().0;
            assert(str_lt(a[i].0, a.last().0));
            assert(str_lt(b[j].0, b.last().0));
            lemma_str_lt_transitive(a.last().0, b.last().0, a.last().0);
            lemma_str_lt_irreflexive(a.last().0);
        }
        assert forall|k: Seq<char>| has_key(a.drop_last(), k) <==> has_key(b.drop_last(), k) by {
            lemma_has_key_drop_last(a, k);
            lemma_has_key_drop_last(b, k);
        }
        lemma_prefix_sorted(a);
        lemma_prefix_sorted(b);
        lemma_same_keys(a.drop_last(), b.drop_last());
        assert forall|i: int| 0 <= i < a.len() implies #[trigger] a[i].0 == b[i].0 by {
            if i < a.len() - 1 {
                assert(a[i] == a.drop_last()[i] && b[i] == b.drop_last()[i]);
            }
        }
    }
}

/// In a well-formed tree, a state is there exactly when it has a county with cities,
/// and a county of a state is there exactly when it has cities.
proof fn lemma_keys_have_cities(t: Seq<StateV>, s: Seq<char>, c: Seq<char>)
    requires
        tree_wf(t),
    ensures
        has_key(t, s) ==> cities_at(t, s, lookup(t, s)[0].0).len() > 0,
        cities_at(t, s, c).len() > 0 ==> has_key(t, s),
        has_key(lookup(t, s), c) <==> cities_at(t, s, c).len() > 0,
{
    if has_key(t, s) {
        let i = choose|i: int| 0 <= i < t.len() && #[trigger] t[i].0 == s;
        lemma_lookup_at(t, i);
        assert(state_wf(t[i]));
        assert(county_wf(s, t[i].1[0]));
        lemma_lookup_at(t[i].1, 0);
        if has_key(t[i].1, c) {
            let j = choose|j: int| 0 <= j < t[i].1.len() && #[trigger] t[i].1[j].0 == c;
            lemma_lookup_at(t[i].1, j);
            assert(county_wf(s, t[i].1[j]));
        }
    }
}

/// The same cities, in any order, give the same tree up to the order of each county's
/// cities: of two trees that group (as `Transformer::transform` builds them) inputs
/// holding the same cities, each as often, one has the same states in the same places
/// as the other, in each state the same counties in the same places, and in each
/// county the same cities, each as often.
pub proof fn lemma_groups_permutation(
    cities: Seq<CityView>,
    other: Seq<CityView>,
    t: Seq<StateV>,
    u: Seq<StateV>,
)
    requires
        cities.to_multiset() == other.to_multiset(),
        groups(t, cities),
        groups(u, other),
    ensures
        t.len() == u.len(),
        forall|i: int| 0 <= i < t.len() ==> #[trigger] t[i].0 == u[i].0 && t[i].1.len() == u[i].1.len(),
        forall|i: int, j: int|
            0 <= i < t.len() && 0 <= j < t[i].1.len() ==> #[trigger] t[i].1[j].0 == u[i].1[j].0
                && t[i].1[j].1.to_multiset() == u[i].1[j].1.to_multiset(),
{
    broadcast use vstd::seq_lib::to_multiset_len;

    assert forall|s: Seq<char>, c: Seq<char>| #[trigger]
        cities_at(t, s, c).to_multiset() == cities_at(u, s, c).to_multiset() by {
        assert(cities_at(t, s, c) == cities.filter(in_group(s, c)));
        assert(cities_at(u, s, c) == other.filter(in_group(s, c)));
        assert forall|x: CityView| #[trigger] cities.filter(in_group(s, c)).to_multiset().count(x)
            == other.filter(in_group(s, c)).to_multiset().count(x) by {
            lemma_filter_count(cities, in_group(s, c), x);
            lemma_filter_count(other, in_group(s, c), x);
        }
        assert(cities.filter(in_group(s, c)).to_multiset() =~= other.filter(in_group(s, c)).to_multiset());
    }
    assert forall|s: Seq<char>| has_key(t, s) <==> has_key(u, s) by {
        lemma_keys_have_cities(t, s, Seq::empty());
        lemma_keys_have_cities(u, s, Seq::empty());
        if has_key(t, s) {
            let c = lookup(t, s)[0].0;
            assert(cities_at(t, s, c).to_multiset() == cities_at(u, s, c).to_multiset());
            vstd::seq_lib::to_multiset_len(cities_at(t, s, c));
            vstd::seq_lib::to_multiset_len(cities_at(u, s, c));
            lemma_keys_have_cities(u, s, c);
        }
        if has_key(u, s) {
            let c = lookup(u, s)[0].0;
            assert(cities_at(t, s, c).to_multiset() == cities_at(u, s, c).to_multiset());
            vstd::seq_lib::to_multiset_len(cities_at(t, s, c));
            vstd::seq_lib::to_multiset_len(cities_at(u, s, c));
            lemma_keys_have_cities(t, s, c);
        }
    }
    lemma_same_keys(t, u);
    assert forall|i: int| 0 <= i < t.len() implies #[trigger] t[i].0 == u[i].0 && t[i].1.len() == u[i].1.len()
        && forall|j: int| 0 <= j < t[i].1.len() ==> #[trigger] t[i].1[j].0 == u[i].1[j].0
            && t[i].1[j].1.to_multiset() == u[i].1[j].1.to_multiset() by {
        let s = t[i].0;
        lemma_lookup_at(t, i);
        lemma_lookup_at(u, i);
        assert(state_wf(t[i]) && state_wf(u[i]));
        assert forall|c: Seq<char>| has_key(t[i].1, c) <==> has_key(u[i].1, c) by {
            lemma_keys_have_cities(t, s, c);
            lemma_keys_have_cities(u, s, c);
            assert(cities_at(t, s, c).to_multiset() == cities_at(u, s, c).to_multiset());
            vstd::seq_lib::to_multiset_len(cities_at(t, s, c));
            vstd::seq_lib::to_multiset_len(cities_at(u, s, c));
        }
        lemma_same_keys(t[i].1, u[i].1);
        assert forall|j: int| 0 <= j < t[i].1.len() implies #[trigger] t[i].1[j].0 == u[i].1[j].0
            && t[i].1[j].1.to_multiset() == u[i].1[j].1.to_multiset() by {
            lemma_lookup_at(t[i].1, j);
            lemma_lookup_at(u[i].1, j);
            assert(cities_at(t, s, t[i].1[j].0).to_multiset() == cities_at(u, s, t[i].1[j].0).to_multiset());
        }
    }
}

} // verus!
