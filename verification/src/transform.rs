use std::sync::Arc;
use vstd::prelude::*;

use crate::structures::{cities_view, gql_view, City, CityView, Country, GqlTree, State, TreeCity};
use crate::text::{lemma_str_lt_transitive, lemma_str_trichotomy, str_less, str_lt};
use crate::tree::{
    answer_of, cities_at, county_copy, filed, gql_of, groups, in_group, keys_sorted, lemma_file_in_county,
    lemma_file_new_county, lemma_file_new_state, lemma_insert_by_name, named,
    stable_name_sort, state_copy, tree_wf, CountyV, StateV,
};

verus! {

/// The cities of one county, in the order they were filed.
pub struct CountyBranch {
    pub name: Arc<String>,
    pub cities: Vec<TreeCity>,
}

impl View for CountyBranch {
    type V = CountyV;

    open spec fn view(&self) -> CountyV {
        (self.name@, self.cities@.map_values(|c: TreeCity| c@))
    }
}

/// The counties of one state, sorted by name.
pub struct StateBranch {
    pub name: Arc<String>,
    pub counties: Vec<CountyBranch>,
}

impl View for StateBranch {
    type V = StateV;

    open spec fn view(&self) -> StateV {
        (self.name@, self.counties@.map_values(|c: CountyBranch| c@))
    }
}

/// The tree state -> county -> cities, each level sorted by name, no branch empty.
pub struct Tree {
    states: Vec<StateBranch>,
}

impl View for Tree {
    type V = Seq<StateV>;

    closed spec fn view(&self) -> Seq<StateV> {
        self.states@.map_values(|s: StateBranch| s@)
    }
}

impl Tree {
    /// Sorted levels, no empty branch, each city under its own state and county: what
    /// nested sorted maps always are.
    #[verifier::type_invariant]
    spec fn inv(self) -> bool {
        tree_wf(self@)
    }

    /// The empty tree.
    pub fn new() -> (res: Tree)
        ensures
            res@ == Seq::<StateV>::empty(),
    {
        let res = Tree { states: Vec::new() };
        assert(res@ =~= Seq::<StateV>::empty());
        res
    }

    /// The states of the tree, in increasing order of name.
    pub fn states(&self) -> (res: &Vec<StateBranch>)
        ensures
            res@.map_values(|s: StateBranch| s@) == self@,
            tree_wf(self@),
    {
        proof {
            use_type_invariant(self);
        }
        &self.states
    }
}

/// `Arc::clone` of std: another handle on the same string, which it leaves as it is.
#[verifier::external_body]
fn share(name: &Arc<String>) -> (res: Arc<String>)
    ensures
        res == *name,
{
    Arc::clone(name)
}

/// A branch of the tree, found by its name.
trait Branch {
    /// The name of the branch.
    spec fn key(&self) -> Seq<char>;

    /// The name of the branch, as text.
    fn name_str(&self) -> (res: &str)
        ensures
            res@ == self.key(),
    ;
}

impl Branch for StateBranch {
    spec fn key(&self) -> Seq<char> {
        self.name@
    }

    fn name_str(&self) -> (res: &str) {
        self.name.as_str()
    }
}

impl Branch for CountyBranch {
    spec fn key(&self) -> Seq<char> {
        self.name@
    }

    fn name_str(&self) -> (res: &str) {
        self.name.as_str()
    }
}

/// The names of the branches strictly increase.
spec fn names_sorted<T: Branch>(entries: Seq<T>) -> bool {
    forall|a: int, b: int|
        #![trigger entries[a], entries[b]]
        0 <= a < b < entries.len() ==> str_lt(entries[a].key(), entries[b].key())
}

/// Where `key` is, or belongs, among branches sorted by name, by binary search: the
/// index of the branch called `key`, or else the place where such a branch would go.
fn find<T: Branch>(entries: &Vec<T>, key: &str) -> (res: (bool, usize))
    requires
        names_sorted(entries@),
    ensures
        res.1 <= entries@.len(),
        res.0 ==> res.1 < entries@.len() && entries@[res.1 as int].key() == key@,
        !res.0 ==> forall|k: int| 0 <= k < res.1 ==> str_lt(#[trigger] entries@[k].key(), key@),
        !res.0 ==> forall|k: int|
            res.1 <= k < entries@.len() ==> str_lt(key@, #[trigger] entries@[k].key()),
{
    let mut lo: usize = 0;
    let mut hi: usize = entries.len();
    while lo < hi
        invariant
            lo <= hi <= entries@.len(),
            names_sorted(entries@),
            forall|k: int| 0 <= k < lo ==> str_lt(#[trigger] entries@[k].key(), key@),
            forall|k: int| hi <= k < entries@.len() ==> str_lt(key@, #[trigger] entries@[k].key()),
        decreases hi - lo,
    {
        let mid = lo + (hi - lo) / 2;
        let name = entries[mid].name_str();
        if str_less(name, key) {
            proof {
                assert forall|k: int| 0 <= k < mid + 1 implies str_lt(
                    #[trigger] entries@[k].key(),
                    key@,
                ) by {
                    if k < mid {
                        lemma_str_lt_transitive(entries@[k].key(), entries@[mid as int].key(), key@);
                    }
                }
            }
            lo = mid + 1;
        } else if str_less(key, name) {
            proof {
                assert forall|k: int| mid <= k < entries@.len() implies str_lt(
                    key@,
                    #[trigger] entries@[k].key(),
                ) by {
                    if k > mid {
                        lemma_str_lt_transitive(key@, entries@[mid as int].key(), entries@[k].key());
                    }
                }
            }
            hi = mid;
        } else {
            proof {
                lemma_str_trichotomy(name@, key@);
            }
            return (true, mid);
        }
    }
    (false, lo)
}

} // verus!

verus! {

/// Builds the state -> county -> city tree and turns it into the GraphQL answer.
pub struct Transformer;

impl Transformer {
    /// Files one city under its state and county, after the cities already there.
    pub fn insert(tree: &mut Tree, city: City)
        ensures
            forall|s: Seq<char>, c: Seq<char>| #[trigger]
                cities_at(final(tree)@, s, c) == filed(old(tree)@, city@, s, c),
    {
        proof {
            use_type_invariant(&*tree);
        }
        let city = TreeCity::from(city);
        let ghost x = city@;
        let ghost t = tree@;
        let mut states: Vec<StateBranch> = Vec::new();
        std::mem::swap(&mut states, &mut tree.states);
        assert(states@.map_values(|s: StateBranch| s@) == t);
        proof {
            assert forall|a: int, b: int|
                #![trigger states@[a], states@[b]]
                0 <= a < b < states@.len() implies str_lt(states@[a].key(), states@[b].key()) by {
                assert(t[a].0 == states@[a].name@ && t[b].0 == states@[b].name@);
            }
        }
        let (found, i) = find(&states, city.state.as_str());
        if found {
            // take the state's branch out, leaving a placeholder in its place
            let mut branch = StateBranch { name: share(&city.state), counties: Vec::new() };
            states.set_and_swap(i, &mut branch);
            assert(branch@ == t[i as int]);
            assert(crate::tree::state_wf(t[i as int]));
            let ghost cs = t[i as int].1;
            proof {
                assert forall|a: int, b: int|
                    #![trigger branch.counties@[a], branch.counties@[b]]
                    0 <= a < b < branch.counties@.len() implies str_lt(
                        branch.counties@[a].key(),
                        branch.counties@[b].key(),
                    ) by {
                    assert(cs[a].0 == branch.counties@[a].name@ && cs[b].0
                        == branch.counties@[b].name@);
                }
            }
            let (cfound, j) = find(&branch.counties, city.county.as_str());
            if cfound {
                let mut county = CountyBranch { name: share(&city.county), cities: Vec::new() };
                branch.counties.set_and_swap(j, &mut county);
                assert(county@ == cs[j as int]);
                county.cities.push(city);
                assert(county@ == (cs[j as int].0, cs[j as int].1.push(x)));
                branch.counties.set(j, county);
                assert(branch@ == (t[i as int].0, cs.update(
                    j as int,
                    (cs[j as int].0, cs[j as int].1.push(x)),
                )));
                states.set(i, branch);
                proof {
                    assert(states@.map_values(|s: StateBranch| s@) =~= t.update(i as int, branch@));
                    lemma_file_in_county(t, i as int, j as int, x);
                }
                tree.states = states;
            } else {
                proof {
                    assert forall|k: int| 0 <= k < j implies str_lt(#[trigger] cs[k].0, x.country) by {
                        assert(cs[k].0 == branch.counties@[k].key());
                    }
                    assert forall|k: int| j <= k < cs.len() implies str_lt(x.country, #[trigger] cs[k].0) by {
                        assert(cs[k].0 == branch.counties@[k].key());
                    }
                }
                let name = share(&city.county);
                let mut cities: Vec<TreeCity> = Vec::new();
                cities.push(city);
                let county = CountyBranch { name, cities };
                assert(county@ == (x.country, seq![x]));
                branch.counties.insert(j, county);
                assert(branch@ == (t[i as int].0, cs.insert(j as int, (x.country, seq![x]))));
                states.set(i, branch);
                proof {
                    assert(states@.map_values(|s: StateBranch| s@) =~= t.update(i as int, branch@));
                    lemma_file_new_county(t, i as int, j as int, x);
                }
                tree.states = states;
            }
        } else {
            proof {
                assert forall|k: int| 0 <= k < i implies str_lt(#[trigger] t[k].0, x.state) by {
                    assert(t[k].0 == states@[k].key());
                }
                assert forall|k: int| i <= k < t.len() implies str_lt(x.state, #[trigger] t[k].0) by {
                    assert(t[k].0 == states@[k].key());
                }
            }
            let state_name = share(&city.state);
            let county_name = share(&city.county);
            let mut cities: Vec<TreeCity> = Vec::new();
            cities.push(city);
            assert(cities@.map_values(|c: TreeCity| c@) =~= seq![x]);
            let mut counties: Vec<CountyBranch> = Vec::new();
            counties.push(CountyBranch { name: county_name, cities });
            assert(counties@.map_values(|c: CountyBranch| c@) =~= seq![(x.country, seq![x])]);
            let branch = StateBranch { name: state_name, counties };
            assert(branch@ == (x.state, seq![(x.country, seq![x])]));
            states.insert(i, branch);
            proof {
                assert(states@.map_values(|s: StateBranch| s@) =~= t.insert(i as int, branch@));
                lemma_file_new_state(t, i as int, x);
            }
            tree.states = states;
        }
    }

    /// Builds the tree state -> county -> cities from the cities, each list in the
    /// order of the input.
    pub fn transform(cities: Vec<City>) -> (res: Tree)
        ensures
            groups(res@, cities_view(cities@)),
    {
        let ghost input = cities_view(cities@);
        let mut tree = Tree::new();
        for city in iter: cities.into_iter()
            invariant
                iter.seq() == cities@,
                forall|s: Seq<char>, c: Seq<char>| #[trigger]
                    cities_at(tree@, s, c) == cities_view(iter.seq().take(iter.index() as int))
                        .filter(in_group(s, c)),
        {
            let ghost before = tree@;
            let ghost n = iter.index() as int;
            Self::insert(&mut tree, city);
            proof {
                let done = cities_view(iter.seq().take(n));
                assert(cities_view(iter.seq().take(n + 1)) =~= done.push(city@));
                assert forall|s: Seq<char>, c: Seq<char>| #[trigger]
                    cities_at(tree@, s, c) == cities_view(iter.seq().take(n + 1)).filter(in_group(s, c)) by {
                    done.lemma_filter_push(city@, in_group(s, c));
                    assert(cities_at(tree@, s, c) == filed(before, city@, s, c));
                }
            }
        }
        assert(cities@.take(cities@.len() as int) =~= cities@);
        proof {
            use_type_invariant(&tree);
        }
        tree
    }
}

} // verus!

verus! {

/// The views of the cities of a county.
pub open spec fn tree_cities_view(cities: Seq<TreeCity>) -> Seq<CityView> {
    cities.map_values(|c: TreeCity| c@)
}

fn copy_text(s: &String) -> (res: String)
    ensures
        res@ == s@,
{
    String::from_str(s.as_str())
}

/// The city of the answer, with its own strings.
fn to_city(c: TreeCity) -> (res: City)
    ensures
        res@ == c@,
{
    City {
        id: c.id,
        name: copy_text(&c.name),
        state: copy_text(&c.state),
        country: copy_text(&c.county),
    }
}

/// Sorts the cities by name; cities of the same name keep their order.
fn sort_by_name(cities: Vec<TreeCity>) -> (res: Vec<City>)
    ensures
        stable_name_sort(cities_view(res@), tree_cities_view(cities@)),
{
    let mut out: Vec<City> = Vec::new();
    assert(cities_view(out@) =~= Seq::<CityView>::empty());
    assert(tree_cities_view(cities@.take(0)) =~= Seq::<CityView>::empty());
    for c in iter: cities.into_iter()
        invariant
            iter.seq() == cities@,
            stable_name_sort(
                cities_view(out@),
                tree_cities_view(iter.seq().take(iter.index() as int)),
            ),
    {
        let ghost n = iter.index() as int;
        let ghost done = tree_cities_view(iter.seq().take(n));
        let ghost sorted = cities_view(out@);
        let x = to_city(c);
        let mut p = out.len();
        while p > 0
            invariant
                p <= out@.len(),
                forall|k: int| p <= k < out@.len() ==> str_lt(x.name@, #[trigger] out@[k].name@),
            ensures
                p <= out@.len(),
                forall|k: int| p <= k < out@.len() ==> str_lt(x.name@, #[trigger] out@[k].name@),
                p > 0 ==> !str_lt(x.name@, out@[p - 1].name@),
            decreases p,
        {
            if !str_less(x.name.as_str(), out[p - 1].name.as_str()) {
                break;
            }
            p = p - 1;
        }
        let ghost xv = x@;
        proof {
            assert forall|k: int| p <= k < sorted.len() implies str_lt(
                xv.name,
                #[trigger] sorted[k].name,
            ) by {
                assert(sorted[k] == out@[k]@);
            }
            if p > 0 {
                assert(sorted[p - 1] == out@[p - 1]@);
            }
            lemma_insert_by_name(sorted, p as int, xv);
        }
        out.insert(p, x);
        proof {
            assert(cities_view(out@) =~= sorted.insert(p as int, xv));
            assert(tree_cities_view(iter.seq().take(n + 1)) =~= done.push(xv));
            assert(stable_name_sort(cities_view(out@), done.push(xv))) by {
                broadcast use vstd::seq_lib::to_multiset_build;
                assert(done.push(xv).to_multiset() == done.to_multiset().insert(xv));
                assert forall|m: Seq<char>| #[trigger]
                    cities_view(out@).filter(named(m)) == done.push(xv).filter(named(m)) by {
                    done.lemma_filter_push(xv, named(m));
                }
            }
        }
    }
    assert(cities@.take(cities@.len() as int) =~= cities@);
    out
}

impl Transformer {
    /// The GraphQL answer for the tree: its states and counties in the tree's order,
    /// the cities of each county sorted by name.
    pub fn gql_tree(tree: Tree) -> (res: GqlTree)
        ensures
            tree_wf(tree@),
            gql_of(gql_view(res@), tree@),
    {
        proof {
            use_type_invariant(&tree);
        }
        let mut res: Vec<State> = Vec::new();
        let ghost t = tree@;
        for branch in iter: tree.states.into_iter()
            invariant
                iter.seq() == tree.states@,
                t == tree.states@.map_values(|s: StateBranch| s@),
                res@.len() == iter.index(),
                forall|i: int| 0 <= i < res@.len() ==> state_copy(#[trigger] res@[i]@, t[i]),
        {
            let ghost i = iter.index() as int;
            let ghost b = branch@;
            let mut countries: Vec<Country> = Vec::new();
            for county in it2: branch.counties.into_iter()
                invariant
                    it2.seq() == branch.counties@,
                    b == branch@,
                    countries@.len() == it2.index(),
                    forall|j: int| 0 <= j < countries@.len() ==> county_copy(#[trigger] countries@[j]@, b.1[j]),
            {
                let ghost j = it2.index() as int;
                let ghost cv = county@;
                let name = copy_text(&county.name);
                let cities = sort_by_name(county.cities);
                let country = Country { name, cities };
                assert(country@.1 == cities_view(country.cities@));
                assert(cv == b.1[j]);
                countries.push(country);
                assert(countries@[j] == country);
            }
            let name = copy_text(&branch.name);
            let state = State { name, countries };
            assert(state_copy(state@, b));
            assert(b == t[i]);
            res.push(state);
            assert(res@[i] == state);
        }
        assert(gql_view(res@).len() == t.len());
        assert forall|i: int| 0 <= i < gql_view(res@).len() implies state_copy(#[trigger] gql_view(res@)[i], t[i]) by {
            assert(gql_view(res@)[i] == res@[i]@);
        }
        res
    }
}

impl Transformer {
    /// The GraphQL answer for the cities: the tree that groups them by state and
    /// county, each county's cities sorted by name.
    pub fn answer(cities: Vec<City>) -> (res: GqlTree)
        ensures
            answer_of(gql_view(res@), cities_view(cities@)),
    {
        let tree = Self::transform(cities);
        let ghost t = tree@;
        let res = Self::gql_tree(tree);
        assert(groups(t, cities_view(cities@)) && gql_of(gql_view(res@), t));
        res
    }
}

} // verus!
