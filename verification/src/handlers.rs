use std::sync::Arc;
use vstd::prelude::*;

use crate::structures::{city_item, lemma_item_keeps_city, prefixed, value_of, CityView, GqlTree};
use crate::worker::TABLE_NAME;

verus! {

/// `aws_sdk_dynamodb::Client`, declared as an opaque type: nothing is claimed of it;
/// the library only hands it on to whoever sends the queries.
#[verifier::external_type_specification]
#[verifier::external_body]
pub struct ExClient(aws_sdk_dynamodb::Client);

/// The secondary index keyed by state (`G1PK`) and county (`G1SK`).
pub const INDEX_NAME: &'static str = "GSI1";

/// The cache entry of the whole tree.
pub const TREE_KEY: &'static str = "tree";

/// A placeholder of a query and what it stands for.
#[derive(Debug, Clone, PartialEq, Eq)]
pub struct Placeholder {
    pub placeholder: String,
    pub value: String,
}

impl View for Placeholder {
    type V = (Seq<char>, Seq<char>);

    open spec fn view(&self) -> (Seq<char>, Seq<char>) {
        (self.placeholder@, self.value@)
    }
}

/// A DynamoDB query of all attributes, as plain values.
#[derive(Debug, Clone, PartialEq, Eq)]
pub struct QuerySpec {
    pub table_name: String,
    pub index_name: String,
    pub key_condition_expression: String,
    pub attribute_names: Vec<Placeholder>,
    pub attribute_values: Vec<Placeholder>,
}

/// A query as plain text.
pub struct QueryView {
    pub table_name: Seq<char>,
    pub index_name: Seq<char>,
    pub key_condition_expression: Seq<char>,
    pub attribute_names: Seq<(Seq<char>, Seq<char>)>,
    pub attribute_values: Seq<(Seq<char>, Seq<char>)>,
}

impl View for QuerySpec {
    type V = QueryView;

    open spec fn view(&self) -> QueryView {
        QueryView {
            table_name: self.table_name@,
            index_name: self.index_name@,
            key_condition_expression: self.key_condition_expression@,
            attribute_names: self.attribute_names@.map_values(|p: Placeholder| p@),
            attribute_values: self.attribute_values@.map_values(|p: Placeholder| p@),
        }
    }
}

/// The index key of the cities of a state.
pub open spec fn state_key(state: Seq<char>) -> Seq<char> {
    "state#"@ + state
}

/// The index key of the cities of a county.
pub open spec fn country_key(country: Seq<char>) -> Seq<char> {
    "country#"@ + country
}

/// The query for the cities of one state.
pub open spec fn state_query(state: Seq<char>) -> QueryView {
    QueryView {
        table_name: TABLE_NAME@,
        index_name: INDEX_NAME@,
        key_condition_expression: "#state = :state"@,
        attribute_names: seq![("#state"@, "G1PK"@)],
        attribute_values: seq![(":state"@, state_key(state))],
    }
}

/// The query for the cities of one county of one state.
pub open spec fn country_query(state: Seq<char>, country: Seq<char>) -> QueryView {
    QueryView {
        table_name: TABLE_NAME@,
        index_name: INDEX_NAME@,
        key_condition_expression: "#state = :state AND #country = :country"@,
        attribute_names: seq![("#state"@, "G1PK"@), ("#country"@, "G1SK"@)],
        attribute_values: seq![(":state"@, state_key(state)), (":country"@, country_key(country))],
    }
}

/// Builds the query for a page of cities.
pub trait QueryBuilder {
    /// The query this builder asks.
    spec fn query_of(&self) -> QueryView;

    /// The query, as plain values; the key to start from is set by whoever sends it.
    fn build_query(&self) -> (res: QuerySpec)
        ensures
            res@ == self.query_of(),
    ;
}

fn placeholder(name: &str, value: String) -> (res: Placeholder)
    ensures
        res@ == (name@, value@),
{
    Placeholder { placeholder: String::from_str(name), value }
}

/// The cities of one state.
pub struct StateQueryBuilder {
    pub client: Arc<aws_sdk_dynamodb::Client>,
    pub state: String,
}

impl StateQueryBuilder {
    pub fn new(client: Arc<aws_sdk_dynamodb::Client>, state: String) -> (res: Self)
        ensures
            res.client == client,
            res.state == state,
    {
        Self { client, state }
    }
}

impl QueryBuilder for StateQueryBuilder {
    open spec fn query_of(&self) -> QueryView {
        state_query(self.state@)
    }

    fn build_query(&self) -> (res: QuerySpec) {
        let mut names: Vec<Placeholder> = Vec::new();
        names.push(placeholder("#state", String::from_str("G1PK")));
        let mut values: Vec<Placeholder> = Vec::new();
        values.push(placeholder(":state", prefixed("state#", &self.state)));
        let res = QuerySpec {
            table_name: String::from_str(TABLE_NAME),
            index_name: String::from_str(INDEX_NAME),
            key_condition_expression: String::from_str("#state = :state"),
            attribute_names: names,
            attribute_values: values,
        };
        assert(res@.attribute_names =~= state_query(self.state@).attribute_names);
        assert(res@.attribute_values =~= state_query(self.state@).attribute_values);
        res
    }
}

/// The cities of one county of one state.
pub struct CountryQueryBuilder {
    pub client: Arc<aws_sdk_dynamodb::Client>,
    pub state: String,
    pub country: String,
}

impl CountryQueryBuilder {
    pub fn new(client: Arc<aws_sdk_dynamodb::Client>, state: String, country: String) -> (res: Self)
        ensures
            res.client == client,
            res.state == state,
            res.country == country,
    {
        Self { client, state, country }
    }
}

impl QueryBuilder for CountryQueryBuilder {
    open spec fn query_of(&self) -> QueryView {
        country_query(self.state@, self.country@)
    }

    fn build_query(&self) -> (res: QuerySpec) {
        let mut names: Vec<Placeholder> = Vec::new();
        names.push(placeholder("#state", String::from_str("G1PK")));
        names.push(placeholder("#country", String::from_str("G1SK")));
        let mut values: Vec<Placeholder> = Vec::new();
        values.push(placeholder(":state", prefixed("state#", &self.state)));
        values.push(placeholder(":country", prefixed("country#", &self.country)));
        let res = QuerySpec {
            table_name: String::from_str(TABLE_NAME),
            index_name: String::from_str(INDEX_NAME),
            key_condition_expression: String::from_str("#state = :state AND #country = :country"),
            attribute_names: names,
            attribute_values: values,
        };
        assert(res@.attribute_names =~= country_query(self.state@, self.country@).attribute_names);
        assert(res@.attribute_values =~= country_query(self.state@, self.country@).attribute_values);
        res
    }
}

/// The two kinds of query.
pub enum QueryBuilders {
    State(StateQueryBuilder),
    Country(CountryQueryBuilder),
}

impl QueryBuilder for QueryBuilders {
    open spec fn query_of(&self) -> QueryView {
        match self {
            QueryBuilders::State(builder) => builder.query_of(),
            QueryBuilders::Country(builder) => builder.query_of(),
        }
    }

    fn build_query(&self) -> (res: QuerySpec) {
        match self {
            QueryBuilders::State(builder) => builder.build_query(),
            QueryBuilders::Country(builder) => builder.build_query(),
        }
    }
}

/// Answers a query page by page.
pub struct Handler<B: QueryBuilder> {
    pub query_builder: Arc<B>,
}

impl<B: QueryBuilder> Handler<B> {
    /// The query of each page.
    pub fn query(&self) -> (res: QuerySpec)
        ensures
            res@ == self.query_builder.query_of(),
    {
        self.query_builder.build_query()
    }

    /// Whether to ask for another page: the last one came back and names the key
    /// to go on from. A failed page ends the answer.
    pub fn keep_paging(page_ok: bool, has_last_key: bool) -> (res: bool)
        ensures
            res == (page_ok && has_last_key),
    {
        page_ok && has_last_key
    }
}

fn text_eq(a: &str, b: &str) -> (res: bool)
    ensures
        res == (a@ == b@),
{
    String::from_str(a).eq(&String::from_str(b))
}

/// The builder asked for: the state query when the field is `state`, the county query
/// otherwise.
pub fn new_query_builder(
    client: Arc<aws_sdk_dynamodb::Client>,
    field_name: &str,
    state: &str,
    country: &str,
) -> (res: Arc<QueryBuilders>)
    ensures
        field_name@ == "state"@ ==> (*res matches QueryBuilders::State(b) && b.client == client
            && b.state@ == state@),
        field_name@ != "state"@ ==> (*res matches QueryBuilders::Country(b) && b.client == client
            && b.state@ == state@ && b.country@ == country@),
{
    Arc::new(
        if text_eq(field_name, "state") {
            QueryBuilders::State(StateQueryBuilder::new(client, String::from_str(state)))
        } else {
            QueryBuilders::Country(
                CountryQueryBuilder::new(client, String::from_str(state), String::from_str(country)),
            )
        },
    )
}

/// How a request is answered.
pub enum Route {
    /// From the cached tree, or nothing when it is not cached.
    CachedTree,
    /// From the cache entry `cache_key`, or else by running the query and caching
    /// the answer under that key.
    Query { cache_key: String, builder: Arc<QueryBuilders> },
    /// The field is not known: nothing.
    Unknown,
}

/// The county of a request: the one asked for, or `all`.
pub open spec fn country_or_all(country: Option<Seq<char>>) -> Seq<char> {
    match country {
        Some(c) => c,
        None => "all"@,
    }
}

/// Decides how the request for `field_name` with its `state_name` and
/// `country_name` arguments is answered. A state or county request needs the state.
pub fn route_request(
    client: Arc<aws_sdk_dynamodb::Client>,
    field_name: &str,
    state: Option<&String>,
    country: Option<&String>,
) -> (res: Route)
    requires
        field_name@ == "state"@ || field_name@ == "country"@ ==> state is Some,
    ensures
        field_name@ == "tree"@ ==> res is CachedTree,
        field_name@ == "state"@ || field_name@ == "country"@ ==> ({
            let s = state.unwrap()@;
            let c = country_or_all(
                match country {
                    Some(c) => Some(c@),
                    None => None,
                },
            );
            &&& res matches Route::Query { cache_key, builder }
            &&& cache_key@ == s + "-"@ + c
            &&& field_name@ == "state"@ ==> (*builder matches QueryBuilders::State(b) && b.client
                == client && b.state@ == s)
            &&& field_name@ == "country"@ ==> (*builder matches QueryBuilders::Country(b)
                && b.client == client && b.state@ == s && b.country@ == c)
        }),
        field_name@ != "tree"@ && field_name@ != "state"@ && field_name@ != "country"@
            ==> res is Unknown,
{
    // the three field names differ, if only in length
    proof {
        reveal_strlit("tree");
        reveal_strlit("state");
        reveal_strlit("country");
        assert("tree"@.len() == 4 && "state"@.len() == 5 && "country"@.len() == 7);
    }
    if text_eq(field_name, "tree") {
        Route::CachedTree
    } else if text_eq(field_name, "state") || text_eq(field_name, "country") {
        let state = state.unwrap();
        let all = String::from_str("all");
        let country: &String = match country {
            Some(c) => c,
            None => &all,
        };
        let mut cache_key = state.clone();
        cache_key.append("-");
        cache_key.append(country.as_str());
        let builder = new_query_builder(client, field_name, state.as_str(), country.as_str());
        Route::Query { cache_key, builder }
    } else {
        Route::Unknown
    }
}

/// The cache entry that may already hold the answer of a request routed to `route`:
/// the tree's entry, the query's own entry, or none for an unknown field.
pub fn cache_entry(route: &Route) -> (res: Option<String>)
    ensures
        route is CachedTree ==> (res matches Some(k) && k@ == TREE_KEY@),
        route matches Route::Query { cache_key, .. } ==> (res matches Some(k) && k@
            == cache_key@),
        route is Unknown ==> res is None,
{
    match route {
        Route::CachedTree => Some(String::from_str(TREE_KEY)),
        Route::Query { cache_key, .. } => Some(cache_key.clone()),
        Route::Unknown => None,
    }
}

/// What answers a request once its cache entry was read.
pub enum Answer {
    /// These states.
    Reply(GqlTree),
    /// Nothing was cached: the query is run, and its answer is stored under
    /// `cache_key` and returned.
    Compute { cache_key: String, builder: Arc<QueryBuilders> },
}

/// If the answer is cached, it is returned; else the query is run. `cached` is what
/// the cache held under `cache_entry(&route)`. The tree is only ever read from the
/// cache (nothing when it is missing), and an unknown field is answered with nothing.
pub fn after_cache(route: Route, cached: Option<GqlTree>) -> (res: Answer)
    ensures
        match route {
            Route::CachedTree => match cached {
                Some(t) => res == Answer::Reply(t),
                None => res matches Answer::Reply(t) && t@.len() == 0,
            },
            Route::Query { cache_key, builder } => match cached {
                Some(t) => res == Answer::Reply(t),
                None => res == (Answer::Compute { cache_key, builder }),
            },
            Route::Unknown => res matches Answer::Reply(t) && t@.len() == 0,
        },
{
    match route {
        Route::CachedTree => match cached {
            Some(t) => Answer::Reply(t),
            None => Answer::Reply(Vec::new()),
        },
        Route::Query { cache_key, builder } => match cached {
            Some(t) => Answer::Reply(t),
            None => Answer::Compute { cache_key, builder },
        },
        Route::Unknown => Answer::Reply(Vec::new()),
    }
}

/// The item of a city answers the state query of exactly its own state: its `G1PK`
/// is the key the query asks for if and only if the city lies in that state.
pub proof fn lemma_state_query_finds_its_cities(c: CityView, state: Seq<char>)
    ensures
        city_item(c)[2].0 == state_query(state).attribute_names[0].1,
        (city_item(c)[2].1 == state_query(state).attribute_values[0].1) <==> c.state == state,
{
    lemma_prefix_injective("state#"@, c.state, state);
}

/// The item of a city answers the county query of exactly its own state and county.
pub proof fn lemma_country_query_finds_its_cities(c: CityView, state: Seq<char>, country: Seq<char>)
    ensures
        city_item(c)[2].0 == country_query(state, country).attribute_names[0].1,
        city_item(c)[3].0 == country_query(state, country).attribute_names[1].1,
        (city_item(c)[2].1 == country_query(state, country).attribute_values[0].1 && city_item(c)[3].1
            == country_query(state, country).attribute_values[1].1) <==> (c.state == state
            && c.country == country),
{
    lemma_prefix_injective("state#"@, c.state, state);
    lemma_prefix_injective("country#"@, c.country, country);
}

/// The same prefix before two texts gives the same text only for the same texts.
pub proof fn lemma_prefix_injective(p: Seq<char>, a: Seq<char>, b: Seq<char>)
    ensures
        (p + a == p + b) <==> a == b,
{
    if p + a == p + b {
        assert((p + a).skip(p.len() as int) =~= a);
        assert((p + b).skip(p.len() as int) =~= b);
    }
}

} // verus!

verus! {

/// `#p = :p` for each placeholder name `p`, joined by ` AND `: the key condition that
/// asks the attribute bound to `#p` to equal the value bound to `:p`, for every `p`.
pub open spec fn equalities(ps: Seq<Seq<char>>) -> Seq<char>
    decreases ps.len(),
{
    if ps.len() == 0 {
        Seq::empty()
    } else if ps.len() == 1 {
        "#"@ + ps[0] + " = :"@ + ps[0]
    } else {
        equalities(ps.drop_last()) + " AND "@ + "#"@ + ps.last() + " = :"@ + ps.last()
    }
}

/// The query binds, in order, `#p` to an attribute and `:p` to a value for each `p`.
pub open spec fn binds(q: QueryView, ps: Seq<Seq<char>>) -> bool {
    &&& q.attribute_names.len() == ps.len()
    &&& q.attribute_values.len() == ps.len()
    &&& forall|i: int|
        0 <= i < ps.len() ==> (#[trigger] q.attribute_names[i]).0 == "#"@ + ps[i]
            && q.attribute_values[i].0 == ":"@ + ps[i]
}

/// `item` meets the key condition of `q`: each attribute that the query names holds
/// the value bound beside it.
pub open spec fn satisfies(q: QueryView, item: Seq<(Seq<char>, Seq<char>)>) -> bool {
    forall|i: int|
        0 <= i < q.attribute_names.len() ==> value_of(item, (#[trigger] q.attribute_names[i]).1)
            == Some(q.attribute_values[i].1)
}

/// Whatever the state asked for, its query goes to the table's state and county index
/// with the key condition `#state = :state`, and the item of a city meets it exactly
/// when the city lies in that state.
pub proof fn lemma_state_query_asks_for_the_state(state: Seq<char>, c: CityView)
    ensures
        state_query(state).table_name == TABLE_NAME@,
        state_query(state).index_name == INDEX_NAME@,
        state_query(state).key_condition_expression == equalities(seq!["state"@]),
        binds(state_query(state), seq!["state"@]),
        satisfies(state_query(state), city_item(c)) <==> c.state == state,
{
    reveal_strlit("#state = :state");
    reveal_strlit("#");
    reveal_strlit(" = :");
    reveal_strlit("state");
    reveal_strlit("#state");
    reveal_strlit(":");
    reveal_strlit(":state");
    let q = state_query(state);
    assert(equalities(seq!["state"@]) =~= "#state = :state"@);
    assert(q.attribute_names[0].0 =~= "#"@ + "state"@);
    assert(q.attribute_values[0].0 =~= ":"@ + "state"@);
    lemma_item_keeps_city(c);
    lemma_prefix_injective("state#"@, c.state, state);
    if c.state == state {
        assert forall|i: int| 0 <= i < q.attribute_names.len() implies value_of(
            city_item(c),
            (#[trigger] q.attribute_names[i]).1,
        ) == Some(q.attribute_values[i].1) by {}
    } else {
        assert(value_of(city_item(c), q.attribute_names[0].1) != Some(q.attribute_values[0].1));
    }
}

/// Whatever the state and county asked for, their query goes to the table's state and
/// county index with the key condition `#state = :state AND #country = :country`, and
/// the item of a city meets it exactly when the city lies in that state and county.
pub proof fn lemma_country_query_asks_for_the_county(state: Seq<char>, country: Seq<char>, c: CityView)
    ensures
        country_query(state, country).table_name == TABLE_NAME@,
        country_query(state, country).index_name == INDEX_NAME@,
        country_query(state, country).key_condition_expression == equalities(
            seq!["state"@, "country"@],
        ),
        binds(country_query(state, country), seq!["state"@, "country"@]),
        satisfies(country_query(state, country), city_item(c)) <==> (c.state == state
            && c.country == country),
{
    reveal_strlit("#state = :state AND #country = :country");
    reveal_strlit("#state = :state");
    reveal_strlit("#");
    reveal_strlit(" = :");
    reveal_strlit(" AND ");
    reveal_strlit("state");
    reveal_strlit("country");
    reveal_strlit("#state");
    reveal_strlit("#country");
    reveal_strlit(":");
    reveal_strlit(":state");
    reveal_strlit(":country");
    let q = country_query(state, country);
    let ps = seq!["state"@, "country"@];
    assert(ps.drop_last() =~= seq!["state"@]);
    assert(equalities(seq!["state"@]) =~= "#state = :state"@);
    assert(ps.last() == "country"@);
    assert(equalities(ps) == "#state = :state"@ + " AND "@ + "#"@ + "country"@ + " = :"@ + "country"@);
    assert("#state = :state"@ + " AND "@ + "#"@ + "country"@ + " = :"@ + "country"@
        =~= "#state = :state AND #country = :country"@);
    assert(q.attribute_names[0].0 =~= "#"@ + "state"@);
    assert(q.attribute_values[0].0 =~= ":"@ + "state"@);
    assert(q.attribute_names[1].0 =~= "#"@ + "country"@);
    assert(q.attribute_values[1].0 =~= ":"@ + "country"@);
    lemma_item_keeps_city(c);
    lemma_prefix_injective("state#"@, c.state, state);
    lemma_prefix_injective("country#"@, c.country, country);
    if c.state == state && c.country == country {
        assert forall|i: int| 0 <= i < q.attribute_names.len() implies value_of(
            city_item(c),
            (#[trigger] q.attribute_names[i]).1,
        ) == Some(q.attribute_values[i].1) by {}
    } else if c.state != state {
        assert(value_of(city_item(c), q.attribute_names[0].1) != Some(q.attribute_values[0].1));
    } else {
        assert(value_of(city_item(c), q.attribute_names[1].1) != Some(q.attribute_values[1].1));
    }
}

} // verus!
