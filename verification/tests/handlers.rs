use std::sync::Arc;

use assetario::structures::{City, State};

use assetario::handlers::{
    after_cache, cache_entry, Answer, new_query_builder, route_request, CountryQueryBuilder, Handler, QueryBuilder, QueryBuilders,
    Route, StateQueryBuilder, INDEX_NAME, TREE_KEY,
};

fn client() -> Arc<aws_sdk_dynamodb::Client> {
    Arc::new(aws_sdk_dynamodb::Client::from_conf(aws_sdk_dynamodb::Config::builder().build()))
}

fn pairs(v: &[assetario::handlers::Placeholder]) -> Vec<(&str, &str)> {
    v.iter().map(|p| (p.placeholder.as_str(), p.value.as_str())).collect()
}

#[test]
fn state_query() {
    let q = StateQueryBuilder::new(client(), "Texas".to_string()).build_query();
    assert_eq!(q.table_name, "AssetarioSimpleMaps");
    assert_eq!(q.index_name, "GSI1");
    assert_eq!(INDEX_NAME, "GSI1");
    assert_eq!(q.key_condition_expression, "#state = :state");
    assert_eq!(pairs(&q.attribute_names), vec![("#state", "G1PK")]);
    assert_eq!(pairs(&q.attribute_values), vec![(":state", "state#Texas")]);
}

#[test]
fn country_query() {
    let q = CountryQueryBuilder::new(client(), "Texas".to_string(), "Harris".to_string()).build_query();
    assert_eq!(q.table_name, "AssetarioSimpleMaps");
    assert_eq!(q.index_name, "GSI1");
    assert_eq!(q.key_condition_expression, "#state = :state AND #country = :country");
    assert_eq!(pairs(&q.attribute_names), vec![("#state", "G1PK"), ("#country", "G1SK")]);
    assert_eq!(
        pairs(&q.attribute_values),
        vec![(":state", "state#Texas"), (":country", "country#Harris")]
    );
}

#[test]
fn builder_by_field() {
    match &*new_query_builder(client(), "state", "Ohio", "all") {
        QueryBuilders::State(b) => assert_eq!(b.state, "Ohio"),
        QueryBuilders::Country(_) => panic!("expected the state query"),
    }
    match &*new_query_builder(client(), "country", "Ohio", "Franklin") {
        QueryBuilders::Country(b) => {
            assert_eq!(b.state, "Ohio");
            assert_eq!(b.country, "Franklin");
        }
        QueryBuilders::State(_) => panic!("expected the county query"),
    }
}

#[test]
fn handler_query_and_paging() {
    let handler = Handler { query_builder: new_query_builder(client(), "state", "Ohio", "all") };
    let q = handler.query();
    assert_eq!(pairs(&q.attribute_values), vec![(":state", "state#Ohio")]);
    assert!(Handler::<QueryBuilders>::keep_paging(true, true));
    assert!(!Handler::<QueryBuilders>::keep_paging(true, false));
    assert!(!Handler::<QueryBuilders>::keep_paging(false, true));
    assert!(!Handler::<QueryBuilders>::keep_paging(false, false));
}

#[test]
fn routes() {
    assert_eq!(TREE_KEY, "tree");
    assert!(matches!(route_request(client(), "tree", None, None), Route::CachedTree));
    assert!(matches!(route_request(client(), "other", None, None), Route::Unknown));
    let texas = "Texas".to_string();
    let harris = "Harris".to_string();
    match route_request(client(), "state", Some(&texas), None) {
        Route::Query { cache_key, builder } => {
            assert_eq!(cache_key, "Texas-all");
            assert!(matches!(&*builder, QueryBuilders::State(b) if b.state == "Texas"));
        }
        _ => panic!("expected a query"),
    }
    match route_request(client(), "country", Some(&texas), Some(&harris)) {
        Route::Query { cache_key, builder } => {
            assert_eq!(cache_key, "Texas-Harris");
            assert!(matches!(&*builder, QueryBuilders::Country(b) if b.state == "Texas" && b.country == "Harris"));
        }
        _ => panic!("expected a query"),
    }
    match route_request(client(), "country", Some(&texas), None) {
        Route::Query { cache_key, builder } => {
            assert_eq!(cache_key, "Texas-all");
            assert!(matches!(&*builder, QueryBuilders::Country(b) if b.country == "all"));
        }
        _ => panic!("expected a query"),
    }
}

#[test]
fn items_answer_the_queries_of_their_state_and_county() {
    let c = City { id: "9".to_string(), name: "Dublin".to_string(), state: "Ohio".to_string(), country: "Franklin".to_string() };
    let item = c.into_item();
    let g1pk = item.iter().find(|a| a.name == "G1PK").unwrap().value.clone();
    let g1sk = item.iter().find(|a| a.name == "G1SK").unwrap().value.clone();
    let state_q = StateQueryBuilder::new(client(), "Ohio".to_string()).build_query();
    assert_eq!(state_q.attribute_names[0].value, "G1PK");
    assert_eq!(state_q.attribute_values[0].value, g1pk);
    let other = StateQueryBuilder::new(client(), "Ohio ".to_string()).build_query();
    assert_ne!(other.attribute_values[0].value, g1pk);
    let county_q = CountryQueryBuilder::new(client(), "Ohio".to_string(), "Franklin".to_string()).build_query();
    assert_eq!(county_q.attribute_values[0].value, g1pk);
    assert_eq!(county_q.attribute_values[1].value, g1sk);
    assert_eq!(county_q.attribute_names[1].value, "G1SK");
}

fn state(name: &str) -> State {
    State { name: name.to_string(), countries: vec![] }
}

fn query_route() -> Route {
    let texas = "Texas".to_string();
    route_request(client(), "state", Some(&texas), None)
}

#[test]
fn cache_entries() {
    assert_eq!(cache_entry(&Route::CachedTree), Some(TREE_KEY.to_string()));
    assert_eq!(cache_entry(&query_route()), Some("Texas-all".to_string()));
    assert_eq!(cache_entry(&Route::Unknown), None);
}

#[test]
fn cached_answer_is_returned() {
    match after_cache(query_route(), Some(vec![state("Texas")])) {
        Answer::Reply(t) => assert_eq!(t, vec![state("Texas")]),
        Answer::Compute { .. } => panic!("cached answer not used"),
    }
    match after_cache(Route::CachedTree, Some(vec![state("Ohio")])) {
        Answer::Reply(t) => assert_eq!(t, vec![state("Ohio")]),
        Answer::Compute { .. } => panic!("tree is never computed"),
    }
}

#[test]
fn missing_answer_is_computed_or_empty() {
    match after_cache(query_route(), None) {
        Answer::Compute { cache_key, builder } => {
            assert_eq!(cache_key, "Texas-all");
            assert!(matches!(*builder, QueryBuilders::State(_)));
        }
        Answer::Reply(_) => panic!("query not run"),
    }
    assert!(matches!(after_cache(Route::CachedTree, None), Answer::Reply(t) if t.is_empty()));
    assert!(matches!(after_cache(Route::Unknown, None), Answer::Reply(t) if t.is_empty()));
}
