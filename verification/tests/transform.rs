use assetario::structures::{City, GqlTree, State};
use assetario::transform::{Transformer, Tree};

fn city(id: &str, name: &str, state: &str, country: &str) -> City {
    City { id: id.to_string(), name: name.to_string(), state: state.to_string(), country: country.to_string() }
}

fn sample() -> Vec<City> {
    vec![
        city("1", "Houston", "Texas", "Harris"),
        city("2", "Austin", "Texas", "Travis"),
        city("3", "Pasadena", "Texas", "Harris"),
        city("4", "Baytown", "Texas", "Harris"),
        city("5", "Columbus", "Ohio", "Franklin"),
        city("6", "Pasadena", "California", "Los Angeles"),
        city("7", "Baytown", "Texas", "Harris"),
    ]
}

fn names(s: &State) -> Vec<(String, Vec<String>)> {
    s.countries
        .iter()
        .map(|c| (c.name.clone(), c.cities.iter().map(|x| x.id.clone()).collect()))
        .collect()
}

#[test]
fn tree_groups_by_state_and_county_in_input_order() {
    let tree = Transformer::transform(sample());
    let states: Vec<&str> = tree.states().iter().map(|s| s.name.as_str()).collect();
    assert_eq!(states, vec!["California", "Ohio", "Texas"]);
    let texas = &tree.states()[2];
    let counties: Vec<&str> = texas.counties.iter().map(|c| c.name.as_str()).collect();
    assert_eq!(counties, vec!["Harris", "Travis"]);
    let harris: Vec<&str> = texas.counties[0].cities.iter().map(|c| c.id.as_str()).collect();
    assert_eq!(harris, vec!["1", "3", "4", "7"]);
}

#[test]
fn insert_one_by_one_equals_transform() {
    let mut tree = Tree::new();
    for c in sample() {
        Transformer::insert(&mut tree, c);
    }
    let a = Transformer::gql_tree(tree);
    let b = Transformer::gql_tree(Transformer::transform(sample()));
    assert_eq!(a, b);
}

#[test]
fn tree_shares_names_with_its_cities() {
    let tree = Transformer::transform(sample());
    for s in tree.states().iter() {
        for c in s.counties.iter() {
            for x in c.cities.iter() {
                assert_eq!(*x.state, *s.name);
                assert_eq!(*x.county, *c.name);
            }
        }
    }
}

#[test]
fn answer_sorts_cities_by_name_stably() {
    let answer = Transformer::gql_tree(Transformer::transform(sample()));
    assert_eq!(answer.len(), 3);
    assert_eq!(answer[0].name, "California");
    assert_eq!(answer[1].name, "Ohio");
    assert_eq!(answer[2].name, "Texas");
    assert_eq!(
        names(&answer[2]),
        vec![
            ("Harris".to_string(), vec!["4".to_string(), "7".to_string(), "1".to_string(), "3".to_string()]),
            ("Travis".to_string(), vec!["2".to_string()]),
        ]
    );
    let houston = &answer[2].countries[0].cities[2];
    assert_eq!(houston, &city("1", "Houston", "Texas", "Harris"));
}

#[test]
fn answer_keeps_every_city() {
    let input = sample();
    let answer = Transformer::answer(input.clone());
    let mut out: Vec<City> = answer
        .iter()
        .flat_map(|s| s.countries.iter().flat_map(|c| c.cities.iter().cloned()))
        .collect();
    let mut expected = input;
    out.sort_by(|a, b| a.id.cmp(&b.id));
    expected.sort_by(|a, b| a.id.cmp(&b.id));
    assert_eq!(out, expected);
}

#[test]
fn byte_order_of_names() {
    let cities = vec![
        city("1", "alpha", "s", "c"),
        city("2", "Zeta", "s", "c"),
        city("3", "Beta", "S", "c"),
    ];
    let answer = Transformer::answer(cities);
    assert_eq!(answer[0].name, "S");
    assert_eq!(answer[1].name, "s");
    let ids: Vec<&str> = answer[1].countries[0].cities.iter().map(|c| c.id.as_str()).collect();
    assert_eq!(ids, vec!["2", "1"]);
}

#[test]
fn empty_input_empty_answer() {
    assert!(Transformer::answer(vec![]).is_empty());
    assert!(Transformer::transform(vec![]).states().is_empty());
}

fn shape(tree: &Tree) -> Vec<(String, Vec<(String, Vec<String>)>)> {
    tree.states()
        .iter()
        .map(|s| {
            let counties = s
                .counties
                .iter()
                .map(|c| {
                    let mut ids: Vec<String> = c.cities.iter().map(|x| x.id.clone()).collect();
                    ids.sort();
                    (c.name.as_str().to_string(), ids)
                })
                .collect();
            (s.name.as_str().to_string(), counties)
        })
        .collect()
}

#[test]
fn input_order_changes_only_order_within_counties() {
    let forward = Transformer::transform(sample());
    let mut reversed = sample();
    reversed.reverse();
    let backward = Transformer::transform(reversed);
    assert_eq!(shape(&forward), shape(&backward));
    let harris: Vec<String> = backward.states()[2].counties[0].cities.iter().map(|x| x.id.clone()).collect();
    assert_eq!(harris, vec!["7", "4", "3", "1"]);
}

#[test]
fn answer_is_a_gql_tree() {
    let answer: GqlTree = Transformer::answer(sample());
    let states: Vec<&str> = answer.iter().map(|s| s.name.as_str()).collect();
    assert_eq!(states, vec!["California", "Ohio", "Texas"]);
}
