use assetario::structures::{City, ItemAttribute, TreeCity};

fn city(id: &str, name: &str, state: &str, country: &str) -> City {
    City { id: id.to_string(), name: name.to_string(), state: state.to_string(), country: country.to_string() }
}

#[test]
fn tree_city_keeps_the_city() {
    let c = TreeCity::from(city("1840034016", "Austin", "Texas", "Travis"));
    assert_eq!(c.id, "1840034016");
    assert_eq!(*c.name, "Austin");
    assert_eq!(*c.state, "Texas");
    assert_eq!(*c.county, "Travis");
}

#[test]
fn item_of_a_city() {
    let item = city("1840034016", "Austin", "Texas", "Travis").into_item();
    let expected: Vec<(&str, &str)> = vec![
        ("PK", "city#id#1840034016"),
        ("SK", "city#id#1840034016"),
        ("G1PK", "state#Texas"),
        ("G1SK", "country#Travis"),
        ("G2PK", "cityByName"),
        ("G2SK", "city#Austin"),
        ("id", "1840034016"),
        ("name", "Austin"),
        ("state", "Texas"),
        ("country", "Travis"),
    ];
    let got: Vec<(&str, &str)> =
        item.iter().map(|a: &ItemAttribute| (a.name.as_str(), a.value.as_str())).collect();
    assert_eq!(got, expected);
}

#[test]
fn item_keys_are_distinct() {
    let item = city("7", "A", "B", "C").into_item();
    let mut names: Vec<&str> = item.iter().map(|a| a.name.as_str()).collect();
    names.sort();
    names.dedup();
    assert_eq!(names.len(), 10);
}
