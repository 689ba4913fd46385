use std::sync::Arc;
use vstd::prelude::*;

verus! {

/// A city as the data set and the GraphQL schema know it.
#[derive(Debug, Clone, PartialEq, Eq, Hash)]
pub struct City {
    pub id: String,
    pub name: String,
    pub state: String,
    pub country: String,
}

/// What a city is, as plain text: its id, name, state and county.
pub struct CityView {
    pub id: Seq<char>,
    pub name: Seq<char>,
    pub state: Seq<char>,
    pub country: Seq<char>,
}

impl View for City {
    type V = CityView;

    open spec fn view(&self) -> CityView {
        CityView { id: self.id@, name: self.name@, state: self.state@, country: self.country@ }
    }
}

/// The cities of one county, as the GraphQL schema nests them.
#[derive(Debug, Clone, PartialEq, Eq, Hash)]
pub struct Country {
    pub name: String,
    pub cities: Vec<City>,
}

/// The counties of one state, as the GraphQL schema nests them.
#[derive(Debug, Clone, PartialEq, Eq, Hash)]
pub struct State {
    pub name: String,
    pub countries: Vec<Country>,
}

/// The GraphQL answer: the states, each with its counties and their cities.
pub type GqlTree = Vec<State>;

/// The views of a sequence of cities.
pub open spec fn cities_view(cities: Seq<City>) -> Seq<CityView> {
    cities.map_values(|c: City| c@)
}

impl View for Country {
    type V = (Seq<char>, Seq<CityView>);

    open spec fn view(&self) -> (Seq<char>, Seq<CityView>) {
        (self.name@, cities_view(self.cities@))
    }
}

impl View for State {
    type V = (Seq<char>, Seq<(Seq<char>, Seq<CityView>)>);

    open spec fn view(&self) -> (Seq<char>, Seq<(Seq<char>, Seq<CityView>)>) {
        (self.name@, self.countries@.map_values(|c: Country| c@))
    }
}

/// The GraphQL answer: the states with their counties and cities.
pub open spec fn gql_view(tree: Seq<State>) -> Seq<(Seq<char>, Seq<(Seq<char>, Seq<CityView>)>)> {
    tree.map_values(|s: State| s@)
}

/// A city inside the state/county tree; the state and county names are shared
/// with the branches of the tree.
#[derive(Debug, Clone, PartialEq, Eq, Hash)]
pub struct TreeCity {
    pub id: String,
    pub name: Arc<String>,
    pub state: Arc<String>,
    pub county: Arc<String>,
}

impl View for TreeCity {
    type V = CityView;

    open spec fn view(&self) -> CityView {
        CityView { id: self.id@, name: self.name@, state: self.state@, country: self.county@ }
    }
}

impl TreeCity {
    /// Moves a city into the tree's representation; it stays the same city.
    pub fn from(other: City) -> (res: TreeCity)
        ensures
            res@ == other@,
    {
        TreeCity {
            id: other.id,
            name: Arc::new(other.name),
            state: Arc::new(other.state),
            county: Arc::new(other.country),
        }
    }
}

/// One string attribute of a DynamoDB item: its name and its value.
#[derive(Debug, Clone, PartialEq, Eq, Hash)]
pub struct ItemAttribute {
    pub name: String,
    pub value: String,
}

impl View for ItemAttribute {
    type V = (Seq<char>, Seq<char>);

    open spec fn view(&self) -> (Seq<char>, Seq<char>) {
        (self.name@, self.value@)
    }
}

/// The DynamoDB item stored for a city: its keys for the table and for the
/// two secondary indexes, then its own fields.
pub open spec fn city_item(c: CityView) -> Seq<(Seq<char>, Seq<char>)> {
    seq![
        ("PK"@, "city#id#"@ + c.id),
        ("SK"@, "city#id#"@ + c.id),
        ("G1PK"@, "state#"@ + c.state),
        ("G1SK"@, "country#"@ + c.country),
        ("G2PK"@, "cityByName"@),
        ("G2SK"@, "city#"@ + c.name),
        ("id"@, c.id),
        ("name"@, c.name),
        ("state"@, c.state),
        ("country"@, c.country),
    ]
}

fn attribute(name: &str, value: String) -> (res: ItemAttribute)
    ensures
        res@ == (name@, value@),
{
    ItemAttribute { name: String::from_str(name), value }
}

/// `prefix` followed by `value`.
pub(crate) fn prefixed(prefix: &str, value: &String) -> (res: String)
    ensures
        res@ == prefix@ + value@,
{
    let mut res = String::from_str(prefix);
    res.append(value.as_str());
    res
}

impl City {
    /// The DynamoDB item that stores this city.
    pub fn into_item(self) -> (res: Vec<ItemAttribute>)
        ensures
            res@.map_values(|a: ItemAttribute| a@) == city_item(self@),
    {
        let ghost c = self@;
        let mut res: Vec<ItemAttribute> = Vec::new();
        res.push(attribute("PK", prefixed("city#id#", &self.id)));
        res.push(attribute("SK", prefixed("city#id#", &self.id)));
        res.push(attribute("G1PK", prefixed("state#", &self.state)));
        res.push(attribute("G1SK", prefixed("country#", &self.country)));
        res.push(attribute("G2PK", String::from_str("cityByName")));
        res.push(attribute("G2SK", prefixed("city#", &self.name)));
        res.push(attribute("id", self.id));
        res.push(attribute("name", self.name));
        res.push(attribute("state", self.state));
        res.push(attribute("country", self.country));
        assert(res@.map_values(|a: ItemAttribute| a@) =~= city_item(c));
        res
    }
}

} // verus!

verus! {

/// The value stored under attribute `name` in `item`: that of its first attribute of
/// that name, if any.
pub open spec fn value_of(item: Seq<(Seq<char>, Seq<char>)>, name: Seq<char>) -> Option<Seq<char>>
    decreases item.len(),
{
    if item.len() == 0 {
        None
    } else if item[0].0 == name {
        Some(item[0].1)
    } else {
        value_of(item.drop_first(), name)
    }
}

/// The city read back from an item by attribute name, if the item has all four fields.
pub open spec fn city_of_item(item: Seq<(Seq<char>, Seq<char>)>) -> Option<CityView> {
    match (
        value_of(item, "id"@),
        value_of(item, "name"@),
        value_of(item, "state"@),
        value_of(item, "country"@),
    ) {
        (Some(id), Some(name), Some(state), Some(country)) => Some(
            CityView { id, name, state, country },
        ),
        _ => None,
    }
}

/// The item of a city keeps the city whole: read back by attribute name, its fields
/// are the city's own, unchanged, and its keys are built from them (`PK` and `SK` from
/// the id, `G1PK` from the state, `G1SK` from the county, `G2SK` from the name).
pub proof fn lemma_item_keeps_city(c: CityView)
    ensures
        city_of_item(city_item(c)) == Some(c),
        value_of(city_item(c), "id"@) == Some(c.id),
        value_of(city_item(c), "name"@) == Some(c.name),
        value_of(city_item(c), "state"@) == Some(c.state),
        value_of(city_item(c), "country"@) == Some(c.country),
        value_of(city_item(c), "PK"@) == Some("city#id#"@ + c.id),
        value_of(city_item(c), "SK"@) == Some("city#id#"@ + c.id),
        value_of(city_item(c), "G1PK"@) == Some("state#"@ + c.state),
        value_of(city_item(c), "G1SK"@) == Some("country#"@ + c.country),
        value_of(city_item(c), "G2PK"@) == Some("cityByName"@),
        value_of(city_item(c), "G2SK"@) == Some("city#"@ + c.name),
{
    reveal_strlit("PK");
    reveal_strlit("SK");
    reveal_strlit("G1PK");
    reveal_strlit("G1SK");
    reveal_strlit("G2PK");
    reveal_strlit("G2SK");
    reveal_strlit("id");
    reveal_strlit("name");
    reveal_strlit("state");
    reveal_strlit("country");
    let item = city_item(c);
    let names = seq!["PK"@, "SK"@, "G1PK"@, "G1SK"@, "G2PK"@, "G2SK"@, "id"@, "name"@, "state"@, "country"@];
    assert forall|i: int, j: int| 0 <= i < j < 10 implies #[trigger] names[i] != #[trigger] names[j] by {
        if names[i].len() == names[j].len() {
            if names[i].len() == 2 {
                assert(names[i][0] != names[j][0]);
            } else if names[i].len() == 4 {
                assert(names[i][1] != names[j][1] || names[i][2] != names[j][2]);
            }
        }
    }
    assert forall|i: int| 0 <= i < 10 implies #[trigger] item[i].0 == names[i] by {}
    assert forall|i: int| 0 <= i < 10 implies value_of(item, #[trigger] names[i]) == Some(item[i].1) by {
        assert forall|j: int| 0 <= j < i implies item[j].0 != names[i] by {
            assert(item[j].0 == names[j]);
        }
        lemma_value_at(item, i, names[i]);
    }
    assert(names[0] == "PK"@ && names[1] == "SK"@ && names[2] == "G1PK"@ && names[3] == "G1SK"@);
    assert(names[4] == "G2PK"@ && names[5] == "G2SK"@ && names[6] == "id"@ && names[7] == "name"@);
    assert(names[8] == "state"@ && names[9] == "country"@);
}

/// The first attribute named `name` is the one at `i`.
proof fn lemma_value_at(item: Seq<(Seq<char>, Seq<char>)>, i: int, name: Seq<char>)
    requires
        0 <= i < item.len(),
        item[i].0 == name,
        forall|j: int| 0 <= j < i ==> item[j].0 != name,
    ensures
        value_of(item, name) == Some(item[i].1),
    decreases i,
{
    if i > 0 {
        assert forall|j: int| 0 <= j < i - 1 implies item.drop_first()[j].0 != name by {
            assert(item.drop_first()[j] == item[j + 1]);
        }
        lemma_value_at(item.drop_first(), i - 1, name);
    }
}

} // verus!
