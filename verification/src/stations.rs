//! The stations that are known by name.

use vstd::hash_map::StringHashMap;
use vstd::prelude::*;

verus! {

/// The number of each station that is known by name.
pub open spec fn station_ids() -> Map<Seq<char>, Seq<char>> {
    map!["Osnabrück"@ => "01766"@, "Lingen"@ => "03023"@]
}

/// The names in `map` and the number that stands under each.
pub open spec fn ids_by_name(map: StringHashMap<String>) -> Map<Seq<char>, Seq<char>> {
    map@.map_values(|id: String| id@)
}

/// The table of the stations that are known by name, each name with the
/// station's number.
pub fn build_station_map() -> (station_map: StringHashMap<String>)
    ensures
        ids_by_name(station_map) == station_ids(),
{
    let mut station_map: StringHashMap<String> = StringHashMap::new();
    station_map.insert("Osnabrück".to_owned(), "01766".to_owned());
    station_map.insert("Lingen".to_owned(), "03023".to_owned());
    assert(ids_by_name(station_map) =~= station_ids());
    station_map
}

/// The number of the station named `station_name`, if it is known.
pub fn get_station_id_by_name(station_name: &str) -> (id: Option<String>)
    ensures
        id is Some <==> station_ids().contains_key(station_name@),
        id matches Some(number) ==> number@ == station_ids()[station_name@],
{
    let station_map = build_station_map();
    assert(station_map@.contains_key(station_name@) <==> ids_by_name(station_map).contains_key(
        station_name@,
    ));
    match station_map.get(station_name) {
        Some(id) => {
            assert(ids_by_name(station_map)[station_name@] == id@);
            Some(id.clone())
        },
        None => None,
    }
}

/// The names of the stations that are known, each once.
pub fn all_station_names() -> (names: Vec<String>)
    ensures
        names@.len() == 2,
        names@[0]@ != names@[1]@,
        forall|name: Seq<char>|
            station_ids().contains_key(name) <==> (names@[0]@ == name || names@[1]@ == name),
{
    let mut names: Vec<String> = Vec::new();
    names.push("Osnabrück".to_owned());
    names.push("Lingen".to_owned());
    proof {
        reveal_strlit("Osnabrück");
        reveal_strlit("Lingen");
        assert("Osnabrück"@.len() != "Lingen"@.len());
    }
    names
}

} // verus!
