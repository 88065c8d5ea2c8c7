use historical_weather::downloader::{
    contains_text, download_url, filter_station_info, find_data_file, find_station_zipfile,
    find_value, join_station_lines, search, station_id_in_listing, LookupError, DWD_URL,
};

#[test]
fn test_correct_toc_small() {
    let fake_toc = "stundenwerte_TU_00044_20070401_20201231_hist.zip</a>\n";
    let correct_res = "stundenwerte_TU_00044_20070401_20201231_hist.zip";
    let res = find_station_zipfile(fake_toc, "00044").unwrap();
    assert_eq!(res, correct_res);
}

#[test]
fn test_correct_toc_big() {
    let fake_toc = "stundenwerte_TU_00044_20070401_20201231_hist.zip</a>\n
        stundenwerte_TU_00055_20070401_20201231_hist.zip</a>\n
        stundenwerte_TU_00066_20070401_20201231_hist.zip</a>\n";
    let correct_res = "stundenwerte_TU_00044_20070401_20201231_hist.zip";
    let res = find_station_zipfile(fake_toc, "00044").unwrap();
    assert_eq!(res, correct_res);
}

#[test]
#[should_panic]
fn test_wrong_toc() {
    let fake_toc = "xxxx\n";
    let _res = find_station_zipfile(fake_toc, "00044").unwrap();
}

#[test]
fn test_first_line() {
    let station_file = "00003 19500401 20110331            202     50.7827    6.0941 Aachen                                   Nordrhein-Westfalen                                                                               
        00044 20070401 20210920             44     52.9336    8.2370 Großenkneten                             Niedersachsen                                                                                     
        00052 19760101 19880101             46     53.6623   10.1990 Ahrensburg-Wulfsdorf                     Schleswig-Holstein ";
    let res = filter_station_info(station_file, "Aachen");
    assert_eq!(res.unwrap(), "00003");
}

#[test]
fn test_second_line() {
    let station_file = "00003 19500401 20110331            202     50.7827    6.0941 Aachen                                   Nordrhein-Westfalen                                                                               
        00044 20070401 20210920             44     52.9336    8.2370 Großenkneten                             Niedersachsen                                                                                     
        00052 19760101 19880101             46     53.6623   10.1990 Ahrensburg-Wulfsdorf                     Schleswig-Holstein ";
    let res = filter_station_info(station_file, "Großenkneten");
    assert_eq!(res.unwrap(), "00044");
}

#[test]
fn test_third_line() {
    let station_file = "00003 19500401 20110331            202     50.7827    6.0941 Aachen                                   Nordrhein-Westfalen                                                                               
        00044 20070401 20210920             44     52.9336    8.2370 Großenkneten                             Niedersachsen                                                                                     
        00052 19760101 19880101             46     53.6623   10.1990 Ahrensburg-Wulfsdorf                     Schleswig-Holstein ";
    let res = filter_station_info(station_file, "Ahrensburg-Wulfsdorf");
    assert_eq!(res.unwrap(), "00052");
}

#[test]
fn toc_without_the_station_is_reported() {
    assert_eq!(find_station_zipfile("xxxx\n", "00044"), Err(LookupError::NotFound));
    let other = "stundenwerte_TU_00055_20070401_20201231_hist.zip</a>\n";
    assert_eq!(find_station_zipfile(other, "00044"), Err(LookupError::NotFound));
    assert_eq!(find_station_zipfile("", "00044"), Err(LookupError::NotFound));
}

#[test]
fn toc_gives_the_first_link_of_the_station() {
    let toc = "<a href=\"x\">stundenwerte_TU_00055_19500101_20201231_hist.zip</a>\n\
               <a href=\"y\">stundenwerte_TU_00044_akt.zip</a>\n\
               <a href=\"z\">stundenwerte_TU_00044_20070401_20201231_hist.zip</a>\n";
    assert_eq!(find_station_zipfile(toc, "00044").unwrap(), "stundenwerte_TU_00044_akt.zip");
    assert_eq!(
        find_station_zipfile(toc, "00055").unwrap(),
        "stundenwerte_TU_00055_19500101_20201231_hist.zip"
    );
}

#[test]
fn station_that_is_not_described_is_reported() {
    let station_file = "00003 19500401 20110331            202     50.7827    6.0941 Aachen                                   Nordrhein-Westfalen                                                                               ";
    assert_eq!(filter_station_info(station_file, "Lingen"), Err(LookupError::NotFound));
    assert_eq!(filter_station_info("", "Aachen"), Err(LookupError::NotFound));
}

#[test]
fn search_reports_a_bad_pattern() {
    assert_eq!(search("(?P<k>a", "aaa", "k", "k", "a"), Err(LookupError::BadPattern));
}

#[test]
fn search_takes_key_and_value_from_named_groups() {
    let pattern = "(?P<k>[a-z]+)=(?P<v>[0-9]+)";
    assert_eq!(search(pattern, "a=1 b=2 a=3", "k", "v", "b").unwrap(), "2");
    assert_eq!(search(pattern, "a=1 b=2 a=3", "k", "v", "a").unwrap(), "1");
    assert_eq!(search(pattern, "a=1 b=2 a=3", "v", "k", "3").unwrap(), "a");
    assert_eq!(search(pattern, "a=1 b=2 a=3", "k", "v", "c"), Err(LookupError::NotFound));
    assert_eq!(search(pattern, "a=1 b=2 a=3", "k", "w", "a"), Err(LookupError::NoValue));
    assert_eq!(search(pattern, "a=1 b=2 a=3", "w", "v", "a"), Err(LookupError::NotFound));
}

#[test]
fn find_value_takes_the_first_with_the_key() {
    let captures = vec![
        (None, Some("0".to_owned())),
        (Some("x".to_owned()), Some("1".to_owned())),
        (Some("y".to_owned()), None),
        (Some("x".to_owned()), Some("2".to_owned())),
        (Some("y".to_owned()), Some("3".to_owned())),
    ];
    assert_eq!(find_value(&captures, "x").unwrap(), "1");
    assert_eq!(find_value(&captures, "y"), Err(LookupError::NoValue));
    assert_eq!(find_value(&captures, "z"), Err(LookupError::NotFound));
    assert_eq!(find_value(&captures, ""), Err(LookupError::NotFound));
    assert_eq!(find_value(&Vec::new(), "x"), Err(LookupError::NotFound));
}

#[test]
fn station_lines_are_joined_behind_the_header() {
    assert_eq!(join_station_lines("head\n----\none\ntwo\n"), "onetwo");
    assert_eq!(join_station_lines("head\n----\none\ntwo"), "onetwo");
    assert_eq!(join_station_lines("head\n----\n"), "");
    assert_eq!(join_station_lines("head\n----"), "");
    assert_eq!(join_station_lines("head"), "");
    assert_eq!(join_station_lines(""), "");
    assert_eq!(join_station_lines("\n\n\n\na\n\nb"), "ab");
}

#[test]
fn station_is_found_in_a_listing_of_one() {
    let listing = "Stations_id von_datum bis_datum Stationshoehe geoBreite geoLaenge Stationsname Bundesland\n\
----------- --------- --------- ------------- --------- --------- ----------------------------------------- ----------\n\
00003 19500401 20110331            202     50.7827    6.0941 Aachen                                   Nordrhein-Westfalen                                                                               \n";
    assert_eq!(station_id_in_listing(listing, "Aachen").unwrap(), "00003");
    assert_eq!(station_id_in_listing(listing, "Stationsname"), Err(LookupError::NotFound));
    assert_eq!(station_id_in_listing(listing, "Lingen"), Err(LookupError::NotFound));
}

#[test]
fn station_lines_that_run_together_are_searched_as_one() {
    let listing = "head\n----\n\
00003 19500401 20110331            202     50.7827    6.0941 Aachen                                   Nordrhein-Westfalen     \n\
00044 20070401 20210920             44     52.9336    8.2370 Lingen                                   Niedersachsen           \n";
    let joined = join_station_lines(listing);
    assert_eq!(station_id_in_listing(listing, "Aachen"), filter_station_info(&joined, "Aachen"));
    assert_eq!(station_id_in_listing(listing, "Lingen"), filter_station_info(&joined, "Lingen"));
    assert_eq!(station_id_in_listing(listing, "Aachen"), Err(LookupError::NotFound));
}

#[test]
fn download_url_joins_directory_and_name() {
    let url = download_url("stundenwerte_TU_00044_akt.zip");
    assert_eq!(url, format!("{}/{}", DWD_URL, "stundenwerte_TU_00044_akt.zip"));
    assert_eq!(
        url,
        "https://opendata.dwd.de/climate_environment/CDC/observations_germany/climate/hourly/air_temperature/historical//stundenwerte_TU_00044_akt.zip"
    );
}

#[test]
fn text_is_found_where_it_stands() {
    assert!(contains_text("/tmp/x/produkt_tu_stunde_1.txt", "produkt_tu"));
    assert!(contains_text("produkt_tu", "produkt_tu"));
    assert!(contains_text("xproduktproduct_produkt_tu", "produkt_tu"));
    assert!(contains_text("abc", ""));
    assert!(contains_text("", ""));
    assert!(!contains_text("", "a"));
    assert!(!contains_text("produkt_t", "produkt_tu"));
    assert!(!contains_text("produkt-tu produkt_t u", "produkt_tu"));
    assert!(contains_text("Größe", "öß"));
    assert!(!contains_text("Größe", "ßö"));
}

#[test]
fn data_file_is_the_first_with_the_mark() {
    let paths = vec![
        "/tmp/a/Metadaten_Geographie_01766.txt".to_owned(),
        "/tmp/a/produkt_tu_stunde_19891001_20201231_01766.txt".to_owned(),
        "/tmp/a/produkt_tu_other.txt".to_owned(),
    ];
    assert_eq!(find_data_file(&paths), Some(1));
    assert_eq!(find_data_file(&paths[..1].to_vec()), None);
    assert_eq!(find_data_file(&Vec::new()), None);
}
