use csv::StringRecord;
use geocode_csv::addresses::Address;
use geocode_csv::geocoders::invalid_record_skipper::InvalidRecordSkipper;
use geocode_csv::geocoders::invalid_record_skipper::WrongNumberOfResults;
use geocode_csv::geocoders::libpostal::LibPostal;
use geocode_csv::geocoders::normalizer::append_space_separated;
use geocode_csv::geocoders::normalizer::normalized_to_address;
use geocode_csv::geocoders::normalizer::Normalizer;
use geocode_csv::geocoders::paired::DifferentNumbersOfResults;
use geocode_csv::geocoders::paired::Paired;
use geocode_csv::geocoders::cache_prefix_from_digest;
use geocode_csv::geocoders::fingerprint;
use geocode_csv::geocoders::smarty::Smarty;
use geocode_csv::geocoders::Geocoded;
use geocode_csv::geocoders::Geocoder;
use geocode_csv::geocoders::GeocoderInfo;
use geocode_csv::geocoders::MatchStrategy;

fn address(street: &str) -> Address {
    Address {
        street: street.to_owned(),
        city: None,
        state: None,
        zipcode: None,
    }
}

fn geocoded(values: &[&str]) -> Geocoded {
    Geocoded {
        column_values: values.iter().map(|v| (*v).to_owned()).collect(),
    }
}

fn parsed(components: &[(&str, &str)]) -> Geocoded {
    let pairs: Vec<(String, String)> = components
        .iter()
        .map(|(label, text)| ((*label).to_owned(), (*text).to_owned()))
        .collect();
    LibPostal::new().geocoded_from_components(&pairs)
}

#[test]
fn match_strategies_have_names() {
    assert_eq!(MatchStrategy::parse("strict"), Ok(MatchStrategy::Strict));
    assert_eq!(MatchStrategy::parse("range"), Ok(MatchStrategy::Range));
    assert_eq!(MatchStrategy::parse("invalid"), Ok(MatchStrategy::Invalid));
    assert_eq!(MatchStrategy::parse("enhanced"), Ok(MatchStrategy::Enhanced));
    assert_eq!(MatchStrategy::parse("Strict"), Err("Strict".to_owned()));
    assert_eq!(MatchStrategy::parse(""), Err("".to_owned()));
    assert_eq!(MatchStrategy::default(), MatchStrategy::Strict);
    for strategy in [
        MatchStrategy::Strict,
        MatchStrategy::Range,
        MatchStrategy::Invalid,
        MatchStrategy::Enhanced,
    ] {
        assert_eq!(MatchStrategy::parse(strategy.as_str()), Ok(strategy));
    }
    assert_eq!(MatchStrategy::Enhanced.as_str(), "enhanced");
}

#[test]
fn cache_prefix_is_tag_and_two_bytes_of_the_digest() {
    // The first two bytes of the SHA-256 digest of the column names, each
    // followed by a zero byte, and of the configuration key.
    assert_eq!(LibPostal::new().cache_prefix(), "lp:a600");
    let smarty = Smarty::new(MatchStrategy::Strict, "us-standard-cloud".to_owned()).unwrap();
    assert_eq!(smarty.configuration_key(), "strict:us-standard-cloud");
    assert_eq!(smarty.tag(), "sm");
    assert_eq!(smarty.cache_prefix(), "sm:1b84");
    // The same on every call.
    assert_eq!(smarty.cache_prefix(), smarty.cache_prefix());
    // Another configuration has another key, and here another prefix.
    let other = Smarty::new(MatchStrategy::Range, "us-standard-cloud".to_owned()).unwrap();
    assert_eq!(other.configuration_key(), "range:us-standard-cloud");
    assert_ne!(other.cache_prefix(), smarty.cache_prefix());
}

#[test]
fn a_fingerprint_is_made_of_the_column_names_and_the_configuration_key() {
    let names = vec!["a".to_owned(), "é".to_owned(), "".to_owned()];
    assert_eq!(
        fingerprint(&names, "key"),
        vec![b'a', 0, 0xc3, 0xa9, 0, 0, b'k', b'e', b'y']
    );
    assert_eq!(fingerprint(&[], ""), Vec::<u8>::new());
    assert_eq!(fingerprint(&[], "k"), vec![b'k']);
    assert_eq!(cache_prefix_from_digest("sm", &[0x1b, 0x84, 0xff]), "sm:1b84");
    assert_eq!(cache_prefix_from_digest("", &[0x00, 0x0a]), ":000a");
    assert_eq!(cache_prefix_from_digest("t", &[0xff, 0x9f]), "t:ff9f");
    // The digest of no bytes at all begins with e3 b0.
    let nothing = GeocoderInfo::new("x".to_owned(), String::new(), vec![]);
    assert_eq!(nothing.cache_prefix(), "x:e3b0");
    let one = GeocoderInfo::new("x".to_owned(), "k".to_owned(), vec!["a".to_owned()]);
    assert_eq!(one.cache_prefix(), "x:9a2a");
    assert_eq!(GeocoderInfo::of(&one), one);
}

#[test]
fn geocoders_add_their_columns_to_headers_and_rows() {
    let parser = LibPostal::new();
    assert_eq!(parser.tag(), "lp");
    assert_eq!(parser.configuration_key(), "default");
    assert_eq!(parser.column_names().len(), 30);
    let mut header = StringRecord::from(vec!["a", "b"]);
    parser.add_header_columns("gc", &mut header);
    assert_eq!(header.len(), 32);
    assert_eq!(&header[0], "a");
    assert_eq!(&header[2], "gc_archipelago");
    assert_eq!(&header[3], "gc_city");
    assert_eq!(&header[31], "gc_world_region");

    let mut row = StringRecord::from(vec!["x"]);
    parser.add_value_columns_to_row(&geocoded(&["1", "", "3"]), &mut row);
    assert_eq!(row, vec!["x", "1", "", "3"]);

    let mut row = StringRecord::from(vec!["x"]);
    parser.add_empty_columns_to_row(&mut row);
    assert_eq!(row.len(), 31);
    assert!(row.iter().skip(1).all(|field| field.is_empty()));
    assert_eq!(&row[0], "x");
}

#[test]
fn geocoded_values_can_be_joined_and_checked_for_nul() {
    let first = geocoded(&["a", "b"]);
    let second = geocoded(&["c"]);
    assert_eq!(first.concat(&second), geocoded(&["a", "b", "c"]));
    assert_eq!(second.concat(&first), geocoded(&["c", "a", "b"]));
    assert_eq!(geocoded(&[]).concat(&geocoded(&[])), geocoded(&[]));
    assert_eq!(first.clone(), first);
    assert!(!first.contains_null_bytes());
    assert!(!geocoded(&[]).contains_null_bytes());
    assert!(geocoded(&["a", "b\0c"]).contains_null_bytes());
    assert!(geocoded(&["\0"]).contains_null_bytes());
}

#[test]
fn invalid_addresses_are_skipped_and_get_no_result() {
    let inner = LibPostal::new();
    let skipper = InvalidRecordSkipper::new(&inner);
    assert_eq!(skipper.tag(), "lp");
    assert_eq!(skipper.configuration_key(), "default");
    assert_eq!(skipper.column_names(), inner.column_names());
    assert_eq!(skipper.cache_prefix(), inner.cache_prefix());

    let addresses = vec![
        address(""),
        address("1 Main St"),
        address(" \t "),
        address("2 Main St"),
        address("\n"),
    ];
    let pending = skipper.start(&addresses);
    assert_eq!(
        pending.addresses_to_geocode(),
        &vec![address("1 Main St"), address("2 Main St")]
    );
    let results = pending
        .finish(vec![Some(geocoded(&["one"])), Some(geocoded(&["two"]))])
        .unwrap();
    assert_eq!(
        results,
        vec![
            None,
            Some(geocoded(&["one"])),
            None,
            Some(geocoded(&["two"])),
            None
        ]
    );

    // A valid address may have no result either.
    let pending = skipper.start(&addresses);
    let results = pending.finish(vec![None, Some(geocoded(&["two"]))]).unwrap();
    assert_eq!(
        results,
        vec![None, None, None, Some(geocoded(&["two"])), None]
    );

    // Another number of results than of valid addresses is an error.
    let pending = skipper.start(&addresses);
    assert_eq!(
        pending.finish(vec![None]),
        Err(WrongNumberOfResults {
            found: 1,
            expected: 2
        })
    );

    // No address, or no valid address: nothing goes to the inner geocoder.
    let pending = skipper.start(&[]);
    assert!(pending.addresses_to_geocode().is_empty());
    assert_eq!(pending.finish(vec![]), Ok(vec![]));
    let pending = skipper.start(&addresses[..1]);
    assert!(pending.addresses_to_geocode().is_empty());
    assert_eq!(pending.finish(vec![]), Ok(vec![None]));
}

#[test]
fn a_batch_without_a_valid_address_needs_no_geocoder() {
    let inner = LibPostal::new();
    let skipper = InvalidRecordSkipper::new(&inner);

    let blank = vec![address(""), address("  "), address("\t\n")];
    let pending = skipper.start(&blank);
    assert!(!pending.needs_geocoding());
    assert!(pending.addresses_to_geocode().is_empty());
    assert_eq!(pending.finish(vec![]), Ok(vec![None, None, None]));

    assert!(!skipper.start(&[]).needs_geocoding());

    let mixed = vec![address(""), address("1 Main St")];
    let pending = skipper.start(&mixed);
    assert!(pending.needs_geocoding());
    assert_eq!(pending.addresses_to_geocode(), &vec![address("1 Main St")]);
}

#[test]
fn the_parser_is_given_one_line_for_an_address() {
    let full = Address {
        street: "20 W 34th St".to_owned(),
        city: Some("New York".to_owned()),
        state: Some("NY".to_owned()),
        zipcode: Some("10118".to_owned()),
    };
    assert_eq!(LibPostal::address_line(&full), "20 W 34th St New York NY 10118");
    assert_eq!(LibPostal::address_line(&address("1 Main St")), "1 Main St   ");
}

#[test]
fn parsed_components_become_column_values() {
    let parser = LibPostal::new();
    let found = parsed(&[
        ("house_number", "20"),
        ("road", "w 34th st"),
        ("city", "newark"),
        ("city", "new york"),
        ("state", "ny"),
        ("postcode", "10118"),
        ("planet", "earth"),
    ]);
    assert_eq!(found.column_values.len(), 30);
    let value = |name: &str| {
        let index = parser.column_index(name).unwrap();
        found.column_values[index].clone()
    };
    assert_eq!(value("house_number"), "20");
    assert_eq!(value("road"), "w 34th st");
    // The last component of a label counts.
    assert_eq!(value("city"), "new york");
    assert_eq!(value("state"), "ny");
    assert_eq!(value("postcode"), "10118");
    assert_eq!(value("po_box"), "");
    assert_eq!(parser.column_index("planet"), None);
    assert_eq!(parser.column_index("city"), Some(1));
    assert_eq!(parser.column_index("world_region"), Some(29));
    assert_eq!(
        found.column_values.iter().filter(|v| !v.is_empty()).count(),
        5
    );
}

#[test]
fn a_row_geocoded_by_the_parser_has_its_city_in_a_prefixed_column() {
    // Input columns a1, a2, city, state, zip; prefix `gc`.
    let parser = LibPostal::new();
    let mut header = StringRecord::from(vec!["a1", "a2", "city", "state", "zip"]);
    parser.add_header_columns("gc", &mut header);
    let mut row = StringRecord::from(vec!["20 W 34th St", "", "New York", "NY", "10118"]);
    let found = parsed(&[
        ("house_number", "20"),
        ("road", "w 34th st"),
        ("city", "new york"),
        ("state", "ny"),
        ("postcode", "10118"),
    ]);
    parser.add_value_columns_to_row(&found, &mut row);
    assert_eq!(header.len(), row.len());
    assert!(header.iter().skip(5).all(|name| name.starts_with("gc_")));
    let gc_city = header.iter().position(|name| name == "gc_city").unwrap();
    assert_eq!(&row[gc_city], "new york");
}

#[test]
fn parts_are_trimmed_and_joined_by_single_spaces() {
    let mut base = String::new();
    append_space_separated(&mut base, "  20 ");
    assert_eq!(base, "20");
    append_space_separated(&mut base, "w 34th st\n");
    assert_eq!(base, "20 w 34th st");
    append_space_separated(&mut base, "");
    assert_eq!(base, "20 w 34th st");
    append_space_separated(&mut base, " \t");
    assert_eq!(base, "20 w 34th st");
    append_space_separated(&mut base, "#5");
    assert_eq!(base, "20 w 34th st #5");
    // A text that ends with a space needs no other.
    let mut base = "po box ".to_owned();
    append_space_separated(&mut base, " 12 ");
    assert_eq!(base, "po box 12");
    let mut base = "tab\t".to_owned();
    append_space_separated(&mut base, "x");
    assert_eq!(base, "tab\t x");
}

#[test]
fn a_parsed_address_is_put_together_again() {
    let parser = LibPostal::new();
    let found = parsed(&[
        ("unit", "apt 5"),
        ("road", "franklin ave"),
        ("house_number", "781"),
        ("house", "the franklin"),
        ("po_box", "po box 12"),
        ("city", "nyc"),
        ("city_district", "brooklyn"),
        ("state", " ny "),
        ("postcode", "11216"),
        ("country", "usa"),
    ]);
    assert_eq!(
        normalized_to_address(&parser, &found),
        Address {
            street: "po box 12 781 the franklin franklin ave apt 5".to_owned(),
            city: Some("brooklyn nyc".to_owned()),
            state: Some("ny".to_owned()),
            zipcode: Some("11216".to_owned()),
        }
    );
    // What the parser has not found is missing.
    let found = parsed(&[("road", "main st"), ("state", "  ")]);
    assert_eq!(
        normalized_to_address(&parser, &found),
        Address {
            street: "main st".to_owned(),
            city: None,
            state: None,
            zipcode: None,
        }
    );
    // Column values that end early are read as far as they go.
    let short = geocoded(&["", "springfield"]);
    assert_eq!(
        normalized_to_address(&parser, &short),
        Address {
            street: "".to_owned(),
            city: Some("springfield".to_owned()),
            state: None,
            zipcode: None,
        }
    );
}

#[test]
fn the_normalizer_passes_on_normalized_addresses() {
    let inner = Smarty::new(MatchStrategy::Strict, "us-standard-cloud".to_owned()).unwrap();
    let normalizer = Normalizer::new(&inner);
    assert_eq!(normalizer.tag(), "norm");
    assert_eq!(normalizer.configuration_key(), inner.configuration_key());
    assert_eq!(normalizer.column_names(), inner.column_names());
    assert_eq!(normalizer.libpostal().column_names().len(), 30);

    let addresses = vec![address("781 Franklin Ave"), address("somewhere")];
    let found = vec![
        Some(parsed(&[("house_number", "781"), ("road", "franklin ave")])),
        None,
    ];
    assert_eq!(
        normalizer.normalize(&addresses, &found),
        Ok(vec![address("781 franklin ave"), address("somewhere")])
    );
    assert_eq!(
        normalizer.normalize(&addresses, &found[..1].to_vec()),
        Err(WrongNumberOfResults {
            found: 1,
            expected: 2
        })
    );
    assert_eq!(normalizer.normalize(&[], &vec![]), Ok(vec![]));
}

#[test]
fn a_pair_of_geocoders_returns_the_results_of_both() {
    let first = Smarty::new(MatchStrategy::Strict, "us-standard-cloud".to_owned()).unwrap();
    let second = LibPostal::new();
    let paired = Paired::new(&first, "libpostal", &second);
    assert_eq!(paired.tag(), "pair");
    assert_eq!(paired.configuration_key(), "strict:us-standard-cloud+default");
    assert_eq!(paired.column_names().len(), 80);
    assert_eq!(paired.column_names()[0], "addressee");
    assert_eq!(paired.column_names()[49], "suitelink_match");
    assert_eq!(paired.column_names()[50], "libpostal_archipelago");
    assert_eq!(paired.column_names()[51], "libpostal_city");

    let small = Paired::new(&second, "x", &second);
    let ones = |value: &str| Geocoded {
        column_values: vec![value.to_owned(); 30],
    };
    let empty = ones("");
    assert_eq!(small.combine_geocoder_results(None, None), None);
    assert_eq!(
        small.combine_geocoder_results(Some(ones("a")), None),
        Some(ones("a").concat(&empty))
    );
    assert_eq!(
        small.combine_geocoder_results(None, Some(ones("b"))),
        Some(empty.concat(&ones("b")))
    );
    assert_eq!(
        small.combine_geocoder_results(Some(ones("a")), Some(ones("b"))),
        Some(ones("a").concat(&ones("b")))
    );
    assert_eq!(
        small.combine(
            vec![Some(ones("a")), None, None],
            vec![None, Some(ones("b")), None]
        ),
        Ok(vec![
            Some(ones("a").concat(&empty)),
            Some(empty.concat(&ones("b"))),
            None
        ])
    );
    assert_eq!(
        small.combine(vec![None, None], vec![None]),
        Err(DifferentNumbersOfResults { fst: 2, snd: 1 })
    );
    assert_eq!(small.combine(vec![], vec![]), Ok(vec![]));
}
