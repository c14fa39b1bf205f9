use csv::StringRecord;
use geocode_csv::addresses::prefix_column_name;
use geocode_csv::addresses::Address;
use geocode_csv::addresses::AddressColumnKeys;
use geocode_csv::addresses::AddressColumnSpec;
use geocode_csv::addresses::ColumnKeyOrKeys;
use geocode_csv::addresses::SpecError;
use geocode_csv::geocoders::libpostal::LibPostal;
use geocode_csv::geocoders::paired::Paired;
use geocode_csv::geocoders::smarty::Smarty;
use geocode_csv::geocoders::MatchStrategy;

#[test]
fn address_is_valid_does_not_allow_empty_streets() {
    let address_for = |street: &str| Address {
        street: street.to_owned(),
        city: None,
        state: None,
        zipcode: None,
    };
    assert!(!address_for("").is_valid());
    assert!(!address_for("   ").is_valid());
    assert!(!address_for(" \t\n  ").is_valid());
    assert!(address_for("123 Main Street").is_valid());
}

#[test]
fn extract_collapses_duplicate_suffixes() {
    // This seems really arbitrary, but it consistently appears in many
    // real-world databases.
    let record = StringRecord::from(vec!["100", "Main Street #302", "#302"]);
    let keys = ColumnKeyOrKeys::Keys(vec![0, 1, 2]);
    assert_eq!(
        keys.extract_from_record(&record).unwrap(),
        "100 Main Street #302",
    );
}

#[test]
fn extract_simple_address_from_record() {
    let record = StringRecord::from(vec![
        "1600 Pennsylvania Avenue NW, Washington DC, 20500",
    ]);
    let keys = AddressColumnKeys {
        street: ColumnKeyOrKeys::Key(0),
        city: None,
        state: None,
        zipcode: None,
    };
    assert_eq!(
        keys.extract_address_from_record(&record).unwrap(),
        Address {
            street: "1600 Pennsylvania Avenue NW, Washington DC, 20500".to_owned(),
            city: None,
            state: None,
            zipcode: None,
        },
    );
}

#[test]
fn extract_complex_address_from_record() {
    let record = StringRecord::from(vec![
        "1600",
        "Pennsylvania Avenue NW",
        "Washington",
        "DC",
        "20500",
    ]);
    let keys = AddressColumnKeys {
        street: ColumnKeyOrKeys::Keys(vec![0, 1]),
        city: Some(2),
        state: Some(3),
        zipcode: Some(4),
    };
    assert_eq!(
        keys.extract_address_from_record(&record).unwrap(),
        Address {
            street: "1600 Pennsylvania Avenue NW".to_owned(),
            city: Some("Washington".to_owned()),
            state: Some("DC".to_owned()),
            zipcode: Some("20500".to_owned()),
        },
    );
}

fn home_and_work_spec() -> AddressColumnSpec<String> {
    AddressColumnSpec::new()
        .with_prefix(
            "home".to_owned(),
            AddressColumnKeys {
                street: ColumnKeyOrKeys::Keys(vec![
                    "home_number".to_owned(),
                    "home_street".to_owned(),
                ]),
                city: Some("home_city".to_owned()),
                state: Some("home_state".to_owned()),
                zipcode: Some("home_zip".to_owned()),
            },
        )
        .with_prefix(
            "work".to_owned(),
            AddressColumnKeys {
                street: ColumnKeyOrKeys::Key("work_address".to_owned()),
                city: None,
                state: None,
                zipcode: None,
            },
        )
}

#[test]
fn find_columns_to_remove() {
    let spec = home_and_work_spec();
    let geocoder = Smarty::new(MatchStrategy::Strict, "us-standard-cloud".to_owned()).unwrap();
    let header = StringRecord::from(vec!["existing", "home_addressee", "work_addressee"]);
    let indices = spec.duplicate_columns(&geocoder, &header).unwrap();
    assert_eq!(indices, vec![("home_addressee", 1), ("work_addressee", 2)]);
}

#[test]
fn convert_address_column_spec_to_indices() {
    let headers = StringRecord::from(vec![
        "home_number",
        "home_street",
        "home_city",
        "home_state",
        "home_zip",
        "work_address",
    ]);
    let address_column_spec = home_and_work_spec();

    let expected = AddressColumnSpec::new()
        .with_prefix(
            "home".to_owned(),
            AddressColumnKeys {
                street: ColumnKeyOrKeys::Keys(vec![0, 1]),
                city: Some(2),
                state: Some(3),
                zipcode: Some(4),
            },
        )
        .with_prefix(
            "work".to_owned(),
            AddressColumnKeys {
                street: ColumnKeyOrKeys::Key(5),
                city: None,
                state: None,
                zipcode: None,
            },
        );
    assert_eq!(
        address_column_spec
            .convert_to_indices_using_headers(&headers)
            .unwrap(),
        expected,
    );
}

#[test]
fn city_state_and_zipcode_default_to_empty_strings() {
    let bare = Address {
        street: "1 Main St".to_owned(),
        city: None,
        state: None,
        zipcode: None,
    };
    assert_eq!(bare.city_str(), "");
    assert_eq!(bare.state_str(), "");
    assert_eq!(bare.zipcode_str(), "");
    let full = Address {
        street: "1 Main St".to_owned(),
        city: Some("Anytown".to_owned()),
        state: Some("VT".to_owned()),
        zipcode: Some("05001".to_owned()),
    };
    assert_eq!(full.city_str(), "Anytown");
    assert_eq!(full.state_str(), "VT");
    assert_eq!(full.zipcode_str(), "05001");
}

#[test]
fn addresses_compare_ignoring_ascii_case() {
    let upper = Address {
        street: "1 MAIN ST".to_owned(),
        city: Some("ANYTOWN".to_owned()),
        state: Some("VT".to_owned()),
        zipcode: None,
    };
    let lower = Address {
        street: "1 main st".to_owned(),
        city: Some("anytown".to_owned()),
        state: Some("vt".to_owned()),
        zipcode: Some("".to_owned()),
    };
    assert!(upper.eq_ignore_ascii_case(&lower));
    assert!(lower.eq_ignore_ascii_case(&upper));
    let other = Address {
        street: "2 main st".to_owned(),
        city: Some("anytown".to_owned()),
        state: Some("vt".to_owned()),
        zipcode: None,
    };
    assert!(!upper.eq_ignore_ascii_case(&other));
    // Only ASCII letters are folded.
    let accented = Address {
        street: "É".to_owned(),
        city: None,
        state: None,
        zipcode: None,
    };
    let plain = Address {
        street: "é".to_owned(),
        city: None,
        state: None,
        zipcode: None,
    };
    assert!(!accented.eq_ignore_ascii_case(&plain));
}

#[test]
fn whitespace_of_any_script_does_not_make_a_street() {
    let street = "\u{3000}\u{2003}\u{a0}\u{85}";
    let address = Address {
        street: street.to_owned(),
        city: None,
        state: None,
        zipcode: None,
    };
    assert!(!address.is_valid());
    assert_eq!(street.trim(), "");
    let address = Address {
        street: "\u{200b}".to_owned(),
        city: None,
        state: None,
        zipcode: None,
    };
    assert!(address.is_valid());
    assert_eq!("\u{200b}".trim(), "\u{200b}");
}

#[test]
fn a_clone_of_an_address_is_equal_to_it() {
    let address = Address {
        street: "1 Main St".to_owned(),
        city: Some("Anytown".to_owned()),
        state: None,
        zipcode: Some("05001".to_owned()),
    };
    assert_eq!(address.clone(), address);
}

#[test]
fn prefixed_column_names_join_with_an_underscore() {
    assert_eq!(prefix_column_name("gc", "city"), "gc_city");
    assert_eq!(prefix_column_name("", ""), "_");
}

#[test]
fn extraction_is_a_left_fold_over_the_values() {
    // The first value stands as it is, even if it is empty.
    let record = StringRecord::from(vec!["", "a", "a", "b a", "", "x"]);
    let keys = ColumnKeyOrKeys::Keys(vec![0, 1]);
    assert_eq!(keys.extract_from_record(&record).unwrap(), "a");
    // A value that the text already ends with is skipped.
    let keys = ColumnKeyOrKeys::Keys(vec![1, 2]);
    assert_eq!(keys.extract_from_record(&record).unwrap(), "a");
    let keys = ColumnKeyOrKeys::Keys(vec![3, 2]);
    assert_eq!(keys.extract_from_record(&record).unwrap(), "b a");
    // Every text ends with the empty value.
    let keys = ColumnKeyOrKeys::Keys(vec![1, 4, 5]);
    assert_eq!(keys.extract_from_record(&record).unwrap(), "a x");
    // Any other value follows a space.
    let keys = ColumnKeyOrKeys::Keys(vec![5, 1, 3]);
    assert_eq!(keys.extract_from_record(&record).unwrap(), "x a b a");
    // No keys, no text.
    let keys = ColumnKeyOrKeys::Keys(vec![]);
    assert_eq!(keys.extract_from_record(&record).unwrap(), "");
    // A single key gives the value of its column.
    let keys = ColumnKeyOrKeys::Key(3);
    assert_eq!(keys.extract_from_record(&record).unwrap(), "b a");
}

#[test]
fn extraction_fails_on_the_first_missing_field() {
    let record = StringRecord::from(vec!["a", "b"]);
    let keys = ColumnKeyOrKeys::Keys(vec![0, 7, 9]);
    assert_eq!(
        keys.extract_from_record(&record),
        Err(SpecError::FieldOutOfRange(7))
    );
    let keys = ColumnKeyOrKeys::Key(2);
    assert_eq!(
        keys.extract_from_record(&record),
        Err(SpecError::FieldOutOfRange(2))
    );
    let keys = AddressColumnKeys {
        street: ColumnKeyOrKeys::Key(0),
        city: Some(1),
        state: Some(5),
        zipcode: Some(6),
    };
    assert_eq!(
        keys.extract_address_from_record(&record),
        Err(SpecError::FieldOutOfRange(5))
    );
}

#[test]
fn prefixes_come_out_in_lexicographic_order() {
    let keys = |name: &str| AddressColumnKeys {
        street: ColumnKeyOrKeys::Key(name.to_owned()),
        city: None,
        state: None,
        zipcode: None,
    };
    let spec = AddressColumnSpec::new()
        .with_prefix("work".to_owned(), keys("w"))
        .with_prefix("billing".to_owned(), keys("b"))
        .with_prefix("home".to_owned(), keys("h"))
        .with_prefix("Home".to_owned(), keys("H"))
        .with_prefix("".to_owned(), keys("e"))
        .with_prefix("homé".to_owned(), keys("é"))
        .with_prefix("home2".to_owned(), keys("h2"));
    let expected = vec!["", "Home", "billing", "home", "home2", "homé", "work"];
    assert_eq!(spec.prefixes(), expected);
    assert_eq!(spec.prefixes(), expected);
    assert_eq!(spec.prefix_count(), 7);
    let mut sorted = expected.clone();
    sorted.sort_unstable();
    assert_eq!(sorted, expected);
    // The order does not depend on the order of insertion.
    let other = AddressColumnSpec::new()
        .with_prefix("home2".to_owned(), keys("h2"))
        .with_prefix("homé".to_owned(), keys("é"))
        .with_prefix("".to_owned(), keys("e"))
        .with_prefix("Home".to_owned(), keys("H"))
        .with_prefix("home".to_owned(), keys("h"))
        .with_prefix("billing".to_owned(), keys("b"))
        .with_prefix("work".to_owned(), keys("w"));
    assert_eq!(other, spec);
}

#[test]
fn a_prefix_set_twice_keeps_its_last_keys() {
    let keys = |name: &str| AddressColumnKeys {
        street: ColumnKeyOrKeys::Key(name.to_owned()),
        city: None,
        state: None,
        zipcode: None,
    };
    let spec = AddressColumnSpec::new()
        .with_prefix("home".to_owned(), keys("first"))
        .with_prefix("work".to_owned(), keys("other"))
        .with_prefix("home".to_owned(), keys("second"));
    assert_eq!(spec.prefix_count(), 2);
    assert_eq!(spec.get("home"), Some(&keys("second")));
    assert_eq!(spec.get("work"), Some(&keys("other")));
    assert_eq!(spec.get("hom"), None);
    assert_eq!(spec.prefixes(), vec!["home", "work"]);
    let empty: AddressColumnSpec<usize> = AddressColumnSpec::new();
    assert_eq!(empty.prefix_count(), 0);
    assert_eq!(empty.prefixes(), Vec::<&str>::new());
    assert_eq!(empty.get("home"), None);
}

#[test]
fn conversion_fails_on_a_duplicate_header() {
    let headers = StringRecord::from(vec![
        "home_number",
        "work_address",
        "home_street",
        "work_address",
        "home_number",
    ]);
    assert_eq!(
        home_and_work_spec().convert_to_indices_using_headers(&headers),
        Err(SpecError::DuplicateHeader("work_address".to_owned()))
    );
}

#[test]
fn conversion_fails_on_the_first_unknown_column() {
    let headers = StringRecord::from(vec!["home_number", "home_city", "home_zip"]);
    assert_eq!(
        home_and_work_spec().convert_to_indices_using_headers(&headers),
        Err(SpecError::UnknownColumn("home_street".to_owned()))
    );
    let headers = StringRecord::from(vec![
        "home_number",
        "home_street",
        "home_city",
        "home_state",
        "home_zip",
    ]);
    assert_eq!(
        home_and_work_spec().convert_to_indices_using_headers(&headers),
        Err(SpecError::UnknownColumn("work_address".to_owned()))
    );
}

#[test]
fn output_columns_with_the_same_name_are_an_error() {
    let keys = || AddressColumnKeys {
        street: ColumnKeyOrKeys::Key(0usize),
        city: None,
        state: None,
        zipcode: None,
    };
    let spec = AddressColumnSpec::new()
        .with_prefix("a".to_owned(), keys())
        .with_prefix("a_b".to_owned(), keys());
    let parser = LibPostal::new();
    // This geocoder has the columns `archipelago` and `b_archipelago`:
    // behind the prefixes `a_b` and `a` both are called `a_b_archipelago`.
    let both = Paired::new(&parser, "b", &parser);
    let header = StringRecord::from(vec!["x"]);
    assert_eq!(
        spec.duplicate_columns(&both, &header),
        Err(SpecError::DuplicateOutputColumn("a_b_archipelago".to_owned()))
    );
    let smarty = Smarty::new(MatchStrategy::Strict, "x".to_owned()).unwrap();
    let paired = Paired::new(&smarty, "b", &parser);
    assert_eq!(spec.duplicate_columns(&paired, &header), Ok(vec![]));
}
