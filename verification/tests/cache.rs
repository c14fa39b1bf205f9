use std::collections::HashMap;

use geocode_csv::addresses::Address;
use geocode_csv::geocoders::cache::cache_key;
use geocode_csv::geocoders::cache::compression::CacheCompressor;
use geocode_csv::geocoders::cache::Cache;
use geocode_csv::geocoders::cache::CacheError;
use geocode_csv::geocoders::cache::CacheStep;
use geocode_csv::geocoders::cache::CACHED_VALUE_LIMIT;
use geocode_csv::geocoders::libpostal::LibPostal;
use geocode_csv::geocoders::Geocoded;
use geocode_csv::geocoders::Geocoder;
use geocode_csv::geocoders::GeocoderInfo;

/// A geocoder with the given columns, and the batches of addresses that
/// it was asked to geocode.
struct Inner {
    info: GeocoderInfo,
    calls: Vec<Vec<Address>>,
}

impl Inner {
    fn new(columns: &[&str]) -> Inner {
        Inner {
            info: GeocoderInfo::new(
                "in".to_owned(),
                "test".to_owned(),
                columns.iter().map(|c| (*c).to_owned()).collect(),
            ),
            calls: vec![],
        }
    }

    /// "Geocodes" an address: no match for a street that begins with `?`,
    /// else the street in upper case for every column.
    fn geocode(&mut self, addresses: &[Address]) -> Vec<Option<Geocoded>> {
        self.calls.push(addresses.to_vec());
        addresses
            .iter()
            .map(|address| {
                if address.street.starts_with('?') {
                    None
                } else {
                    Some(Geocoded {
                        column_values: vec![
                            address.street.to_uppercase();
                            self.info.column_names().len()
                        ],
                    })
                }
            })
            .collect()
    }
}

fn address(street: &str) -> Address {
    Address {
        street: street.to_owned(),
        city: Some("Anytown".to_owned()),
        state: Some("VT".to_owned()),
        zipcode: None,
    }
}

fn geocoded(values: &[&str]) -> Geocoded {
    Geocoded {
        column_values: values.iter().map(|v| (*v).to_owned()).collect(),
    }
}

/// Runs one lookup to its end, as the program around the library does, with
/// a map for a store.
fn run(
    cache: &Cache,
    store: &mut HashMap<String, Vec<u8>>,
    inner: &mut Inner,
    addresses: &[Address],
) -> Result<Vec<Option<Geocoded>>, CacheError> {
    let mut step = cache.start(addresses);
    loop {
        step = match step {
            CacheStep::Fetch(pending) => {
                let answers = pending
                    .keys_to_fetch()
                    .iter()
                    .map(|key| store.get(key).cloned())
                    .collect();
                pending.fetched(cache, &answers)?
            }
            CacheStep::Geocode(pending) => {
                let found = inner.geocode(pending.addresses_to_geocode());
                pending.geocoded(cache, found)?
            }
            CacheStep::Store(pending) => {
                for (key, value) in pending.entries_to_store() {
                    store.insert(key.clone(), value.clone());
                }
                pending.stored(cache)
            }
            CacheStep::Done(results) => return Ok(results),
        }
    }
}

#[test]
fn escape_colons() {
    let examples = &[
        ("", ""),
        ("a", "a"),
        (":", "\\:"),
        ("\\", "\\\\"),
        ("abc\\def:ghi", "abc\\\\def\\:ghi"),
    ];
    for (input, expected) in examples {
        assert_eq!(
            geocode_csv::geocoders::cache::escape_colons(input),
            *expected
        );
    }
}

#[test]
fn round_trip_compression() {
    let examples: &[&[u8]] = &[
        b"781 Franklin Ave Crown Heights Brooklyn NYC NY 11216 USA",
        b"20 W 34th St, New York, NY 10001",
        b"",
        b"abc123",
    ];

    let cache_compressor = CacheCompressor::new();
    for &example in examples {
        let mut compressed = vec![];
        cache_compressor.compress(example, &mut compressed).unwrap();
        let mut decompressed = vec![];
        cache_compressor
            .decompress(&compressed, &mut decompressed)
            .unwrap();
        assert_eq!(example, decompressed);
    }
}

#[test]
fn compression_appends_to_what_is_there() {
    let compressor = CacheCompressor::new();
    assert_eq!(compressor.id(), b'N');
    let mut output = vec![1u8, 2];
    assert_eq!(compressor.compress(&[3, 4], &mut output), Ok(()));
    assert_eq!(output, vec![1, 2, 3, 4]);
    assert_eq!(compressor.decompress(&[5], &mut output), Ok(()));
    assert_eq!(output, vec![1, 2, 3, 4, 5]);
}

#[test]
fn cache_keys_are_escaped_and_in_lower_case() {
    let address = Address {
        street: "20 W 34th St: Suite\\5".to_owned(),
        city: Some("New York".to_owned()),
        state: Some("NY".to_owned()),
        zipcode: Some("10118".to_owned()),
    };
    assert_eq!(
        cache_key("sm:1B84", &address),
        "gcsv:sm:1b84:ny:new york:10118:20 w 34th st\\: suite\\\\5"
    );
    // The same for the same prefix and address, whenever it is asked.
    assert_eq!(cache_key("sm:1B84", &address), cache_key("sm:1B84", &address));
    assert_eq!(
        cache_key("sm:1B84", &address.clone()),
        cache_key(&"sm:1B84".to_owned(), &address)
    );
    // Missing parts are empty; only ASCII letters are put in lower case.
    let bare = Address {
        street: "ÉCOLE".to_owned(),
        city: None,
        state: None,
        zipcode: None,
    };
    assert_eq!(cache_key("lp:a600", &bare), "gcsv:lp:a600::::\u{c9}cole");
    assert_eq!(cache_key("", &bare), "gcsv:::::\u{c9}cole");
}

#[test]
fn a_new_cache_takes_its_columns_from_the_inner_geocoder() {
    let inner = LibPostal::new();
    let cache = Cache::new(&inner, false, false);
    assert_eq!(cache.tag(), "cache");
    assert_eq!(cache.configuration_key(), "default");
    assert_eq!(cache.column_names(), inner.column_names());
    let cache = Cache::new(&inner, true, false);
    assert_eq!(cache.column_names().len(), 31);
    assert_eq!(cache.column_names()[..30], inner.column_names()[..]);
    assert_eq!(cache.column_names()[30], "cache_key");
}

#[test]
fn nothing_is_looked_up_for_no_addresses() {
    let cache = Cache::new(&LibPostal::new(), false, false);
    match cache.start(&[]) {
        CacheStep::Done(results) => assert!(results.is_empty()),
        _ => panic!("the store or the geocoder is asked for nothing"),
    }
}

#[test]
fn the_keys_of_a_lookup_are_the_cache_keys_of_its_addresses() {
    let inner = LibPostal::new();
    let cache = Cache::new(&inner, false, false);
    let addresses = vec![address("1 Main St"), address("2 Main St"), address("1 Main St")];
    match cache.start(&addresses) {
        CacheStep::Fetch(pending) => {
            let expected: Vec<String> = addresses
                .iter()
                .map(|a| cache_key(&inner.cache_prefix(), a))
                .collect();
            assert_eq!(pending.keys_to_fetch(), &expected);
            assert_eq!(expected[0], "gcsv:lp:a600:vt:anytown::1 main st");
        }
        _ => panic!("the keys are to be fetched first"),
    }
}

#[test]
fn what_is_stored_is_an_id_byte_and_the_serialized_value() {
    let mut inner = Inner::new(&["a", "b"]);
    let cache = Cache::new(&inner.info, false, false);
    let mut store = HashMap::new();
    let addresses = vec![address("ab"), address("?")];
    let results = run(&cache, &mut store, &mut inner, &addresses).unwrap();
    assert_eq!(results, vec![Some(geocoded(&["AB", "AB"])), None]);
    let prefix = inner.info.cache_prefix();
    // `N`, then: some (1), two strings (2), each its length and its bytes.
    assert_eq!(
        store.get(&cache_key(&prefix, &addresses[0])),
        Some(&vec![b'N', 1, 2, 2, b'A', b'B', 2, b'A', b'B'])
    );
    // `N`, then: none (0).
    assert_eq!(
        store.get(&cache_key(&prefix, &addresses[1])),
        Some(&vec![b'N', 0])
    );
    assert_eq!(store.len(), 2);
}

#[test]
fn a_second_run_asks_the_geocoder_for_nothing() {
    let mut inner = Inner::new(&["x"]);
    let cache = Cache::new(&inner.info, false, false);
    let mut store = HashMap::new();
    // Two rows with the same address, and one that has no match.
    let addresses = vec![address("1 Main St"), address("1 main st"), address("?")];

    let first = run(&cache, &mut store, &mut inner, &addresses).unwrap();
    assert_eq!(inner.calls, vec![addresses.clone()]);
    assert_eq!(first.len(), addresses.len());
    assert_eq!(first[0], Some(geocoded(&["1 MAIN ST"])));
    assert_eq!(first[2], None);
    // Both rows share a key: the store holds two entries.
    assert_eq!(store.len(), 2);

    let second = run(&cache, &mut store, &mut inner, &addresses).unwrap();
    // The geocoder was not asked again: not even for the address without
    // a match.
    assert_eq!(inner.calls.len(), 1);
    assert_eq!(second.len(), addresses.len());
    assert_eq!(second[0], first[0]);
    assert_eq!(second[2], first[2]);
    // What was written last for the shared key is what is read.
    assert_eq!(second[1], Some(geocoded(&["1 MAIN ST"])));
    assert_eq!(second[0], second[1]);

    // With a warm cache the step after the answers of the store is the end.
    match cache.start(&addresses) {
        CacheStep::Fetch(pending) => {
            let answers = pending
                .keys_to_fetch()
                .iter()
                .map(|key| store.get(key).cloned())
                .collect();
            match pending.fetched(&cache, &answers) {
                Ok(CacheStep::Done(results)) => assert_eq!(results, second),
                _ => panic!("nothing is left to geocode"),
            }
        }
        _ => panic!("the keys are to be fetched first"),
    }
}

#[test]
fn only_what_the_cache_lacks_is_geocoded() {
    let mut inner = Inner::new(&["x"]);
    let cache = Cache::new(&inner.info, false, false);
    let mut store = HashMap::new();
    run(&cache, &mut store, &mut inner, &[address("b"), address("?d")]).unwrap();
    let addresses = vec![
        address("a"),
        address("b"),
        address("c"),
        address("?d"),
        address("?e"),
    ];
    let results = run(&cache, &mut store, &mut inner, &addresses).unwrap();
    assert_eq!(
        inner.calls[1],
        vec![address("a"), address("c"), address("?e")]
    );
    assert_eq!(
        results,
        vec![
            Some(geocoded(&["A"])),
            Some(geocoded(&["B"])),
            Some(geocoded(&["C"])),
            None,
            None
        ]
    );
    assert_eq!(store.len(), 5);
}

#[test]
fn hits_only_leaves_misses_without_a_result() {
    let mut inner = Inner::new(&["x"]);
    let mut store = HashMap::new();
    let filling = Cache::new(&inner.info, false, false);
    run(&filling, &mut store, &mut inner, &[address("b")]).unwrap();
    let cache = Cache::new(&inner.info, false, true);
    let addresses = vec![address("a"), address("b")];
    let results = run(&cache, &mut store, &mut inner, &addresses).unwrap();
    assert_eq!(results, vec![None, Some(geocoded(&["B"]))]);
    assert_eq!(inner.calls.len(), 1);
    assert_eq!(store.len(), 1);
}

#[test]
fn cache_keys_can_be_output_as_a_last_column() {
    let mut inner = Inner::new(&["x"]);
    let cache = Cache::new(&inner.info, true, false);
    assert_eq!(cache.column_names(), ["x", "cache_key"]);
    let mut store = HashMap::new();
    let addresses = vec![address("a"), address("?")];
    let key = cache_key(&inner.info.cache_prefix(), &addresses[0]);
    let expected = vec![Some(geocoded(&["A", &key])), None];
    // Whether the value is geocoded or found in the cache.
    assert_eq!(run(&cache, &mut store, &mut inner, &addresses), Ok(expected.clone()));
    assert_eq!(run(&cache, &mut store, &mut inner, &addresses), Ok(expected));
    // The key is no part of what is stored.
    assert_eq!(store.get(&key), Some(&vec![b'N', 1, 1, 1, b'A']));
}

#[test]
fn cached_values_with_nul_bytes_are_geocoded_anew() {
    let mut inner = Inner::new(&["x"]);
    let cache = Cache::new(&inner.info, false, false);
    let addresses = vec![address("a")];
    let key = cache_key(&inner.info.cache_prefix(), &addresses[0]);
    let mut store = HashMap::new();
    store.insert(key.clone(), vec![b'N', 1, 1, 3, b'o', 0, b'k']);
    assert_eq!(
        run(&cache, &mut store, &mut inner, &addresses),
        Ok(vec![Some(geocoded(&["A"]))])
    );
    assert_eq!(inner.calls, vec![addresses]);
    assert_eq!(store.get(&key), Some(&vec![b'N', 1, 1, 1, b'A']));
}

fn lookup_with(stored: Vec<u8>) -> Result<Vec<Option<Geocoded>>, CacheError> {
    let mut inner = Inner::new(&["x", "y"]);
    let cache = Cache::new(&inner.info, false, false);
    let addresses = vec![address("a"), address("b")];
    let mut store = HashMap::new();
    store.insert(cache_key(&inner.info.cache_prefix(), &addresses[1]), stored);
    let results = run(&cache, &mut store, &mut inner, &addresses);
    if results.is_err() {
        assert!(inner.calls.is_empty());
    }
    results
}

#[test]
fn cached_values_that_cannot_be_read_are_errors() {
    assert_eq!(lookup_with(vec![]), Err(CacheError::EmptyValue));
    assert_eq!(
        lookup_with(vec![b'Z', 0]),
        Err(CacheError::UnknownCompression(b'Z'))
    );
    assert_eq!(lookup_with(vec![b'N']), Err(CacheError::Undecodable));
    assert_eq!(lookup_with(vec![b'N', 7]), Err(CacheError::Undecodable));
    assert_eq!(
        lookup_with(vec![b'N', 1, 1, 4, b'a']),
        Err(CacheError::Undecodable)
    );
    // A string that claims more bytes than any cached value has.
    assert_eq!(
        lookup_with(vec![b'N', 1, 1, 253, 255, 255, 255, 255, 255, 255, 255, 127]),
        Err(CacheError::Undecodable)
    );
    assert_eq!(
        lookup_with(vec![b'N', 1, 1, 1, 0xff]),
        Err(CacheError::Undecodable)
    );
    assert_eq!(
        lookup_with(vec![b'N', 1, 1, 1, b'a']),
        Err(CacheError::WrongNumberOfValues {
            found: 1,
            expected: 2
        })
    );
    assert_eq!(
        lookup_with(vec![b'N', 1, 0]),
        Err(CacheError::WrongNumberOfValues {
            found: 0,
            expected: 2
        })
    );
    assert_eq!(
        lookup_with(vec![b'N', 1, 2, 1, b'p', 1, b'q']),
        Ok(vec![
            Some(geocoded(&["A", "A"])),
            Some(geocoded(&["p", "q"]))
        ])
    );
    assert_eq!(
        lookup_with(vec![b'N', 0]),
        Ok(vec![Some(geocoded(&["A", "A"])), None])
    );
}

#[test]
fn another_number_of_answers_than_of_keys_is_an_error() {
    let inner = Inner::new(&["x"]);
    let cache = Cache::new(&inner.info, false, false);
    let addresses = vec![address("a"), address("b")];
    match cache.start(&addresses) {
        CacheStep::Fetch(pending) => match pending.fetched(&cache, &vec![None]) {
            Err(e) => assert_eq!(
                e,
                CacheError::WrongNumberOfResults {
                    found: 1,
                    expected: 2
                }
            ),
            Ok(_) => panic!("an answer is missing"),
        },
        _ => panic!("the keys are to be fetched first"),
    }
    match cache.start(&addresses) {
        CacheStep::Fetch(pending) => match pending.fetched(&cache, &vec![None, None]) {
            Ok(CacheStep::Geocode(pending)) => {
                assert_eq!(pending.addresses_to_geocode(), &addresses);
                match pending.geocoded(&cache, vec![None, None, None]) {
                    Err(e) => assert_eq!(
                        e,
                        CacheError::WrongNumberOfResults {
                            found: 3,
                            expected: 2
                        }
                    ),
                    Ok(_) => panic!("there is a result too many"),
                }
            }
            _ => panic!("both addresses are to be geocoded"),
        },
        _ => panic!("the keys are to be fetched first"),
    }
}

#[test]
fn decoded_values_are_judged_by_the_columns_of_the_geocoder() {
    let inner = Inner::new(&["x", "y"]);
    let cache = Cache::new(&inner.info, false, false);
    let strings = |values: &[&str]| -> Vec<String> {
        values.iter().map(|v| (*v).to_owned()).collect()
    };
    assert_eq!(cache.judge_decoded(Ok(None)), Ok(Some(None)));
    assert_eq!(
        cache.judge_decoded(Ok(Some(strings(&["a", "b"])))),
        Ok(Some(Some(geocoded(&["a", "b"]))))
    );
    assert_eq!(cache.judge_decoded(Ok(Some(strings(&["a", "b\0"])))), Ok(None));
    assert_eq!(
        cache.judge_decoded(Ok(Some(strings(&["a"])))),
        Err(CacheError::WrongNumberOfValues {
            found: 1,
            expected: 2
        })
    );
    let undecodable = bincode::serde::decode_from_slice::<Option<Vec<String>>, _>(
        &[9],
        bincode::config::standard(),
    )
    .map(|(value, _)| value);
    assert!(undecodable.is_err());
    assert_eq!(cache.judge_decoded(undecodable), Err(CacheError::Undecodable));
    assert_eq!(cache.seal(&[1, 2]), Ok(vec![b'N', 1, 2]));
    assert_eq!(cache.seal(&[]), Ok(vec![b'N']));
    assert_eq!(cache.read_entry(&None), Ok(None));
    assert_eq!(cache.read_entry(&Some(vec![b'N', 0])), Ok(Some(None)));
    assert_eq!(
        cache.read_entry(&Some(vec![])),
        Err(CacheError::EmptyValue)
    );
}

#[test]
fn a_cached_value_may_not_claim_more_than_the_limit() {
    let inner = Inner::new(&["x"]);
    let cache = Cache::new(&inner.info, false, false);
    // `N`, some, one string, its length as four bytes, and the string.
    let entry = |len: u32| {
        let mut bytes = vec![b'N', 1, 1, 252];
        bytes.extend_from_slice(&len.to_le_bytes());
        bytes.resize(bytes.len() + len as usize, b'a');
        Some(bytes)
    };
    let large = 1 << 20;
    match cache.read_entry(&entry(large)) {
        Ok(Some(Some(found))) => {
            assert_eq!(found.column_values.len(), 1);
            assert_eq!(found.column_values[0].len(), large as usize);
        }
        _ => panic!("a value of 1 MiB can be read"),
    }
    assert_eq!(
        cache.read_entry(&entry(CACHED_VALUE_LIMIT as u32)),
        Err(CacheError::Undecodable)
    );
}

#[test]
fn a_hit_a_miss_and_a_known_failure_in_one_lookup() {
    let inner = Inner::new(&["c"]);
    let cache = Cache::new(&inner.info, false, false);
    let addresses = vec![address("1 a st"), address("2 b st"), address("3 c st")];
    let answers = vec![Some(vec![0x4E, 1, 1, 1, 0x78]), None, Some(vec![0x4E, 0])];

    let pending = match cache.start(&addresses) {
        CacheStep::Fetch(pending) => pending,
        _ => panic!("the keys are to be fetched first"),
    };
    let pending = match pending.fetched(&cache, &answers) {
        Ok(CacheStep::Geocode(pending)) => pending,
        _ => panic!("one address is to be geocoded"),
    };
    assert_eq!(pending.addresses_to_geocode(), &vec![address("2 b st")]);
    let pending = match pending.geocoded(&cache, vec![Some(geocoded(&["y"]))]) {
        Ok(CacheStep::Store(pending)) => pending,
        _ => panic!("the result is to be stored"),
    };
    let key = cache_key(&inner.info.cache_prefix(), &addresses[1]);
    assert_eq!(
        pending.entries_to_store(),
        &vec![(key, vec![0x4E, 1, 1, 1, 0x79])]
    );
    match pending.stored(&cache) {
        CacheStep::Done(results) => assert_eq!(
            results,
            vec![Some(geocoded(&["x"])), Some(geocoded(&["y"])), None]
        ),
        _ => panic!("the lookup is done"),
    }
}
