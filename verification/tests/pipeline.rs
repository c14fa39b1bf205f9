use csv::StringRecord;
use geocode_csv::addresses::Address;
use geocode_csv::addresses::AddressColumnKeys;
use geocode_csv::addresses::AddressColumnSpec;
use geocode_csv::addresses::ColumnKeyOrKeys;
use geocode_csv::addresses::SpecError;
use geocode_csv::geocoders::Geocoded;
use geocode_csv::geocoders::GeocoderInfo;
use geocode_csv::pipeline::add_geocoded_to_rows;
use geocode_csv::pipeline::chunk_addresses;
use geocode_csv::pipeline::chunk_rows;
use geocode_csv::pipeline::plan_input;
use geocode_csv::pipeline::remove_columns;
use geocode_csv::pipeline::report_run;
use geocode_csv::pipeline::ChunkTally;
use geocode_csv::pipeline::Chunker;
use geocode_csv::pipeline::MessageKind;
use geocode_csv::pipeline::OnDuplicateColumns;
use geocode_csv::pipeline::PipelineError;
use geocode_csv::pipeline::Retry;
use geocode_csv::pipeline::RetryDecision;
use geocode_csv::pipeline::Writer;
use geocode_csv::pipeline::WriterAction;
use geocode_csv::pipeline::CHANNEL_BUFFER;
use geocode_csv::pipeline::CONCURRENCY;
use geocode_csv::pipeline::GEOCODE_SIZE;
use geocode_csv::pipeline::MAX_EXPECTED_CHUNKS;

fn geocoder(columns: &[&str]) -> GeocoderInfo {
    GeocoderInfo::new(
        "t".to_owned(),
        "test".to_owned(),
        columns.iter().map(|c| (*c).to_owned()).collect(),
    )
}

fn keys(street: &[&str], city: Option<&str>) -> AddressColumnKeys<String> {
    AddressColumnKeys {
        street: if street.len() == 1 {
            ColumnKeyOrKeys::Key(street[0].to_owned())
        } else {
            ColumnKeyOrKeys::Keys(street.iter().map(|s| (*s).to_owned()).collect())
        },
        city: city.map(|c| c.to_owned()),
        state: None,
        zipcode: None,
    }
}

fn gc_spec() -> AddressColumnSpec<String> {
    AddressColumnSpec::new().with_prefix(
        "gc".to_owned(),
        AddressColumnKeys {
            street: ColumnKeyOrKeys::Keys(vec!["a1".to_owned(), "a2".to_owned()]),
            city: Some("city".to_owned()),
            state: Some("state".to_owned()),
            zipcode: Some("zip".to_owned()),
        },
    )
}

fn rows(n: usize) -> Vec<StringRecord> {
    (0..n)
        .map(|i| StringRecord::from(vec![format!("row {}", i)]))
        .collect()
}

fn geocoded(values: &[&str]) -> Geocoded {
    Geocoded {
        column_values: values.iter().map(|v| (*v).to_owned()).collect(),
    }
}

#[test]
fn the_constants_of_the_pipeline() {
    assert_eq!(CHANNEL_BUFFER, 8);
    assert_eq!(CONCURRENCY, 48);
    assert_eq!(GEOCODE_SIZE, 72);
    assert_eq!(MAX_EXPECTED_CHUNKS, 76);
}

#[test]
fn duplicate_column_policies_have_names() {
    assert_eq!(
        OnDuplicateColumns::parse("error"),
        Some(OnDuplicateColumns::Error)
    );
    assert_eq!(
        OnDuplicateColumns::parse("replace"),
        Some(OnDuplicateColumns::Replace)
    );
    assert_eq!(
        OnDuplicateColumns::parse("append"),
        Some(OnDuplicateColumns::Append)
    );
    assert_eq!(OnDuplicateColumns::parse("Error"), None);
    assert_eq!(OnDuplicateColumns::parse(""), None);
}

#[test]
fn the_output_header_is_the_input_header_and_the_prefixed_columns() {
    let spec = AddressColumnSpec::new()
        .with_prefix("work".to_owned(), keys(&["w"], None))
        .with_prefix("home".to_owned(), keys(&["h1", "h2"], Some("c")));
    let header = StringRecord::from(vec!["id", "h1", "h2", "c", "w"]);
    let plan = plan_input(
        &spec,
        &geocoder(&["lat", "lon"]),
        OnDuplicateColumns::Error,
        &header,
    )
    .unwrap();
    assert_eq!(
        plan.out_headers,
        vec!["id", "h1", "h2", "c", "w", "home_lat", "home_lon", "work_lat", "work_lon"]
    );
    assert!(!plan.should_remove_columns);
    assert_eq!(plan.remove_column_flags, vec![false; 5]);
    assert!(plan.duplicate_column_names.is_empty());
    assert_eq!(plan.chunk_size, 36);
    assert_eq!(plan.spec.prefixes(), vec!["home", "work"]);
    assert_eq!(
        plan.spec.get("home"),
        Some(&AddressColumnKeys {
            street: ColumnKeyOrKeys::Keys(vec![1, 2]),
            city: Some(3),
            state: None,
            zipcode: None,
        })
    );
    assert_eq!(
        plan.spec.get("work"),
        Some(&AddressColumnKeys {
            street: ColumnKeyOrKeys::Key(4),
            city: None,
            state: None,
            zipcode: None,
        })
    );
}

#[test]
fn an_input_column_with_the_name_of_an_output_column_is_an_error() {
    let header = StringRecord::from(vec!["a1", "a2", "city", "state", "zip", "gc_city"]);
    let result = plan_input(
        &gc_spec(),
        &geocoder(&["city", "lat"]),
        OnDuplicateColumns::Error,
        &header,
    );
    match result {
        Err(PipelineError::ConflictingColumns(names)) => assert_eq!(names, vec!["gc_city"]),
        _ => panic!("gc_city is in the way"),
    }
}

#[test]
fn colliding_input_columns_can_be_replaced() {
    let header = StringRecord::from(vec!["gc_lat", "a1", "a2", "city", "gc_city", "state", "zip"]);
    let plan = plan_input(
        &gc_spec(),
        &geocoder(&["city", "lat"]),
        OnDuplicateColumns::Replace,
        &header,
    )
    .unwrap();
    assert!(plan.should_remove_columns);
    assert_eq!(
        plan.remove_column_flags,
        vec![true, false, false, false, true, false, false]
    );
    assert_eq!(plan.duplicate_column_names, vec!["gc_lat", "gc_city"]);
    assert_eq!(
        plan.out_headers,
        vec!["a1", "a2", "city", "state", "zip", "gc_city", "gc_lat"]
    );
    // The keys are indices into what is left of a row.
    assert_eq!(
        plan.spec.get("gc"),
        Some(&AddressColumnKeys {
            street: ColumnKeyOrKeys::Keys(vec![0, 1]),
            city: Some(2),
            state: Some(3),
            zipcode: Some(4),
        })
    );
    let row = StringRecord::from(vec!["old", "1", "Main St", "Anytown", "old", "VT", "05001"]);
    let row = remove_columns(&row, &plan.remove_column_flags);
    assert_eq!(row, vec!["1", "Main St", "Anytown", "VT", "05001"]);
    assert_eq!(
        plan.spec
            .get("gc")
            .unwrap()
            .extract_address_from_record(&row),
        Ok(Address {
            street: "1 Main St".to_owned(),
            city: Some("Anytown".to_owned()),
            state: Some("VT".to_owned()),
            zipcode: Some("05001".to_owned()),
        })
    );
}

#[test]
fn colliding_input_columns_can_be_kept() {
    let header = StringRecord::from(vec!["gc_lat", "a1", "a2", "city", "state", "zip"]);
    let plan = plan_input(
        &gc_spec(),
        &geocoder(&["city", "lat"]),
        OnDuplicateColumns::Append,
        &header,
    )
    .unwrap();
    assert!(!plan.should_remove_columns);
    assert_eq!(plan.remove_column_flags, vec![false; 6]);
    assert_eq!(plan.duplicate_column_names, vec!["gc_lat"]);
    assert_eq!(
        plan.out_headers,
        vec!["gc_lat", "a1", "a2", "city", "state", "zip", "gc_city", "gc_lat"]
    );
    assert_eq!(plan.chunk_size, 72);
}

#[test]
fn a_plan_fails_where_the_spec_does_not_fit_the_header() {
    let plan = |header: Vec<&str>, policy| {
        plan_input(
            &gc_spec(),
            &geocoder(&["city"]),
            policy,
            &StringRecord::from(header),
        )
        .map(|plan| plan.out_headers)
    };
    assert_eq!(
        plan(
            vec!["a1", "a2", "city", "state"],
            OnDuplicateColumns::Error
        ),
        Err(PipelineError::Spec(SpecError::UnknownColumn(
            "zip".to_owned()
        )))
    );
    assert_eq!(
        plan(
            vec!["a1", "a2", "a1", "city", "state", "zip"],
            OnDuplicateColumns::Error
        ),
        Err(PipelineError::Spec(SpecError::DuplicateHeader(
            "a1".to_owned()
        )))
    );
    // A column that is removed is not there to be read, and does not count
    // as a duplicate.
    assert_eq!(
        plan(
            vec!["gc_city", "a1", "a2", "city", "state", "zip", "gc_city"],
            OnDuplicateColumns::Replace
        ),
        Ok(StringRecord::from(vec![
            "a1", "a2", "city", "state", "zip", "gc_city"
        ]))
    );
    assert_eq!(
        plan(
            vec!["gc_city", "a1", "a2", "city", "state", "zip", "gc_city"],
            OnDuplicateColumns::Append
        ),
        Err(PipelineError::Spec(SpecError::DuplicateHeader(
            "gc_city".to_owned()
        )))
    );
    let colliding = AddressColumnSpec::new()
        .with_prefix("gc".to_owned(), keys(&["gc_city"], None));
    assert_eq!(
        plan_input(
            &colliding,
            &geocoder(&["city"]),
            OnDuplicateColumns::Replace,
            &StringRecord::from(vec!["gc_city"]),
        )
        .map(|plan| plan.out_headers),
        Err(PipelineError::Spec(SpecError::UnknownColumn(
            "gc_city".to_owned()
        )))
    );
    let twice = AddressColumnSpec::new()
        .with_prefix("a".to_owned(), keys(&["x"], None))
        .with_prefix("a_b".to_owned(), keys(&["x"], None));
    assert_eq!(
        plan_input(
            &twice,
            &geocoder(&["b_c", "c"]),
            OnDuplicateColumns::Append,
            &StringRecord::from(vec!["x"]),
        )
        .map(|plan| plan.out_headers),
        Err(PipelineError::Spec(SpecError::DuplicateOutputColumn(
            "a_b_c".to_owned()
        )))
    );
}

#[test]
fn chunks_are_sized_for_a_batch_of_addresses() {
    let chunk_size = |prefixes: usize| {
        let mut spec = AddressColumnSpec::new();
        for i in 0..prefixes {
            spec = spec.with_prefix(format!("p{}", i), keys(&["x"], None));
        }
        plan_input(
            &spec,
            &geocoder(&["c"]),
            OnDuplicateColumns::Error,
            &StringRecord::from(vec!["x"]),
        )
        .unwrap()
        .chunk_size
    };
    assert_eq!(chunk_size(0), 72);
    assert_eq!(chunk_size(1), 72);
    assert_eq!(chunk_size(2), 36);
    assert_eq!(chunk_size(5), 14);
    assert_eq!(chunk_size(72), 1);
    assert_eq!(chunk_size(73), 1);
    assert_eq!(chunk_size(100), 1);
}

#[test]
fn columns_are_removed_by_their_flags() {
    let row = StringRecord::from(vec!["a", "b", "c", "d"]);
    assert_eq!(
        remove_columns(&row, &[false, true, true, false]),
        vec!["a", "d"]
    );
    assert_eq!(
        remove_columns(&row, &[false, false, false, false]),
        vec!["a", "b", "c", "d"]
    );
    assert_eq!(
        remove_columns(&row, &[true, true, true, true]),
        Vec::<&str>::new()
    );
    // Fields without a flag, and flags without a field, are left out.
    assert_eq!(remove_columns(&row, &[false, true]), vec!["a"]);
    assert_eq!(
        remove_columns(&row, &[true, false, false, false, false, false]),
        vec!["b", "c", "d"]
    );
    assert_eq!(remove_columns(&StringRecord::new(), &[]), Vec::<&str>::new());
}

#[test]
fn chunking_keeps_every_row_in_its_place() {
    for (n, size, lens) in [
        (0usize, 3usize, vec![0usize]),
        (1, 3, vec![1]),
        (3, 3, vec![3]),
        (4, 3, vec![3, 1]),
        (6, 3, vec![3, 3]),
        (7, 3, vec![3, 3, 1]),
        (3, 1, vec![1, 1, 1]),
        (2, 0, vec![1, 1]),
        (5, 72, vec![5]),
    ] {
        let chunks = chunk_rows(rows(n), size);
        assert_eq!(chunks.iter().map(|c| c.len()).collect::<Vec<_>>(), lens);
        let again: Vec<StringRecord> = chunks.into_iter().flatten().collect();
        assert_eq!(again, rows(n));
    }
}

#[test]
fn the_chunker_hands_out_a_chunk_as_soon_as_it_is_full() {
    let all = rows(5);
    let chunker = Chunker::new(2);
    let (chunker, chunk) = chunker.push(all[0].clone());
    assert_eq!(chunk, None);
    let (chunker, chunk) = chunker.push(all[1].clone());
    assert_eq!(chunk, Some(all[0..2].to_vec()));
    let (chunker, chunk) = chunker.push(all[2].clone());
    assert_eq!(chunk, None);
    let (chunker, chunk) = chunker.push(all[3].clone());
    assert_eq!(chunk, Some(all[2..4].to_vec()));
    // Nothing waits, and a chunk has been sent: no last chunk.
    assert_eq!(chunker.finish(), None);

    let (chunker, _) = Chunker::new(2).push(all[0].clone());
    assert_eq!(chunker.finish(), Some(all[0..1].to_vec()));
    // Without rows there is one chunk without rows, to carry the header.
    assert_eq!(Chunker::new(2).finish(), Some(vec![]));
}

#[test]
fn the_addresses_of_a_chunk_go_prefix_by_prefix() {
    let header = StringRecord::from(vec!["h", "c", "w"]);
    let spec = AddressColumnSpec::new()
        .with_prefix("work".to_owned(), keys(&["w"], None))
        .with_prefix("home".to_owned(), keys(&["h"], Some("c")))
        .convert_to_indices_using_headers(&header)
        .unwrap();
    let rows = vec![
        StringRecord::from(vec!["h0", "c0", "w0"]),
        StringRecord::from(vec!["h1", "c1", "w1"]),
        StringRecord::from(vec!["h2", "c2", "w2"]),
    ];
    let address = |street: &str, city: Option<&str>| Address {
        street: street.to_owned(),
        city: city.map(|c| c.to_owned()),
        state: None,
        zipcode: None,
    };
    assert_eq!(
        chunk_addresses(&spec, &rows),
        Ok(vec![
            address("h0", Some("c0")),
            address("h1", Some("c1")),
            address("h2", Some("c2")),
            address("w0", None),
            address("w1", None),
            address("w2", None),
        ])
    );
    assert_eq!(chunk_addresses(&spec, &vec![]), Ok(vec![]));
    assert_eq!(
        chunk_addresses(&AddressColumnSpec::new(), &rows),
        Ok(vec![])
    );
    // A row that is too short stops the chunk.
    let short = vec![
        StringRecord::from(vec!["h0", "c0", "w0"]),
        StringRecord::from(vec!["h1", "c1"]),
        StringRecord::from(vec!["h2"]),
    ];
    assert_eq!(
        chunk_addresses(&spec, &short),
        Err(SpecError::FieldOutOfRange(1))
    );
}

#[test]
fn a_failed_chunk_is_retried_after_two_seconds_and_twice_as_long_each_time() {
    // The geocoder fails four times, then succeeds, with four retries
    // allowed.
    let mut retry = Retry::new();
    let mut waits = vec![];
    for _ in 0..4 {
        match retry.failed(4) {
            RetryDecision::RetryAfter { seconds, next } => {
                waits.push(seconds);
                retry = next;
            }
            RetryDecision::GiveUp => panic!("four retries are allowed"),
        }
    }
    assert_eq!(waits, vec![2, 4, 8, 16]);
    assert_eq!(waits.iter().sum::<u64>(), 30);
    // A fifth failure is the end.
    assert!(matches!(retry.failed(4), RetryDecision::GiveUp));
    // Without retries the first failure is the end.
    assert!(matches!(Retry::new().failed(0), RetryDecision::GiveUp));
}

#[test]
fn the_wait_before_a_retry_stops_growing_where_it_no_longer_fits() {
    let mut retry = Retry::new();
    let mut waits = vec![];
    for _ in 0..255 {
        match retry.failed(255) {
            RetryDecision::RetryAfter { seconds, next } => {
                waits.push(seconds);
                retry = next;
            }
            RetryDecision::GiveUp => panic!("255 retries are allowed"),
        }
    }
    assert_eq!(waits[62], 1 << 63);
    assert_eq!(waits[63], u64::MAX);
    assert_eq!(waits[254], u64::MAX);
    assert!(matches!(retry.failed(255), RetryDecision::GiveUp));
}

#[test]
fn results_are_added_to_their_rows() {
    let geocoder = geocoder(&["lat", "lon"]);
    let rows = vec![
        StringRecord::from(vec!["r0"]),
        StringRecord::from(vec!["r1"]),
        StringRecord::from(vec!["r2"]),
    ];
    // Two prefixes: a slice of three results for each.
    let results = vec![
        Some(geocoded(&["a0", "b0"])),
        None,
        Some(geocoded(&["a2", "b2"])),
        None,
        Some(geocoded(&["c1", "d1"])),
        Some(geocoded(&["c2", "d2"])),
    ];
    assert_eq!(
        add_geocoded_to_rows(&geocoder, 2, rows.clone(), &results),
        Ok(vec![
            StringRecord::from(vec!["r0", "a0", "b0", "", ""]),
            StringRecord::from(vec!["r1", "", "", "c1", "d1"]),
            StringRecord::from(vec!["r2", "a2", "b2", "c2", "d2"]),
        ])
    );
    assert_eq!(
        add_geocoded_to_rows(&geocoder, 2, rows.clone(), &results[..5].to_vec()),
        Err(PipelineError::WrongNumberOfResults {
            found: 5,
            expected: 6
        })
    );
    assert_eq!(
        add_geocoded_to_rows(&geocoder, usize::MAX, rows.clone(), &results),
        Err(PipelineError::WrongNumberOfResults {
            found: 6,
            expected: usize::MAX
        })
    );
    // A chunk without rows, or a specification without prefixes.
    assert_eq!(add_geocoded_to_rows(&geocoder, 2, vec![], &vec![]), Ok(vec![]));
    assert_eq!(
        add_geocoded_to_rows(&geocoder, 0, rows.clone(), &vec![]),
        Ok(rows)
    );
}

#[test]
fn the_writer_writes_the_header_once_and_needs_the_end_of_the_stream() {
    let writer = Writer::new();
    assert_eq!(writer.closed(), Err(PipelineError::MissingEndOfStream));
    let (writer, action) = writer.receive(MessageKind::Chunk);
    assert_eq!(action, WriterAction::WriteHeaderAndRows);
    let (writer, action) = writer.receive(MessageKind::Chunk);
    assert_eq!(action, WriterAction::WriteRows);
    let (writer, action) = writer.receive(MessageKind::Chunk);
    assert_eq!(action, WriterAction::WriteRows);
    assert_eq!(writer.closed(), Err(PipelineError::MissingEndOfStream));
    let (writer, action) = writer.receive(MessageKind::EndOfStream);
    assert_eq!(action, WriterAction::Stop);
    assert_eq!(writer.closed(), Ok(()));
    assert!(writer.headers_written);
}

#[test]
fn no_more_chunks_are_counted_than_are_expected() {
    let mut tally = ChunkTally::new();
    assert_eq!(tally.live(), 0);
    for expected in 1..=MAX_EXPECTED_CHUNKS {
        tally = match tally.opened() {
            Ok(tally) => tally,
            Err(_) => panic!("chunk {} is expected", expected),
        };
        assert_eq!(tally.live(), expected);
    }
    match tally.opened() {
        Err(e) => assert_eq!(e, PipelineError::TooManyChunks { found: 77 }),
        Ok(_) => panic!("76 chunks are the most"),
    }
    let mut tally = ChunkTally::new();
    for _ in 0..3 {
        tally = tally.opened().ok().unwrap();
    }
    for expected in [2, 1, 0] {
        tally = tally.closed().ok().unwrap();
        assert_eq!(tally.live(), expected);
    }
    match tally.closed() {
        Err(e) => assert_eq!(e, PipelineError::NoChunkToRelease),
        Ok(_) => panic!("no chunk is left"),
    }
}

#[test]
fn every_error_of_a_run_is_reported() {
    assert_eq!(report_run(Ok(()), Ok(()), Ok(())), Ok(()));
    assert_eq!(
        report_run(Err("no input".to_owned()), Ok(()), Ok(())),
        Err(vec!["error reading input: no input".to_owned()])
    );
    assert_eq!(
        report_run(
            Err("closed".to_owned()),
            Err("HTTP 503".to_owned()),
            Err("no end".to_owned())
        ),
        Err(vec![
            "error reading input: closed".to_owned(),
            "error geocoding: HTTP 503".to_owned(),
            "error writing output: no end".to_owned(),
        ])
    );
    assert_eq!(
        report_run(Ok(()), Err("".to_owned()), Err("x".to_owned())),
        Err(vec![
            "error geocoding: ".to_owned(),
            "error writing output: x".to_owned(),
        ])
    );
}
