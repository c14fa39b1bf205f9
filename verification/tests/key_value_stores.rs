use geocode_csv::key_value_stores::bigtable::BigTable;
use geocode_csv::key_value_stores::bigtable::BigTableConfig;
use geocode_csv::key_value_stores::bigtable::RowCell;
use geocode_csv::key_value_stores::bigtable::RowError;
use geocode_csv::key_value_stores::bigtable::SetCell;
use geocode_csv::key_value_stores::prefixed_key;
use geocode_csv::key_value_stores::redis::Redis;
use geocode_csv::key_value_stores::store_kind_for_scheme;
use geocode_csv::key_value_stores::store_kind_for_url;
use geocode_csv::key_value_stores::url_parts;
use geocode_csv::key_value_stores::KeyValueStore;
use geocode_csv::key_value_stores::PipelinedGet;
use geocode_csv::key_value_stores::PipelinedSet;
use geocode_csv::key_value_stores::StoreError;
use geocode_csv::key_value_stores::StoreKind;
use geocode_csv::key_value_stores::UrlParts;
use url::Url;

fn cell(value: &[u8]) -> RowCell {
    RowCell {
        family_name: "geocode_csv".to_owned(),
        qualifier: b"v".to_vec(),
        value: value.to_vec(),
        timestamp_micros: 17,
    }
}

#[test]
fn bigtable_config_from_url() {
    let examples = &[(
        "bigtable://project-123/instance-456/table-789",
        "project-123",
        "instance-456",
        "table-789",
    )];

    for (url, project_id, instance_id, table_id) in examples.iter() {
        let url = Url::parse(url).unwrap();
        let config = BigTableConfig::from_url(url.as_str()).unwrap();
        assert_eq!(config.project_id, *project_id);
        assert_eq!(config.instance_id, *instance_id);
        assert_eq!(config.table_name, *table_id);
    }
}

#[test]
fn other_urls_are_no_bigtable_urls() {
    for (url, scheme) in [
        ("redis://localhost/0", "redis"),
        ("bigtable://project/instance", "bigtable"),
        ("bigtable://project/instance/table/more", "bigtable"),
        ("bigtable:project", "bigtable"),
        ("bigtable:/instance/table", "bigtable"),
    ] {
        assert_eq!(
            BigTableConfig::from_url(url),
            Err(StoreError::NotABigTableUrl(scheme.to_owned()))
        );
    }
    assert_eq!(
        BigTableConfig::from_url("project/instance/table"),
        Err(StoreError::NotAUrl("project/instance/table".to_owned()))
    );
    let parts = |scheme: &str, host: Option<&str>, segments: Option<&[&str]>| UrlParts {
        scheme: scheme.to_owned(),
        host: host.map(|h| h.to_owned()),
        path_segments: segments.map(|s| s.iter().map(|p| (*p).to_owned()).collect()),
    };
    assert_eq!(
        BigTableConfig::from_parts(&parts("bigtable", Some("p"), Some(&["i", "t"]))),
        Ok(BigTableConfig {
            project_id: "p".to_owned(),
            instance_id: "i".to_owned(),
            table_name: "t".to_owned(),
        })
    );
    assert_eq!(
        BigTableConfig::from_parts(&parts("bigtable", None, Some(&["i", "t"]))),
        Err(StoreError::NotABigTableUrl("bigtable".to_owned()))
    );
    assert_eq!(
        BigTableConfig::from_parts(&parts("bigtable", Some("p"), None)),
        Err(StoreError::NotABigTableUrl("bigtable".to_owned()))
    );
    assert_eq!(
        BigTableConfig::from_parts(&parts("Bigtable", Some("p"), Some(&["i", "t"]))),
        Err(StoreError::NotABigTableUrl("Bigtable".to_owned()))
    );
}

#[test]
fn urls_are_taken_apart_as_the_url_crate_does() {
    assert_eq!(
        url_parts("bigtable://project-123/instance-456/table-789"),
        Ok(UrlParts {
            scheme: "bigtable".to_owned(),
            host: Some("project-123".to_owned()),
            path_segments: Some(vec!["instance-456".to_owned(), "table-789".to_owned()]),
        })
    );
    assert_eq!(
        url_parts("REDIS://user@Example.com:6379/1?x#y"),
        Ok(UrlParts {
            scheme: "redis".to_owned(),
            host: Some("Example.com".to_owned()),
            path_segments: Some(vec!["1".to_owned()]),
        })
    );
    assert_eq!(
        url_parts("data:text/plain,Stuff"),
        Ok(UrlParts {
            scheme: "data".to_owned(),
            host: None,
            path_segments: None,
        })
    );
    assert_eq!(url_parts(""), Err(StoreError::NotAUrl("".to_owned())));
    for text in [
        "bigtable://project-123/instance-456/table-789",
        "redis://localhost",
        "unix:/run/foo.socket",
    ] {
        let url = Url::parse(text).unwrap();
        let parts = url_parts(url.as_str()).unwrap();
        assert_eq!(parts.scheme, url.scheme());
        assert_eq!(parts.host.as_deref(), url.host_str());
        assert_eq!(
            parts.path_segments,
            url.path_segments()
                .map(|segments| segments.map(|s| s.to_owned()).collect::<Vec<_>>())
        );
    }
}

#[test]
fn the_scheme_of_a_url_names_the_store() {
    assert_eq!(store_kind_for_scheme("redis"), Ok(StoreKind::Redis));
    assert_eq!(store_kind_for_scheme("bigtable"), Ok(StoreKind::BigTable));
    assert_eq!(
        store_kind_for_scheme("memcached"),
        Err(StoreError::UnknownScheme("memcached".to_owned()))
    );
    assert_eq!(
        store_kind_for_url("redis://localhost:6379/1"),
        Ok(StoreKind::Redis)
    );
    assert_eq!(
        store_kind_for_url("BIGTABLE://p/i/t"),
        Ok(StoreKind::BigTable)
    );
    assert_eq!(
        store_kind_for_url("https://example.com/"),
        Err(StoreError::UnknownScheme("https".to_owned()))
    );
    assert_eq!(
        store_kind_for_url("redis"),
        Err(StoreError::NotAUrl("redis".to_owned()))
    );
}

#[test]
fn keys_stand_behind_the_prefix_of_the_store() {
    assert_eq!(prefixed_key("test:", "gcsv:a"), "test:gcsv:a");
    let store = Redis::new("test:".to_owned());
    assert_eq!(store.key_prefix(), "test:");
    let mut key = "gcsv:a".to_owned();
    store.prefix_key(&mut key);
    assert_eq!(key, "test:gcsv:a");

    let mut get = store.new_pipelined_get();
    assert!(get.keys_to_get().is_empty());
    get.add_get("a".to_owned());
    get.add_get("b".to_owned());
    get.add_get("a".to_owned());
    assert_eq!(get.keys_to_get(), &vec!["test:a", "test:b", "test:a"]);

    let mut set = store.new_pipelined_set();
    assert!(set.entries_to_set().is_empty());
    set.add_set("a".to_owned(), vec![1]);
    set.add_set("b".to_owned(), vec![]);
    assert_eq!(
        set.entries_to_set(),
        &vec![("test:a".to_owned(), vec![1]), ("test:b".to_owned(), vec![])]
    );

    let plain = Redis::new(String::new());
    let mut get = plain.new_pipelined_get();
    get.add_get("a".to_owned());
    assert_eq!(get.keys_to_get(), &vec!["a"]);
}

#[test]
fn bigtable_rows_are_read_and_written_by_the_bytes_of_their_keys() {
    let store = BigTable::new("table-789".to_owned(), "p:".to_owned());
    assert_eq!(store.table_name(), "table-789");
    assert_eq!(store.key_prefix(), "p:");
    let mut get = store.new_pipelined_get();
    get.add_get("a".to_owned());
    get.add_get("é".to_owned());
    assert_eq!(
        get.rows_to_read(),
        &vec![b"p:a".to_vec(), "p:é".as_bytes().to_vec()]
    );
    let mut set = store.new_pipelined_set();
    set.add_set("a".to_owned(), vec![b'N', 0]);
    assert_eq!(
        set.cells_to_write(),
        &vec![SetCell {
            row_key: b"p:a".to_vec(),
            family_name: "geocode_csv".to_owned(),
            column_qualifier: b"v".to_vec(),
            timestamp_micros: -1,
            value: vec![b'N', 0],
        }]
    );
}

#[test]
fn answers_are_made_of_the_rows_that_bigtable_returns() {
    let store = BigTable::new("t".to_owned(), String::new());
    let mut get = store.new_pipelined_get();
    for key in ["a", "b", "a", "c"] {
        get.add_get(key.to_owned());
    }
    // Rows come back in an order of their own, and not for every key; a
    // key asked for twice is answered twice.
    let rows = vec![
        (b"b".to_vec(), vec![cell(b"two")]),
        (b"a".to_vec(), vec![cell(b"old"), cell(b"one")]),
    ];
    assert_eq!(
        get.assemble(&rows),
        Ok(vec![
            Some(b"one".to_vec()),
            Some(b"two".to_vec()),
            Some(b"one".to_vec()),
            None
        ])
    );
    assert_eq!(get.assemble(&vec![]), Ok(vec![None, None, None, None]));
    // A row without cells answers nothing, whatever its key.
    assert_eq!(
        get.assemble(&vec![(b"zzz".to_vec(), vec![])]),
        Ok(vec![None, None, None, None])
    );
    assert_eq!(store.new_pipelined_get().assemble(&vec![]), Ok(vec![]));
}

#[test]
fn unexpected_cells_are_errors() {
    let store = BigTable::new("t".to_owned(), String::new());
    let mut get = store.new_pipelined_get();
    get.add_get("a".to_owned());
    let mut other_family = cell(b"x");
    other_family.family_name = "other".to_owned();
    let mut other_column = cell(b"x");
    other_column.qualifier = b"w".to_vec();
    let mut no_column = cell(b"x");
    no_column.qualifier = vec![];
    assert_eq!(
        get.assemble(&vec![(b"a".to_vec(), vec![cell(b"1"), other_family])]),
        Err(RowError::UnexpectedFamily("other".to_owned()))
    );
    assert_eq!(
        get.assemble(&vec![(b"a".to_vec(), vec![other_column])]),
        Err(RowError::UnexpectedQualifier(b"w".to_vec()))
    );
    assert_eq!(
        get.assemble(&vec![(b"a".to_vec(), vec![no_column])]),
        Err(RowError::UnexpectedQualifier(vec![]))
    );
    assert_eq!(
        get.assemble(&vec![
            (b"a".to_vec(), vec![cell(b"1")]),
            (b"b".to_vec(), vec![cell(b"2")])
        ]),
        Err(RowError::UnexpectedRow(b"b".to_vec()))
    );
    // The first fault counts: the family is looked at before the key.
    let mut both = cell(b"x");
    both.family_name = "other".to_owned();
    assert_eq!(
        get.assemble(&vec![(b"b".to_vec(), vec![both])]),
        Err(RowError::UnexpectedFamily("other".to_owned()))
    );
}
