use geocode_csv::options::split_once;
use geocode_csv::options::GeocoderName;
use geocode_csv::options::MetricsLabel;

#[test]
fn geocoders_have_names() {
    assert_eq!(GeocoderName::parse("smarty"), Some(GeocoderName::Smarty));
    assert_eq!(GeocoderName::parse("libpostal"), Some(GeocoderName::LibPostal));
    assert_eq!(GeocoderName::parse("Smarty"), None);
    assert_eq!(GeocoderName::parse(""), None);
}

#[test]
fn labels_are_split_at_the_first_equals_sign() {
    assert_eq!(
        MetricsLabel::parse("source=test"),
        Ok(MetricsLabel {
            key: "source".to_owned(),
            value: "test".to_owned()
        })
    );
    assert_eq!(
        MetricsLabel::parse("a=b=c"),
        Ok(MetricsLabel {
            key: "a".to_owned(),
            value: "b=c".to_owned()
        })
    );
    assert_eq!(
        MetricsLabel::parse("="),
        Ok(MetricsLabel {
            key: "".to_owned(),
            value: "".to_owned()
        })
    );
    assert_eq!(MetricsLabel::parse("source"), Err("source".to_owned()));
    assert_eq!(MetricsLabel::parse(""), Err("".to_owned()));
}

#[test]
fn texts_are_split_as_the_standard_library_splits_them() {
    for text in ["", "a", "a:b", ":a", "a:", "é:ü:", "::", "connection error: timed out"] {
        let expected = text
            .split_once(':')
            .map(|(before, behind)| (before.to_owned(), behind.to_owned()));
        assert_eq!(split_once(text, ':'), expected);
    }
    assert_eq!(split_once("a=b", ':'), None);
    assert_eq!(
        split_once("aébé", 'é'),
        Some(("a".to_owned(), "bé".to_owned()))
    );
}
