use geocode_csv::geocoders::Geocoded;
use geocode_csv::server::expect_json_content_type;
use geocode_csv::server::geocode_response;
use geocode_csv::server::hash_from_geocoded;
use geocode_csv::server::status_for;
use geocode_csv::server::ErrorResponse;
use geocode_csv::server::HeaderError;
use geocode_csv::server::Outcome;
use geocode_csv::server::BODY_LIMIT;

fn strings(values: &[&str]) -> Vec<String> {
    values.iter().map(|v| (*v).to_owned()).collect()
}

fn pairs(values: &[(&str, &str)]) -> Vec<(String, String)> {
    values
        .iter()
        .map(|(name, value)| ((*name).to_owned(), (*value).to_owned()))
        .collect()
}

#[test]
fn requests_have_to_be_json() {
    assert_eq!(expect_json_content_type(Some("application/json")), Ok(()));
    assert_eq!(
        expect_json_content_type(Some("text/csv")),
        Err(HeaderError::Unexpected("text/csv".to_owned()))
    );
    assert_eq!(
        expect_json_content_type(Some("application/json; charset=utf-8")),
        Err(HeaderError::Unexpected(
            "application/json; charset=utf-8".to_owned()
        ))
    );
    assert_eq!(
        expect_json_content_type(Some("Application/JSON")),
        Err(HeaderError::Unexpected("Application/JSON".to_owned()))
    );
    assert_eq!(expect_json_content_type(None), Err(HeaderError::Missing));
}

#[test]
fn requests_are_answered_with_their_status() {
    assert_eq!(status_for(Outcome::Geocoded), 200);
    assert_eq!(status_for(Outcome::BadRequest), 400);
    assert_eq!(status_for(Outcome::GeocoderFailed), 500);
    assert_eq!(BODY_LIMIT, 16 * 1024);
    assert_eq!(
        ErrorResponse::new("geocoder error".to_owned()),
        ErrorResponse {
            message: "geocoder error".to_owned()
        }
    );
}

#[test]
fn results_are_sent_back_by_column_name() {
    let names = strings(&["road", "city"]);
    let geocoded = Geocoded {
        column_values: strings(&["w 34th st", "new york"]),
    };
    assert_eq!(
        hash_from_geocoded(&names, &geocoded),
        pairs(&[("road", "w 34th st"), ("city", "new york")])
    );
    // Names without a value, and values without a name, are left out.
    assert_eq!(
        hash_from_geocoded(&names[..1], &geocoded),
        pairs(&[("road", "w 34th st")])
    );
    assert_eq!(
        hash_from_geocoded(
            &names,
            &Geocoded {
                column_values: strings(&["x"])
            }
        ),
        pairs(&[("road", "x")])
    );
    assert_eq!(hash_from_geocoded(&[], &geocoded), pairs(&[]));

    assert_eq!(
        geocode_response(&names, &vec![None, Some(geocoded), None]),
        vec![
            None,
            Some(pairs(&[("road", "w 34th st"), ("city", "new york")])),
            None
        ]
    );
    assert_eq!(geocode_response(&names, &vec![]), vec![]);
}
