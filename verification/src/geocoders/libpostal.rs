//! "Geocoding" with an address parser. This only splits an address into
//! its components and normalizes them; it finds no coordinates. The parser
//! itself is called by the program around the library.

use vstd::prelude::*;

use crate::addresses::or_empty;
use crate::addresses::str_views;
use crate::addresses::Address;
use crate::addresses::AddressText;
use crate::geocoders::Geocoded;
use crate::geocoders::Geocoder;
use crate::sequences::first_position;
use crate::sequences::lemma_first_position;
use crate::sequences::lemma_first_position_extends;
use crate::text::push_char;
use crate::text::str_eq;
use crate::text::views;

verus! {

/// The components that the parser may find in an address, which are the
/// names of the output columns.
pub open spec fn component_names() -> Seq<Seq<char>> {
    seq![
        "archipelago"@,
        "city"@,
        "continent"@,
        "country_code"@,
        "country"@,
        "county"@,
        "hamlet"@,
        "house_number"@,
        "house"@,
        "island"@,
        "municipality"@,
        "neighbourhood"@,
        "postal_city"@,
        "postcode"@,
        "region"@,
        "road"@,
        "state_district"@,
        "state"@,
        "village"@,
        "category"@,
        "city_district"@,
        "country_region"@,
        "entrance"@,
        "level"@,
        "near"@,
        "po_box"@,
        "staircase"@,
        "suburb"@,
        "unit"@,
        "world_region"@,
    ]
}

/// The text that is handed to the parser for an address: street, city,
/// state and zipcode with a space between each two, a missing part
/// standing as the empty text.
pub open spec fn address_line(addr: AddressText) -> Seq<char> {
    addr.street + seq![' '] + or_empty(addr.city) + seq![' '] + or_empty(addr.state) + seq![' ']
        + or_empty(addr.zipcode)
}

/// The labels and texts of a list of parsed components.
pub open spec fn component_views(parsed: Seq<(String, String)>) -> Seq<(Seq<char>, Seq<char>)> {
    Seq::new(parsed.len(), |i: int| (parsed[i].0@, parsed[i].1@))
}

/// The text of the component with the given label: that of the last
/// component so labelled, or the empty text where there is none.
pub open spec fn component_named(parsed: Seq<(Seq<char>, Seq<char>)>, label: Seq<char>) -> Seq<char>
    decreases parsed.len(),
{
    if parsed.len() == 0 {
        Seq::empty()
    } else if parsed.last().0 == label {
        parsed.last().1
    } else {
        component_named(parsed.drop_last(), label)
    }
}

/// The column values that stand for a parsed address: for each component
/// name, in order, the text of that component.
pub open spec fn component_values(parsed: Seq<(Seq<char>, Seq<char>)>) -> Seq<Seq<char>> {
    Seq::new(component_names().len(), |c: int| component_named(parsed, component_names()[c]))
}

/// The address parser as a geocoder.
#[derive(Debug)]
pub struct LibPostal {
    /// The column names.
    column_names: Vec<String>,
}

/// The text of the component with the given label.
fn find_component(parsed: &Vec<(String, String)>, label: &str) -> (text: String)
    ensures
        text@ == component_named(component_views(parsed@), label@),
{
    let ghost all = component_views(parsed@);
    let mut i: usize = parsed.len();
    assert(all.take(i as int) =~= all);
    while i > 0
        invariant
            i <= parsed.len(),
            all == component_views(parsed@),
            component_named(all, label@) == component_named(all.take(i as int), label@),
        decreases i,
    {
        i -= 1;
        assert(all.take(i + 1).drop_last() =~= all.take(i as int));
        assert(all.take(i + 1).last() == all[i as int]);
        if str_eq(parsed[i].0.as_str(), label) {
            return parsed[i].1.clone();
        }
    }
    String::new()
}

impl LibPostal {
    #[verifier::type_invariant]
    spec fn consistent(&self) -> bool {
        views(self.column_names@) == component_names()
    }

    /// Create a new parser geocoder.
    pub fn new() -> (libpostal: LibPostal)
        ensures
            libpostal.tag_text() == "lp"@,
            libpostal.configuration_key_text() == "default"@,
            libpostal.column_name_texts() == component_names(),
    {
        let names = vec![
            "archipelago",
            "city",
            "continent",
            "country_code",
            "country",
            "county",
            "hamlet",
            "house_number",
            "house",
            "island",
            "municipality",
            "neighbourhood",
            "postal_city",
            "postcode",
            "region",
            "road",
            "state_district",
            "state",
            "village",
            "category",
            "city_district",
            "country_region",
            "entrance",
            "level",
            "near",
            "po_box",
            "staircase",
            "suburb",
            "unit",
            "world_region",
        ];
        assert(str_views(names@) =~= component_names());
        let mut column_names: Vec<String> = Vec::new();
        let mut i: usize = 0;
        while i < names.len()
            invariant
                i <= names.len(),
                column_names@.len() == i,
                forall|k: int| 0 <= k < i ==> (#[trigger] column_names@[k])@ == names@[k]@,
            decreases names.len() - i,
        {
            column_names.push(names[i].to_owned());
            i += 1;
        }
        assert(views(column_names@) =~= str_views(names@));
        LibPostal { column_names }
    }

    /// The text to hand to the parser for an address.
    pub fn address_line(addr: &Address) -> (line: String)
        ensures
            line@ == address_line(addr@),
    {
        let mut line = String::new();
        line.append(addr.street.as_str());
        push_char(&mut line, ' ');
        line.append(addr.city_str());
        push_char(&mut line, ' ');
        line.append(addr.state_str());
        push_char(&mut line, ' ');
        line.append(addr.zipcode_str());
        assert(line@ =~= address_line(addr@));
        line
    }

    /// The geocoded address that the components found by the parser give:
    /// a value for each column, empty where the parser has found no such
    /// component.
    pub fn geocoded_from_components(&self, parsed: &Vec<(String, String)>) -> (geocoded: Geocoded)
        ensures
            self.column_name_texts() == component_names(),
            geocoded@ == component_values(component_views(parsed@)),
    {
        proof {
            use_type_invariant(self);
        }
        let mut column_values: Vec<String> = Vec::new();
        let mut c: usize = 0;
        while c < self.column_names.len()
            invariant
                c <= self.column_names.len(),
                column_values@.len() == c,
                forall|k: int|
                    0 <= k < c ==> (#[trigger] column_values@[k])@ == component_named(
                        component_views(parsed@),
                        self.column_names@[k]@,
                    ),
            decreases self.column_names.len() - c,
        {
            column_values.push(find_component(parsed, self.column_names[c].as_str()));
            c += 1;
        }
        let geocoded = Geocoded { column_values };
        assert(geocoded@ =~= component_values(component_views(parsed@))) by {
            assert forall|k: int| 0 <= k < geocoded@.len() implies geocoded@[k]
                == component_values(component_views(parsed@))[k] by {
                assert(geocoded@[k] == geocoded.column_values@[k]@);
                assert(component_names()[k] == self.column_names@[k]@);
            }
        }
        geocoded
    }

    /// The position of the column with the given name, if there is one.
    pub fn column_index(&self, name: &str) -> (found: Option<usize>)
        ensures
            match found {
                Some(i) => first_position(self.column_name_texts(), name@) == Some(i as int)
                    && i < self.column_name_texts().len(),
                None => first_position(self.column_name_texts(), name@) is None,
            },
    {
        let ghost names = self.column_name_texts();
        let mut i: usize = 0;
        assert(names.take(0) =~= Seq::<Seq<char>>::empty());
        while i < self.column_names.len()
            invariant
                i <= self.column_names.len(),
                names == self.column_name_texts(),
                first_position(names.take(i as int), name@) is None,
            decreases self.column_names.len() - i,
        {
            proof {
                assert(names.take(i + 1).drop_last() =~= names.take(i as int));
                assert(names.take(i + 1).last() == self.column_names@[i as int]@);
            }
            if str_eq(self.column_names[i].as_str(), name) {
                proof {
                    lemma_first_position_extends(names, name@, i + 1);
                    lemma_first_position(names, name@);
                }
                return Some(i);
            }
            i += 1;
        }
        assert(names.take(names.len() as int) =~= names);
        None
    }
}

impl Geocoder for LibPostal {
    closed spec fn tag_text(&self) -> Seq<char> {
        "lp"@
    }

    closed spec fn configuration_key_text(&self) -> Seq<char> {
        "default"@
    }

    closed spec fn column_name_texts(&self) -> Seq<Seq<char>> {
        views(self.column_names@)
    }

    fn tag(&self) -> (tag: &str) {
        "lp"
    }

    fn configuration_key(&self) -> (key: &str) {
        "default"
    }

    fn column_names(&self) -> (names: &[String]) {
        self.column_names.as_slice()
    }
}

} // verus!
