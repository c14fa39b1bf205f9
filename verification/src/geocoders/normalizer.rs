//! Normalize addresses with the address parser before they are passed to
//! another geocoder.
//!
//! The normalized form is part of every cache key built behind a
//! normalizer: it has to stay as it is, or the caches filled under it are
//! lost.

use vstd::prelude::*;

use crate::addresses::address_texts;
use crate::addresses::str_views;
use crate::addresses::Address;
use crate::addresses::AddressText;
use crate::geocoders::clone_strings;
use crate::geocoders::invalid_record_skipper::WrongNumberOfResults;
use crate::geocoders::libpostal::component_names;
use crate::geocoders::libpostal::LibPostal;
use crate::geocoders::result_values;
use crate::geocoders::Geocoded;
use crate::geocoders::Geocoder;
use crate::sequences::first_position;
use crate::text::is_whitespace;
use crate::text::lemma_trimmed_end_is_prefix;
use crate::text::lemma_trimmed_start_is_suffix;
use crate::text::push_char;
use crate::text::str_ends_with;
use crate::text::trim;
use crate::text::trimmed;
use crate::text::trimmed_start;
use crate::text::views;

verus! {

/// A text with one more part behind it. The part is trimmed, and left out
/// if nothing is left of it then; else it follows a single space, unless
/// the text is empty or ends with a space already.
pub open spec fn with_part(base: Seq<char>, part: Seq<char>) -> Seq<char> {
    let part = trimmed(part);
    if part.len() == 0 {
        base
    } else if base.len() == 0 || base.last() == ' ' {
        base + part
    } else {
        base + seq![' '] + part
    }
}

/// The parts trimmed and joined by single spaces, parts of which nothing
/// is left then being left out.
pub open spec fn join_space(parts: Seq<Seq<char>>) -> Seq<char>
    decreases parts.len(),
{
    if parts.len() == 0 {
        Seq::empty()
    } else {
        let joined = join_space(parts.drop_last());
        let part = trimmed(parts.last());
        if part.len() == 0 {
            joined
        } else if joined.len() == 0 {
            part
        } else {
            joined + seq![' '] + part
        }
    }
}

/// What `join_space` gives does not end with whitespace, so that one more
/// part joins it as `with_part` says.
pub proof fn lemma_join_space_grows_by_parts(parts: Seq<Seq<char>>)
    ensures
        join_space(parts).len() > 0 ==> !is_whitespace(join_space(parts).last()),
        parts.len() > 0 ==> join_space(parts) == with_part(
            join_space(parts.drop_last()),
            parts.last(),
        ),
    decreases parts.len(),
{
    if parts.len() > 0 {
        let front = parts.drop_last();
        lemma_join_space_grows_by_parts(front);
        lemma_trimmed_start_is_suffix(parts.last());
        lemma_trimmed_end_is_prefix(trimmed_start(parts.last()));
        let joined = join_space(front);
        let part = trimmed(parts.last());
        if part.len() > 0 && joined.len() > 0 {
            assert((joined + seq![' '] + part).last() == part.last());
            assert(is_whitespace(' '));
        }
    }
}

/// The value of the component with the given name among the column values
/// of a parsed address: the value at the first place of that name among
/// the columns, or the empty text where the name is not that of a column
/// or the values end before it.
pub open spec fn component(columns: Seq<Seq<char>>, values: Seq<Seq<char>>, name: Seq<char>) -> Seq<
    char,
> {
    match first_position(columns, name) {
        Some(i) => if i < values.len() {
            values[i]
        } else {
            Seq::empty()
        },
        None => Seq::empty(),
    }
}

/// A text, or nothing where the text is empty.
pub open spec fn non_empty(text: Seq<char>) -> Option<Seq<char>> {
    if text.len() == 0 {
        None
    } else {
        Some(text)
    }
}

/// The components that make up a street: a PO box goes before a street
/// address if both are there; `house` is a name such as that of a
/// building, `unit` an apartment or the like.
pub open spec fn street_components() -> Seq<Seq<char>> {
    seq!["po_box"@, "house_number"@, "house"@, "road"@, "unit"@]
}

/// The components that make up a city: `city_district` may be a borough,
/// with `city` either empty or the city around it.
pub open spec fn city_components() -> Seq<Seq<char>> {
    seq!["city_district"@, "city"@]
}

/// The components that make up a state.
pub open spec fn state_components() -> Seq<Seq<char>> {
    seq!["state"@]
}

/// The components that make up a zipcode.
pub open spec fn zipcode_components() -> Seq<Seq<char>> {
    seq!["postcode"@]
}

/// The values of the components with the given names.
pub open spec fn components(columns: Seq<Seq<char>>, values: Seq<Seq<char>>, names: Seq<Seq<char>>) -> Seq<
    Seq<char>,
> {
    Seq::new(names.len(), |i: int| component(columns, values, names[i]))
}

/// The address that stands for a parsed address with the given column
/// values: street, city, state and zipcode are each made of the values of
/// their components, joined by `join_space`; city, state and zipcode are
/// missing where they would be empty.
pub open spec fn normalized_address(columns: Seq<Seq<char>>, values: Seq<Seq<char>>) -> AddressText {
    AddressText {
        street: join_space(components(columns, values, street_components())),
        city: non_empty(join_space(components(columns, values, city_components()))),
        state: non_empty(join_space(components(columns, values, state_components()))),
        zipcode: non_empty(join_space(components(columns, values, zipcode_components()))),
    }
}

/// The addresses that go to the inner geocoder: each address normalized,
/// and as it is where the parser gave no result for it.
pub open spec fn normalized_addresses(
    columns: Seq<Seq<char>>,
    addresses: Seq<AddressText>,
    parsed: Seq<Option<Seq<Seq<char>>>>,
) -> Seq<AddressText> {
    Seq::new(
        addresses.len(),
        |i: int|
            match parsed[i] {
                Some(values) => normalized_address(columns, values),
                None => addresses[i],
            },
    )
}

/// Append `to_append` to `base`, trimmed, adding a leading space if one is
/// needed to separate it from what `base` holds. Nothing is appended where
/// nothing is left of `to_append` once it is trimmed.
pub fn append_space_separated(base: &mut String, to_append: &str)
    ensures
        final(base)@ == with_part(old(base)@, to_append@),
{
    let part = trim(to_append);
    if part.as_str().is_empty() {
        return ;
    }
    proof {
        reveal_strlit(" ");
        let text = base@;
        if text.len() > 0 {
            assert(" "@ =~= seq![' ']);
            if text.last() == ' ' {
                assert(text.subrange(text.len() - 1, text.len() as int) =~= seq![' ']);
            } else {
                assert(text.subrange(text.len() - 1, text.len() as int)[0] != ' ');
            }
        }
    }
    if !base.as_str().is_empty() && !str_ends_with(base.as_str(), " ") {
        push_char(base, ' ');
    }
    base.append(part.as_str());
    assert(base@ =~= with_part(old(base)@, to_append@));
}

/// Append the component `component` from `normalized` to `base`, if the
/// parser has found it.
pub fn append_component(
    libpostal: &LibPostal,
    base: &mut String,
    normalized: &Geocoded,
    component_name: &str,
)
    ensures
        final(base)@ == with_part(
            old(base)@,
            component(libpostal.column_name_texts(), normalized@, component_name@),
        ),
{
    let ghost wanted = component(libpostal.column_name_texts(), normalized@, component_name@);
    match libpostal.column_index(component_name) {
        Some(idx) => {
            if idx < normalized.column_values.len() {
                assert(normalized@[idx as int] == normalized.column_values@[idx as int]@);
                assert(normalized@.len() == normalized.column_values@.len());
                assert(wanted == normalized@[idx as int]);
                append_space_separated(base, normalized.column_values[idx].as_str());
            } else {
                assert(normalized@.len() == normalized.column_values@.len());
                assert(wanted =~= Seq::<char>::empty());
                assert(trimmed(wanted) =~= Seq::<char>::empty());
            }
        },
        None => {
            assert(wanted =~= Seq::<char>::empty());
            assert(trimmed(wanted) =~= Seq::<char>::empty());
        },
    }
}

/// A string, or nothing where the string is empty.
fn non_empty_string(s: String) -> (r: Option<String>)
    ensures
        crate::text::optional_text(r) == non_empty(s@),
{
    if s.as_str().is_empty() {
        None
    } else {
        Some(s)
    }
}

/// The values of the named components of a parsed address, joined by
/// `join_space`.
fn join_components(libpostal: &LibPostal, normalized: &Geocoded, names: &Vec<&str>) -> (joined:
    String)
    ensures
        joined@ == join_space(
            components(libpostal.column_name_texts(), normalized@, str_views(names@)),
        ),
{
    let ghost all = components(libpostal.column_name_texts(), normalized@, str_views(names@));
    let mut joined = String::new();
    let mut i: usize = 0;
    assert(all.take(0) =~= Seq::<Seq<char>>::empty());
    while i < names.len()
        invariant
            i <= names.len(),
            all == components(libpostal.column_name_texts(), normalized@, str_views(names@)),
            joined@ == join_space(all.take(i as int)),
        decreases names.len() - i,
    {
        proof {
            assert(all.take(i + 1).drop_last() =~= all.take(i as int));
            assert(all.take(i + 1).last() == component(
                libpostal.column_name_texts(),
                normalized@,
                names@[i as int]@,
            ));
            lemma_join_space_grows_by_parts(all.take(i + 1));
        }
        append_component(libpostal, &mut joined, normalized, names[i]);
        i += 1;
    }
    assert(all.take(names@.len() as int) =~= all);
    joined
}

/// Convert the column values of a parsed address back into an `Address`.
pub fn normalized_to_address(libpostal: &LibPostal, normalized: &Geocoded) -> (address: Address)
    ensures
        address@ == normalized_address(libpostal.column_name_texts(), normalized@),
{
    let street_names = vec!["po_box", "house_number", "house", "road", "unit"];
    assert(str_views(street_names@) =~= street_components());
    let street = join_components(libpostal, normalized, &street_names);
    let city_names = vec!["city_district", "city"];
    assert(str_views(city_names@) =~= city_components());
    let city = join_components(libpostal, normalized, &city_names);
    let state_names = vec!["state"];
    assert(str_views(state_names@) =~= state_components());
    let state = join_components(libpostal, normalized, &state_names);
    let zipcode_names = vec!["postcode"];
    assert(str_views(zipcode_names@) =~= zipcode_components());
    let zipcode = join_components(libpostal, normalized, &zipcode_names);
    Address {
        street,
        city: non_empty_string(city),
        state: non_empty_string(state),
        zipcode: non_empty_string(zipcode),
    }
}

/// Normalize addresses and pass them through to another geocoder.
#[derive(Debug)]
pub struct Normalizer {
    inner_configuration_key: String,
    inner_column_names: Vec<String>,
    libpostal: LibPostal,
}

impl Normalizer {
    /// Create a new `Normalizer` in front of the geocoder `inner`.
    pub fn new<G: Geocoder>(inner: &G) -> (normalizer: Normalizer)
        ensures
            normalizer.tag_text() == "norm"@,
            normalizer.configuration_key_text() == inner.configuration_key_text(),
            normalizer.column_name_texts() == inner.column_name_texts(),
            normalizer.parser_columns() == component_names(),
    {
        Normalizer {
            inner_configuration_key: inner.configuration_key().to_owned(),
            inner_column_names: clone_strings(inner.column_names()),
            libpostal: LibPostal::new(),
        }
    }

    /// The columns of the parser that normalizes.
    pub closed spec fn parser_columns(&self) -> Seq<Seq<char>> {
        self.libpostal.column_name_texts()
    }

    /// The parser that normalizes.
    pub fn libpostal(&self) -> (libpostal: &LibPostal)
        ensures
            libpostal.column_name_texts() == self.parser_columns(),
    {
        &self.libpostal
    }

    /// The addresses to pass to the inner geocoder, given what the parser
    /// has made of the addresses of a batch: each address normalized, and
    /// as it is where the parser gave no result for it.
    ///
    /// Another number of parser results than of addresses is an error.
    pub fn normalize(&self, addresses: &[Address], parsed: &Vec<Option<Geocoded>>) -> (r: Result<
        Vec<Address>,
        WrongNumberOfResults,
    >)
        ensures
            parsed@.len() != addresses@.len() ==> r == Err::<Vec<Address>, WrongNumberOfResults>(
                WrongNumberOfResults {
                    found: parsed@.len() as usize,
                    expected: addresses@.len() as usize,
                },
            ),
            parsed@.len() == addresses@.len() ==> (r matches Ok(normalized) && address_texts(
                normalized@,
            ) == normalized_addresses(
                self.parser_columns(),
                address_texts(addresses@),
                result_values(parsed@),
            )),
    {
        if parsed.len() != addresses.len() {
            return Err(WrongNumberOfResults { found: parsed.len(), expected: addresses.len() });
        }
        let mut out: Vec<Address> = Vec::new();
        let mut i: usize = 0;
        while i < parsed.len()
            invariant
                i <= parsed.len(),
                parsed@.len() == addresses@.len(),
                out@.len() == i,
                forall|k: int|
                    0 <= k < i ==> (#[trigger] out@[k])@ == match parsed@[k] {
                        Some(raw) => normalized_address(self.parser_columns(), raw@),
                        None => addresses@[k]@,
                    },
            decreases parsed.len() - i,
        {
            match &parsed[i] {
                None => {
                    // The parser gave up: pass the address through.
                    out.push(addresses[i].clone());
                },
                Some(raw) => {
                    out.push(normalized_to_address(&self.libpostal, raw));
                },
            }
            i += 1;
        }
        assert(address_texts(out@) =~= normalized_addresses(
            self.parser_columns(),
            address_texts(addresses@),
            result_values(parsed@),
        ));
        Ok(out)
    }
}

impl Geocoder for Normalizer {
    closed spec fn tag_text(&self) -> Seq<char> {
        "norm"@
    }

    closed spec fn configuration_key_text(&self) -> Seq<char> {
        self.inner_configuration_key@
    }

    closed spec fn column_name_texts(&self) -> Seq<Seq<char>> {
        views(self.inner_column_names@)
    }

    fn tag(&self) -> (tag: &str) {
        "norm"
    }

    fn configuration_key(&self) -> (key: &str) {
        self.inner_configuration_key.as_str()
    }

    fn column_names(&self) -> (names: &[String]) {
        self.inner_column_names.as_slice()
    }
}

} // verus!
