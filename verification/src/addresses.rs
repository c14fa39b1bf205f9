//! Addresses, and the description of where in a CSV row each part of an
//! address is found.

use vstd::prelude::*;

use crate::record::record_fields;
use crate::geocoders::Geocoder;
use crate::sequences::all_distinct;
use crate::sequences::first_not;
use crate::sequences::first_repeat;
use crate::sequences::lemma_first_repeat_extends;
use crate::text::views;
use crate::sequences::lemma_first_not_concat;
use crate::sequences::lemma_first_not_single;
use crate::text::ends_with;
use crate::text::optional_text;
use crate::text::same_ignoring_ascii_case;
use crate::text::str_ends_with;
use crate::text::str_eq_ignore_ascii_case;
use crate::text::str_is_blank;
use crate::text::lemma_bytes_lt_irreflexive;
use crate::text::lemma_bytes_lt_total;
use crate::text::lemma_bytes_lt_transitive;
use crate::text::lemma_encoding_is_injective;
use crate::text::str_eq;
use crate::text::str_lt;
use crate::text::text_lt;
use crate::text::text_or_empty;
use crate::text::trimmed;
use vstd::utf8::encode_utf8;

verus! {

/// An address record that can be handed to a geocoder.
#[derive(Debug, PartialEq, Eq)]
pub struct Address {
    /// Either the street, or the entire address as one string. Always present.
    pub street: String,
    /// The city, if any.
    pub city: Option<String>,
    /// The state, if any.
    pub state: Option<String>,
    /// The zipcode, if any.
    pub zipcode: Option<String>,
}

/// An address as plain text.
pub struct AddressText {
    pub street: Seq<char>,
    pub city: Option<Seq<char>>,
    pub state: Option<Seq<char>>,
    pub zipcode: Option<Seq<char>>,
}

/// An optional text, nothing counting as the empty text.
pub open spec fn or_empty(o: Option<Seq<char>>) -> Seq<char> {
    match o {
        Some(s) => s,
        None => Seq::empty(),
    }
}

impl AddressText {
    /// A valid address has a street that is more than whitespace.
    pub open spec fn is_valid(self) -> bool {
        trimmed(self.street).len() > 0
    }

    /// Equality of all four parts but for the case of ASCII letters, a
    /// missing part counting as an empty one.
    pub open spec fn eq_ignore_ascii_case(self, other: AddressText) -> bool {
        &&& same_ignoring_ascii_case(self.street, other.street)
        &&& same_ignoring_ascii_case(or_empty(self.city), or_empty(other.city))
        &&& same_ignoring_ascii_case(or_empty(self.state), or_empty(other.state))
        &&& same_ignoring_ascii_case(or_empty(self.zipcode), or_empty(other.zipcode))
    }
}

impl View for Address {
    type V = AddressText;

    open spec fn view(&self) -> AddressText {
        AddressText {
            street: self.street@,
            city: optional_text(self.city),
            state: optional_text(self.state),
            zipcode: optional_text(self.zipcode),
        }
    }
}

/// The texts of a list of addresses, in order.
pub open spec fn address_texts(v: Seq<Address>) -> Seq<AddressText> {
    Seq::new(v.len(), |i: int| v[i]@)
}

/// A copy of an optional string.
pub fn clone_optional(o: &Option<String>) -> (r: Option<String>)
    ensures
        optional_text(r) == optional_text(*o),
        r is Some <==> *o is Some,
{
    match o {
        Some(s) => Some(s.clone()),
        None => None,
    }
}

/// The text of an optional string, or the empty string.
fn optional_str(o: &Option<String>) -> (r: &str)
    ensures
        r@ == text_or_empty(*o),
{
    match o {
        Some(s) => s.as_str(),
        None => {
            proof {
                reveal_strlit("");
            }
            ""
        },
    }
}

impl Clone for Address {
    fn clone(&self) -> (r: Address)
        ensures
            r@ == self@,
    {
        Address {
            street: self.street.clone(),
            city: clone_optional(&self.city),
            state: clone_optional(&self.state),
            zipcode: clone_optional(&self.zipcode),
        }
    }
}

impl Address {
    /// A valid `Address` has a non-empty `street` field, and whitespace does
    /// not count as non-empty.
    pub fn is_valid(&self) -> (r: bool)
        ensures
            r == self@.is_valid(),
    {
        !str_is_blank(self.street.as_str())
    }

    /// The `city` field, or an empty string.
    pub fn city_str(&self) -> (r: &str)
        ensures
            r@ == or_empty(self@.city),
    {
        optional_str(&self.city)
    }

    /// The `state` field, or an empty string.
    pub fn state_str(&self) -> (r: &str)
        ensures
            r@ == or_empty(self@.state),
    {
        optional_str(&self.state)
    }

    /// The `zipcode` field, or an empty string.
    pub fn zipcode_str(&self) -> (r: &str)
        ensures
            r@ == or_empty(self@.zipcode),
    {
        optional_str(&self.zipcode)
    }

    /// Is `self` equal to `other`, ignoring ASCII case?
    pub fn eq_ignore_ascii_case(&self, other: &Address) -> (r: bool)
        ensures
            r == self@.eq_ignore_ascii_case(other@),
    {
        str_eq_ignore_ascii_case(self.street.as_str(), other.street.as_str())
            && str_eq_ignore_ascii_case(self.city_str(), other.city_str())
            && str_eq_ignore_ascii_case(self.state_str(), other.state_str())
            && str_eq_ignore_ascii_case(self.zipcode_str(), other.zipcode_str())
    }
}

/// Return a prefixed column name of the form `{prefix}_{column}`.
pub fn prefix_column_name(prefix: &str, column: &str) -> (name: String)
    ensures
        name@ == prefixed_name(prefix@, column@),
{
    let mut name = String::new();
    name.append(prefix);
    proof {
        reveal_strlit("_");
    }
    name.append("_");
    name.append(column);
    assert(name@ =~= prefixed_name(prefix@, column@));
    name
}

/// The name of an output column: the prefix, an underscore, the column.
pub open spec fn prefixed_name(prefix: Seq<char>, column: Seq<char>) -> Seq<char> {
    prefix + seq!['_'] + column
}

/// The column names of a geocoder, each behind `prefix` and an underscore.
pub open spec fn prefixed_names(prefix: Seq<char>, column_names: Seq<Seq<char>>) -> Seq<Seq<char>> {
    Seq::new(column_names.len(), |i: int| prefixed_name(prefix, column_names[i]))
}

/// The columns that geocoding adds to a file: for each prefix in turn, the
/// column names of the geocoder behind that prefix.
pub open spec fn output_names(prefixes: Seq<Seq<char>>, column_names: Seq<Seq<char>>) -> Seq<Seq<char>>
    decreases prefixes.len(),
{
    if prefixes.len() == 0 {
        Seq::empty()
    } else {
        output_names(prefixes.drop_last(), column_names) + prefixed_names(
            prefixes.last(),
            column_names,
        )
    }
}

/// The columns of `header` whose names are among `names`, each with its
/// index, in the order of the header.
pub open spec fn colliding_columns(header: Seq<Seq<char>>, names: Seq<Seq<char>>) -> Seq<
    (Seq<char>, usize),
>
    decreases header.len(),
{
    if header.len() == 0 {
        Seq::empty()
    } else {
        let before = colliding_columns(header.drop_last(), names);
        if names.contains(header.last()) {
            before.push((header.last(), (header.len() - 1) as usize))
        } else {
            before
        }
    }
}

/// The output columns of the first prefixes, and of part of the next, are
/// the first output columns of all.
pub proof fn lemma_output_names_prefix(
    prefixes: Seq<Seq<char>>,
    column_names: Seq<Seq<char>>,
    p: int,
    c: int,
)
    requires
        0 <= p < prefixes.len(),
        0 <= c <= column_names.len(),
    ensures
        ({
            let part = output_names(prefixes.take(p), column_names) + prefixed_names(
                prefixes[p],
                column_names.take(c),
            );
            let all = output_names(prefixes, column_names);
            part.len() <= all.len() && all.take(part.len() as int) == part
        }),
        output_names(prefixes.take(p + 1), column_names) == output_names(
            prefixes.take(p),
            column_names,
        ) + prefixed_names(prefixes[p], column_names),
    decreases prefixes.len() - p,
{
    let part = output_names(prefixes.take(p), column_names) + prefixed_names(
        prefixes[p],
        column_names.take(c),
    );
    let whole = output_names(prefixes.take(p), column_names) + prefixed_names(
        prefixes[p],
        column_names,
    );
    assert(prefixes.take(p + 1).drop_last() =~= prefixes.take(p));
    assert(output_names(prefixes.take(p + 1), column_names) == whole);
    assert(whole.take(part.len() as int) =~= part);
    if p + 1 == prefixes.len() {
        assert(prefixes.take(p + 1) =~= prefixes);
    } else {
        lemma_output_names_prefix(prefixes, column_names, p + 1, 0);
        let next = whole + prefixed_names(prefixes[p + 1], column_names.take(0));
        assert(next =~= whole);
        let all = output_names(prefixes, column_names);
        assert(all.take(whole.len() as int) == whole);
        assert(all.take(part.len() as int) =~= whole.take(part.len() as int));
    }
}

/// What goes wrong when a column specification meets a CSV file.
#[derive(Debug, PartialEq, Eq)]
pub enum SpecError {
    /// A row has no field at the index that a key names.
    FieldOutOfRange(usize),
    /// The header holds this column name for the second time.
    DuplicateHeader(String),
    /// The specification names a column that the header does not hold.
    UnknownColumn(String),
    /// Two output columns would have this name.
    DuplicateOutputColumn(String),
}

/// Either a column key, or a list of keys.
///
/// `K` is either a `String` (a column name) or a `usize` (a column index).
#[derive(Debug, PartialEq, Eq)]
pub enum ColumnKeyOrKeys<K: Eq> {
    /// The key of a single column.
    Key(K),
    /// The keys of several columns, whose values are joined by a space.
    Keys(Vec<K>),
}

/// One more value on an extracted string: the first value as it is; a value
/// that the string already ends with is skipped; any other follows a space.
pub open spec fn append_value(acc: Seq<char>, value: Seq<char>) -> Seq<char> {
    if acc.len() == 0 {
        value
    } else if ends_with(acc, value) {
        acc
    } else {
        acc + seq![' '] + value
    }
}

/// The left fold of `append_value` over `values`, from the empty string.
pub open spec fn joined_values(values: Seq<Seq<char>>) -> Seq<char>
    decreases values.len(),
{
    if values.len() == 0 {
        Seq::empty()
    } else {
        append_value(joined_values(values.drop_last()), values.last())
    }
}

/// The fields of a row that `indices` name, in the order of `indices`.
pub open spec fn picked(fields: Seq<Seq<char>>, indices: Seq<usize>) -> Seq<Seq<char>> {
    Seq::new(indices.len(), |i: int| fields[indices[i] as int])
}

/// Whether an index is within a row of `len` fields.
pub open spec fn in_row(len: nat) -> spec_fn(usize) -> bool {
    |k: usize| k < len
}

/// The first of `indices` that a row of `len` fields does not have.
pub open spec fn first_out_of_range(indices: Seq<usize>, len: nat) -> Option<usize> {
    first_not(indices, in_row(len))
}

impl ColumnKeyOrKeys<usize> {
    /// The column indices, in order.
    pub open spec fn indices(&self) -> Seq<usize> {
        match self {
            ColumnKeyOrKeys::Key(key) => seq![*key],
            ColumnKeyOrKeys::Keys(keys) => keys@,
        }
    }

    /// Given a CSV row, extract the text that the keys describe: the value
    /// of the single column, or the values of the listed columns joined by
    /// single spaces, a value being skipped where the text so far already
    /// ends with it. Fails on the first key that the row has no field for.
    pub fn extract_from_record(&self, record: &csv::StringRecord) -> (r: Result<String, SpecError>)
        ensures
            match first_out_of_range(self.indices(), record_fields(record).len()) {
                Some(k) => r == Err::<String, SpecError>(SpecError::FieldOutOfRange(k)),
                None => r is Ok && r->Ok_0@ == joined_values(
                    picked(record_fields(record), self.indices()),
                ),
            },
    {
        let ghost fields = record_fields(record);
        match self {
            ColumnKeyOrKeys::Key(key) => {
                proof {
                    reveal_with_fuel(joined_values, 2);
                    lemma_first_not_single(*key, in_row(fields.len()));
                    let values = picked(fields, self.indices());
                    assert(values.drop_last() =~= Seq::<Seq<char>>::empty());
                    assert(values.last() == picked(fields, self.indices())[0]);
                }
                match record.get(*key) {
                    Some(field) => Ok(field.to_owned()),
                    None => Err(SpecError::FieldOutOfRange(*key)),
                }
            },
            ColumnKeyOrKeys::Keys(keys) => {
                let mut extracted = String::new();
                let mut i: usize = 0;
                while i < keys.len()
                    invariant
                        i <= keys.len(),
                        fields == record_fields(record),
                        self.indices() == keys@,
                        first_out_of_range(keys@.take(i as int), fields.len()) is None,
                        extracted@ == joined_values(picked(fields, keys@.take(i as int))),
                    decreases keys.len() - i,
                {
                    let ghost done = keys@.take(i as int);
                    proof {
                        let ok = in_row(fields.len());
                        assert(keys@.take(i + 1) =~= done + seq![keys@[i as int]]);
                        lemma_first_not_concat(done, seq![keys@[i as int]], ok);
                        lemma_first_not_single(keys@[i as int], ok);
                        assert(keys@ =~= keys@.take(i + 1) + keys@.skip(i + 1));
                        lemma_first_not_concat(keys@.take(i + 1), keys@.skip(i + 1), ok);
                    }
                    match record.get(keys[i]) {
                        Some(field) => {
                            if extracted.as_str().is_empty() {
                                extracted.append(field);
                            } else if str_ends_with(extracted.as_str(), field) {
                                // Already there: real-world data repeats the
                                // tail of one column in the next.
                            } else {
                                proof {
                                    reveal_strlit(" ");
                                }
                                extracted.append(" ");
                                extracted.append(field);
                            }
                        },
                        None => {
                            return Err(SpecError::FieldOutOfRange(keys[i]));
                        },
                    }
                    proof {
                        let now = picked(fields, keys@.take(i + 1));
                        assert(now.drop_last() =~= picked(fields, done));
                        assert(now.last() == fields[keys@[i as int] as int]);
                        assert(extracted@ =~= joined_values(now));
                    }
                    i += 1;
                }
                assert(keys@.take(i as int) == keys@);
                Ok(extracted)
            },
        }
    }
}

/// The columns of a CSV file that make up one address.
///
/// `K` is either a `String` (a column name) or a `usize` (a column index).
#[derive(Debug, PartialEq, Eq)]
pub struct AddressColumnKeys<K: Default + Eq> {
    /// The street column or columns.
    pub street: ColumnKeyOrKeys<K>,
    /// The city column, if any.
    pub city: Option<K>,
    /// The state column, if any.
    pub state: Option<K>,
    /// The zipcode column, if any.
    pub zipcode: Option<K>,
}

/// The keys that an optional key stands for: one or none.
pub open spec fn optional_key<K>(key: Option<K>) -> Seq<K> {
    match key {
        Some(k) => seq![k],
        None => Seq::empty(),
    }
}

/// The field of a row at an optional index.
pub open spec fn optional_field(fields: Seq<Seq<char>>, key: Option<usize>) -> Option<Seq<char>> {
    match key {
        Some(k) => Some(fields[k as int]),
        None => None,
    }
}

/// The field of a row at an optional index, as a string of its own.
fn extract_optional(key: &Option<usize>, record: &csv::StringRecord) -> (r: Result<
    Option<String>,
    SpecError,
>)
    ensures
        match first_out_of_range(optional_key(*key), record_fields(record).len()) {
            Some(k) => r == Err::<Option<String>, SpecError>(SpecError::FieldOutOfRange(k)),
            None => r is Ok && optional_text(r->Ok_0) == optional_field(
                record_fields(record),
                *key,
            ),
        },
{
    match key {
        Some(k) => {
            proof {
                lemma_first_not_single(*k, in_row(record_fields(record).len()));
            }
            match record.get(*k) {
                Some(field) => Ok(Some(field.to_owned())),
                None => Err(SpecError::FieldOutOfRange(*k)),
            }
        },
        None => Ok(None),
    }
}

impl AddressColumnKeys<usize> {
    /// Every column index that an address is read from: those of the
    /// street, then city, state and zipcode where they are given.
    pub open spec fn indices(&self) -> Seq<usize> {
        self.street.indices() + optional_key(self.city) + optional_key(self.state)
            + optional_key(self.zipcode)
    }

    /// The address that these keys describe in a row of the given fields.
    pub open spec fn address_in(&self, fields: Seq<Seq<char>>) -> AddressText {
        AddressText {
            street: joined_values(picked(fields, self.street.indices())),
            city: optional_field(fields, self.city),
            state: optional_field(fields, self.state),
            zipcode: optional_field(fields, self.zipcode),
        }
    }

    /// Given a CSV row, extract an `Address` value to send to a geocoder.
    /// Fails on the first key that the row has no field for.
    pub fn extract_address_from_record(&self, record: &csv::StringRecord) -> (r: Result<
        Address,
        SpecError,
    >)
        ensures
            match first_out_of_range(self.indices(), record_fields(record).len()) {
                Some(k) => r == Err::<Address, SpecError>(SpecError::FieldOutOfRange(k)),
                None => r is Ok && r->Ok_0@ == self.address_in(record_fields(record)),
            },
    {
        let ghost len = record_fields(record).len();
        proof {
            let a = self.street.indices();
            let b = optional_key(self.city);
            let c = optional_key(self.state);
            let d = optional_key(self.zipcode);
            lemma_first_not_concat(a + b + c, d, in_row(len));
            lemma_first_not_concat(a + b, c, in_row(len));
            lemma_first_not_concat(a, b, in_row(len));
        }
        let street = match self.street.extract_from_record(record) {
            Ok(street) => street,
            Err(e) => {
                return Err(e);
            },
        };
        let city = match extract_optional(&self.city, record) {
            Ok(city) => city,
            Err(e) => {
                return Err(e);
            },
        };
        let state = match extract_optional(&self.state, record) {
            Ok(state) => state,
            Err(e) => {
                return Err(e);
            },
        };
        let zipcode = match extract_optional(&self.zipcode, record) {
            Ok(zipcode) => zipcode,
            Err(e) => {
                return Err(e);
            },
        };
        Ok(Address { street, city, state, zipcode })
    }
}

/// Whether each text of a list sorts strictly before all that follow it.
pub open spec fn strictly_sorted(texts: Seq<Seq<char>>) -> bool {
    forall|i: int, j: int| 0 <= i < j < texts.len() ==> text_lt(#[trigger] texts[i], #[trigger] texts[j])
}

/// The texts of a list of string slices, in order.
pub open spec fn str_views(v: Seq<&str>) -> Seq<Seq<char>> {
    Seq::new(v.len(), |i: int| v[i]@)
}

/// In a strictly sorted list no text occurs twice.
pub proof fn lemma_sorted_texts_are_distinct(texts: Seq<Seq<char>>)
    requires
        strictly_sorted(texts),
    ensures
        all_distinct(texts),
{
    assert forall|i: int, j: int| 0 <= i < j < texts.len() implies texts[i] != texts[j] by {
        lemma_bytes_lt_irreflexive(encode_utf8(texts[i]));
        assert(text_lt(texts[i], texts[j]));
    }
}

/// A map from column prefixes (such as "home" or "work") to address column
/// keys. The prefixes are kept in lexicographic order, each once.
///
/// `Key` is either a `String` (a column name) or a `usize` (a column index).
#[derive(Debug, PartialEq, Eq)]
pub struct AddressColumnSpec<Key: Default + Eq> {
    address_columns_by_prefix: Vec<(String, AddressColumnKeys<Key>)>,
}

impl<Key: Default + Eq> AddressColumnSpec<Key> {
    /// The prefixes with their keys, in the order in which they are emitted.
    pub closed spec fn entries(&self) -> Seq<(String, AddressColumnKeys<Key>)> {
        self.address_columns_by_prefix@
    }

    /// The prefixes, in the order in which they are emitted.
    pub open spec fn prefix_texts(&self) -> Seq<Seq<char>> {
        Seq::new(self.entries().len(), |i: int| self.entries()[i].0@)
    }

    /// The keys of each prefix, in the order of the prefixes.
    pub open spec fn keys(&self) -> Seq<AddressColumnKeys<Key>> {
        Seq::new(self.entries().len(), |i: int| self.entries()[i].1)
    }

    /// The prefixes stand in strict lexicographic order.
    pub open spec fn wf(&self) -> bool {
        strictly_sorted(self.prefix_texts())
    }

    #[verifier::type_invariant]
    spec fn sorted(&self) -> bool {
        self.wf()
    }

    /// A specification without prefixes.
    pub fn new() -> (spec: Self)
        ensures
            spec.wf(),
            spec.entries().len() == 0,
    {
        AddressColumnSpec { address_columns_by_prefix: Vec::new() }
    }

    /// The specification with the keys of `prefix` set to `keys`: in place of
    /// those that the prefix had, or else with the prefix added in its place
    /// in the order.
    pub fn with_prefix(self, prefix: String, keys: AddressColumnKeys<Key>) -> (spec: Self)
        ensures
            spec.wf(),
            self.prefix_texts().contains(prefix@) ==> spec.prefix_texts() == self.prefix_texts()
                && exists|i: int|
                0 <= i < self.entries().len() && self.prefix_texts()[i] == prefix@ && spec.keys()
                    == self.keys().update(i, keys),
            !self.prefix_texts().contains(prefix@) ==> exists|i: int|
                0 <= i <= self.entries().len() && spec.entries() == self.entries().insert(
                    i,
                    (prefix, keys),
                ),
    {
        proof {
            use_type_invariant(&self);
        }
        let ghost before = self.entries();
        let ghost texts = self.prefix_texts();
        let mut entries = self.address_columns_by_prefix;
        let mut i: usize = 0;
        while i < entries.len() && str_lt(entries[i].0.as_str(), prefix.as_str())
            invariant
                i <= entries.len(),
                entries@ == before,
                texts == Seq::new(before.len(), |k: int| before[k].0@),
                forall|j: int| 0 <= j < i ==> text_lt(#[trigger] texts[j], prefix@),
            decreases entries.len() - i,
        {
            assert(texts[i as int] == before[i as int].0@);
            i += 1;
        }
        if i < entries.len() && str_eq(entries[i].0.as_str(), prefix.as_str()) {
            assert(texts[i as int] == before[i as int].0@);
            let old_entry = entries.remove(i);
            let ghost middle = entries@;
            entries.insert(i, (old_entry.0, keys));
            proof {
                let now = Seq::new(entries@.len(), |k: int| entries@[k].0@);
                let now_keys = Seq::new(entries@.len(), |k: int| entries@[k].1);
                assert forall|a: int| 0 <= a < texts.len() implies now[a] == texts[a]
                    && now_keys[a] == self.keys().update(i as int, keys)[a] by {
                    if a < i {
                        assert(entries@[a] == middle[a]);
                        assert(middle[a] == before[a]);
                    } else if a > i {
                        assert(entries@[a] == middle[a - 1]);
                        assert(middle[a - 1] == before[a]);
                    }
                }
                assert(now =~= texts);
                assert(now_keys =~= self.keys().update(i as int, keys));
            }
            let spec = AddressColumnSpec { address_columns_by_prefix: entries };
            spec
        } else {
            proof {
                let p = encode_utf8(prefix@);
                assert forall|j: int| i <= j < texts.len() implies text_lt(
                    prefix@,
                    #[trigger] texts[j],
                ) by {
                    let t = encode_utf8(texts[i as int]);
                    assert(texts[i as int] == before[i as int].0@);
                    lemma_bytes_lt_total(t, p);
                    if t == p {
                        lemma_encoding_is_injective(texts[i as int], prefix@);
                    }
                    if j > i {
                        assert(text_lt(texts[i as int], texts[j]));
                        lemma_bytes_lt_transitive(p, t, encode_utf8(texts[j]));
                    }
                }
                assert forall|j: int| 0 <= j < texts.len() implies texts[j] != prefix@ by {
                    lemma_bytes_lt_irreflexive(encode_utf8(prefix@));
                    if j < i {
                        assert(text_lt(texts[j], prefix@));
                    } else {
                        assert(text_lt(prefix@, texts[j]));
                    }
                }
            }
            entries.insert(i, (prefix, keys));
            proof {
                let now = Seq::new(entries@.len(), |k: int| entries@[k].0@);
                assert forall|a: int, b: int| 0 <= a < b < now.len() implies text_lt(
                    #[trigger] now[a],
                    #[trigger] now[b],
                ) by {
                    if a < i {
                        assert(now[a] == texts[a]);
                    } else if a > i {
                        assert(now[a] == texts[a - 1]);
                    }
                    if b < i {
                        assert(now[b] == texts[b]);
                    } else if b > i {
                        assert(now[b] == texts[b - 1]);
                    }
                    if a < i && b > i {
                        assert(text_lt(texts[a], texts[b - 1]));
                    }
                }
            }
            AddressColumnSpec { address_columns_by_prefix: entries }
        }
    }

    /// The number of prefixes to include in the output.
    pub fn prefix_count(&self) -> (n: usize)
        ensures
            n == self.entries().len(),
    {
        self.address_columns_by_prefix.len()
    }

    /// The address prefixes to include in the output, in lexicographic
    /// order and each once: the same order on every call.
    pub fn prefixes(&self) -> (prefixes: Vec<&str>)
        ensures
            str_views(prefixes@) == self.prefix_texts(),
            strictly_sorted(self.prefix_texts()),
            all_distinct(self.prefix_texts()),
    {
        proof {
            use_type_invariant(self);
            lemma_sorted_texts_are_distinct(self.prefix_texts());
        }
        let mut prefixes: Vec<&str> = Vec::new();
        let mut i: usize = 0;
        while i < self.address_columns_by_prefix.len()
            invariant
                i <= self.address_columns_by_prefix.len(),
                prefixes@.len() == i,
                forall|j: int| 0 <= j < i ==> (#[trigger] prefixes@[j])@ == self.entries()[j].0@,
            decreases self.address_columns_by_prefix.len() - i,
        {
            prefixes.push(self.address_columns_by_prefix[i].0.as_str());
            i += 1;
        }
        assert(str_views(prefixes@) =~= self.prefix_texts());
        prefixes
    }

    /// Look up an `AddressColumnKeys` by prefix.
    pub fn get(&self, prefix: &str) -> (found: Option<&AddressColumnKeys<Key>>)
        ensures
            match found {
                Some(keys) => exists|i: int|
                    0 <= i < self.entries().len() && self.prefix_texts()[i] == prefix@ && *keys
                        == self.entries()[i].1,
                None => !self.prefix_texts().contains(prefix@),
            },
    {
        let mut i: usize = 0;
        while i < self.address_columns_by_prefix.len()
            invariant
                i <= self.address_columns_by_prefix.len(),
                forall|j: int| 0 <= j < i ==> #[trigger] self.prefix_texts()[j] != prefix@,
            decreases self.address_columns_by_prefix.len() - i,
        {
            if str_eq(self.address_columns_by_prefix[i].0.as_str(), prefix) {
                assert(self.prefix_texts()[i as int] == prefix@);
                return Some(&self.address_columns_by_prefix[i].1);
            }
            assert(self.prefix_texts()[i as int] == self.entries()[i as int].0@);
            i += 1;
        }
        None
    }

    /// The keys at position `i` in the order of the prefixes.
    pub(crate) fn keys_at(&self, i: usize) -> (keys: &AddressColumnKeys<Key>)
        requires
            i < self.entries().len(),
        ensures
            *keys == self.entries()[i as int].1,
    {
        &self.address_columns_by_prefix[i].1
    }
}

/// The index and the text of each pair of a list.
pub open spec fn column_views(v: Seq<(&str, usize)>) -> Seq<(Seq<char>, usize)> {
    Seq::new(v.len(), |i: int| (v[i].0@, v[i].1))
}

/// Whether one of `list` holds the text of `s`.
fn contains_text(list: &Vec<String>, s: &str) -> (r: bool)
    ensures
        r == views(list@).contains(s@),
{
    let mut i: usize = 0;
    while i < list.len()
        invariant
            i <= list.len(),
            forall|j: int| 0 <= j < i ==> #[trigger] views(list@)[j] != s@,
        decreases list.len() - i,
    {
        if str_eq(list[i].as_str(), s) {
            assert(views(list@)[i as int] == s@);
            return true;
        }
        i += 1;
    }
    false
}

/// The first of the first `limit` fields of a record that holds `name`.
fn position_in_record(record: &csv::StringRecord, name: &str, limit: usize) -> (r: Option<usize>)
    requires
        limit <= record_fields(record).len(),
    ensures
        match r {
            Some(i) => i < limit && record_fields(record)[i as int] == name@ && forall|j: int|
                0 <= j < i ==> #[trigger] record_fields(record)[j] != name@,
            None => forall|j: int| 0 <= j < limit ==> #[trigger] record_fields(record)[j] != name@,
        },
{
    let mut i: usize = 0;
    while i < limit
        invariant
            i <= limit <= record_fields(record).len(),
            forall|j: int| 0 <= j < i ==> #[trigger] record_fields(record)[j] != name@,
        decreases limit - i,
    {
        match record.get(i) {
            Some(field) => {
                if str_eq(field, name) {
                    return Some(i);
                }
            },
            None => {},
        }
        i += 1;
    }
    None
}

impl<Key: Default + Eq> AddressColumnSpec<Key> {
    /// What columns of the input would have the name of an output column?
    ///
    /// Returns the name and index of each such column of `header`, in the
    /// order of the header. Fails where two output columns would have the
    /// same name, with the first name that comes a second time.
    pub fn duplicate_columns<'header, G: Geocoder>(
        &self,
        geocoder: &G,
        header: &'header csv::StringRecord,
    ) -> (r: Result<Vec<(&'header str, usize)>, SpecError>)
        ensures
            ({
                let names = output_names(self.prefix_texts(), geocoder.column_name_texts());
                match first_repeat(names) {
                    Some(j) => r matches Err(SpecError::DuplicateOutputColumn(name)) && name@
                        == names[j],
                    None => r matches Ok(columns) && column_views(columns@) == colliding_columns(
                        record_fields(header),
                        names,
                    ),
                }
            }),
    {
        let prefixes = self.prefixes();
        let column_names = geocoder.column_names();
        let ghost prefix_texts = self.prefix_texts();
        let ghost column_texts = geocoder.column_name_texts();
        let ghost all = output_names(prefix_texts, column_texts);
        let mut names: Vec<String> = Vec::new();
        let mut p: usize = 0;
        assert(prefix_texts.take(0) =~= Seq::<Seq<char>>::empty());
        assert(views(names@) =~= output_names(prefix_texts.take(0), column_texts));
        while p < prefixes.len()
            invariant
                p <= prefixes.len(),
                str_views(prefixes@) == prefix_texts,
                views(column_names@) == column_texts,
                prefix_texts == self.prefix_texts(),
                column_texts == geocoder.column_name_texts(),
                all == output_names(prefix_texts, column_texts),
                views(names@) == output_names(prefix_texts.take(p as int), column_texts),
                first_repeat(views(names@)) is None,
            decreases prefixes.len() - p,
        {
            assert(prefix_texts[p as int] == prefixes@[p as int]@);
            let ghost done = views(names@);
            let mut c: usize = 0;
            assert(views(names@) =~= done + prefixed_names(
                prefix_texts[p as int],
                column_texts.take(0),
            ));
            while c < column_names.len()
                invariant
                    c <= column_names.len(),
                    p < prefixes.len(),
                    prefixes@.len() == prefix_texts.len(),
                    prefix_texts[p as int] == prefixes@[p as int]@,
                    views(column_names@) == column_texts,
                    prefix_texts == self.prefix_texts(),
                    column_texts == geocoder.column_name_texts(),
                    all == output_names(prefix_texts, column_texts),
                    done == output_names(prefix_texts.take(p as int), column_texts),
                    views(names@) == done + prefixed_names(
                        prefix_texts[p as int],
                        column_texts.take(c as int),
                    ),
                    first_repeat(views(names@)) is None,
                decreases column_names.len() - c,
            {
                let full_name = prefix_column_name(prefixes[p], column_names[c].as_str());
                let ghost so_far = views(names@);
                let ghost next = so_far.push(full_name@);
                proof {
                    assert(column_texts[c as int] == column_names@[c as int]@);
                    assert(next =~= done + prefixed_names(
                        prefix_texts[p as int],
                        column_texts.take(c + 1),
                    ));
                    lemma_output_names_prefix(prefix_texts, column_texts, p as int, c + 1);
                    assert(all.take(next.len() as int) == next);
                    assert(next.drop_last() =~= so_far);
                }
                if contains_text(&names, full_name.as_str()) {
                    proof {
                        assert(first_repeat(next) == Some(next.len() - 1));
                        lemma_first_repeat_extends(all, next.len() as int);
                        assert(all[next.len() - 1] == next[next.len() - 1]);
                    }
                    return Err(SpecError::DuplicateOutputColumn(full_name));
                }
                names.push(full_name);
                assert(views(names@) =~= next);
                c += 1;
            }
            proof {
                assert(column_texts.take(column_texts.len() as int) == column_texts);
                lemma_output_names_prefix(prefix_texts, column_texts, p as int, 0);
            }
            p += 1;
        }
        assert(prefix_texts.take(prefix_texts.len() as int) == prefix_texts);

        // Decide which columns of `header` collide with those names.
        let ghost fields = record_fields(header);
        let mut duplicate_columns: Vec<(&'header str, usize)> = Vec::new();
        let n = header.len();
        let mut i: usize = 0;
        while i < n
            invariant
                i <= n,
                n == fields.len(),
                fields == record_fields(header),
                views(names@) == all,
                column_views(duplicate_columns@) == colliding_columns(fields.take(i as int), all),
            decreases n - i,
        {
            let ghost before = column_views(duplicate_columns@);
            proof {
                assert(fields.take(i + 1).drop_last() =~= fields.take(i as int));
                assert(fields.take(i + 1).last() == fields[i as int]);
            }
            match header.get(i) {
                Some(col) => {
                    if contains_text(&names, col) {
                        duplicate_columns.push((col, i));
                        assert(column_views(duplicate_columns@) =~= before.push((col@, i)));
                    }
                },
                None => {},
            }
            i += 1;
        }
        assert(fields.take(n as int) == fields);
        Ok(duplicate_columns)
    }
}

/// The column names that an optional name stands for: one or none.
pub open spec fn optional_name(name: Option<String>) -> Seq<Seq<char>> {
    match name {
        Some(s) => seq![s@],
        None => Seq::empty(),
    }
}

/// Whether a column name is among those of a header.
pub open spec fn known_in(header: Seq<Seq<char>>) -> spec_fn(Seq<char>) -> bool {
    |name: Seq<char>| header.contains(name)
}

/// The first of `names` that `header` does not hold.
pub open spec fn first_unknown(names: Seq<Seq<char>>, header: Seq<Seq<char>>) -> Option<Seq<char>> {
    first_not(names, known_in(header))
}

/// Whether `indices` are, one for one, positions of `names` in `header`.
pub open spec fn names_at(header: Seq<Seq<char>>, indices: Seq<usize>, names: Seq<Seq<char>>) -> bool {
    &&& indices.len() == names.len()
    &&& forall|k: int|
        0 <= k < names.len() ==> (#[trigger] indices[k]) < header.len() && header[indices[k] as int]
            == names[k]
}

impl ColumnKeyOrKeys<String> {
    /// The column names, in order.
    pub open spec fn names(&self) -> Seq<Seq<char>> {
        match self {
            ColumnKeyOrKeys::Key(key) => seq![key@],
            ColumnKeyOrKeys::Keys(keys) => views(keys@),
        }
    }
}

impl AddressColumnKeys<String> {
    /// Every column name that an address is read from: those of the street,
    /// then city, state and zipcode where they are given.
    pub open spec fn names(&self) -> Seq<Seq<char>> {
        self.street.names() + optional_name(self.city) + optional_name(self.state) + optional_name(
            self.zipcode,
        )
    }

    /// Whether `indexed` names by index, in `header`, the columns that
    /// `self` names by name.
    pub open spec fn resolves_to(&self, indexed: AddressColumnKeys<usize>, header: Seq<Seq<char>>) -> bool {
        &&& self.street is Key <==> indexed.street is Key
        &&& names_at(header, indexed.street.indices(), self.street.names())
        &&& names_at(header, optional_key(indexed.city), optional_name(self.city))
        &&& names_at(header, optional_key(indexed.state), optional_name(self.state))
        &&& names_at(header, optional_key(indexed.zipcode), optional_name(self.zipcode))
    }
}

/// The column names of a list of keys, in order.
pub open spec fn all_names(keys: Seq<AddressColumnKeys<String>>) -> Seq<Seq<char>>
    decreases keys.len(),
{
    if keys.len() == 0 {
        Seq::empty()
    } else {
        keys.first().names() + all_names(keys.drop_first())
    }
}

/// The index of the column of `headers` that has the given name.
fn resolve_name(name: &String, headers: &csv::StringRecord) -> (r: Result<usize, SpecError>)
    ensures
        match first_unknown(seq![name@], record_fields(headers)) {
            Some(unknown) => r matches Err(SpecError::UnknownColumn(s)) && s@ == unknown,
            None => r matches Ok(i) && i < record_fields(headers).len() && record_fields(
                headers,
            )[i as int] == name@,
        },
{
    proof {
        lemma_first_not_single(name@, known_in(record_fields(headers)));
    }
    match position_in_record(headers, name.as_str(), headers.len()) {
        Some(i) => {
            assert(record_fields(headers).contains(name@));
            Ok(i)
        },
        None => Err(SpecError::UnknownColumn(name.clone())),
    }
}

/// The index of the column of `headers` that has the given name, if a name
/// is given.
fn resolve_optional(name: &Option<String>, headers: &csv::StringRecord) -> (r: Result<
    Option<usize>,
    SpecError,
>)
    ensures
        match first_unknown(optional_name(*name), record_fields(headers)) {
            Some(unknown) => r matches Err(SpecError::UnknownColumn(s)) && s@ == unknown,
            None => r matches Ok(i) && names_at(
                record_fields(headers),
                optional_key(i),
                optional_name(*name),
            ),
        },
{
    match name {
        Some(s) => match resolve_name(s, headers) {
            Ok(i) => Ok(Some(i)),
            Err(e) => Err(e),
        },
        None => Ok(None),
    }
}

/// The indices of the columns of `headers` that a street is read from.
fn resolve_street(street: &ColumnKeyOrKeys<String>, headers: &csv::StringRecord) -> (r: Result<
    ColumnKeyOrKeys<usize>,
    SpecError,
>)
    ensures
        match first_unknown(street.names(), record_fields(headers)) {
            Some(unknown) => r matches Err(SpecError::UnknownColumn(s)) && s@ == unknown,
            None => r matches Ok(indexed) && (*street is Key <==> indexed is Key) && names_at(
                record_fields(headers),
                indexed.indices(),
                street.names(),
            ),
        },
{
    let ghost header = record_fields(headers);
    match street {
        ColumnKeyOrKeys::Key(key) => match resolve_name(key, headers) {
            Ok(i) => Ok(ColumnKeyOrKeys::Key(i)),
            Err(e) => Err(e),
        },
        ColumnKeyOrKeys::Keys(keys) => {
            let mut indices: Vec<usize> = Vec::new();
            let mut k: usize = 0;
            while k < keys.len()
                invariant
                    k <= keys.len(),
                    header == record_fields(headers),
                    street.names() == views(keys@),
                    first_unknown(views(keys@).take(k as int), header) is None,
                    names_at(header, indices@, views(keys@).take(k as int)),
                decreases keys.len() - k,
            {
                let ghost done = views(keys@).take(k as int);
                let ghost before = indices@;
                proof {
                    let ok = known_in(header);
                    assert(views(keys@).take(k + 1) =~= done + seq![keys@[k as int]@]);
                    lemma_first_not_concat(done, seq![keys@[k as int]@], ok);
                    assert(views(keys@) =~= views(keys@).take(k + 1) + views(keys@).skip(k + 1));
                    lemma_first_not_concat(views(keys@).take(k + 1), views(keys@).skip(k + 1), ok);
                }
                match resolve_name(&keys[k], headers) {
                    Ok(i) => {
                        indices.push(i);
                    },
                    Err(e) => {
                        return Err(e);
                    },
                }
                proof {
                    let now = views(keys@).take(k + 1);
                    assert forall|j: int| 0 <= j < now.len() implies (#[trigger] indices@[j])
                        < header.len() && header[indices@[j] as int] == now[j] by {
                        if j < k {
                            assert(indices@[j] == before[j]);
                            assert(now[j] == done[j]);
                        }
                    }
                }
                k += 1;
            }
            assert(views(keys@).take(k as int) == views(keys@));
            Ok(ColumnKeyOrKeys::Keys(indices))
        },
    }
}

/// The keys by index that stand for keys by name, in a file with the given
/// header.
fn resolve_keys(keys: &AddressColumnKeys<String>, headers: &csv::StringRecord) -> (r: Result<
    AddressColumnKeys<usize>,
    SpecError,
>)
    ensures
        match first_unknown(keys.names(), record_fields(headers)) {
            Some(unknown) => r matches Err(SpecError::UnknownColumn(s)) && s@ == unknown,
            None => r matches Ok(indexed) && keys.resolves_to(indexed, record_fields(headers)),
        },
{
    proof {
        let ok = known_in(record_fields(headers));
        let a = keys.street.names();
        let b = optional_name(keys.city);
        let c = optional_name(keys.state);
        let d = optional_name(keys.zipcode);
        lemma_first_not_concat(a + b + c, d, ok);
        lemma_first_not_concat(a + b, c, ok);
        lemma_first_not_concat(a, b, ok);
    }
    let street = match resolve_street(&keys.street, headers) {
        Ok(street) => street,
        Err(e) => {
            return Err(e);
        },
    };
    let city = match resolve_optional(&keys.city, headers) {
        Ok(city) => city,
        Err(e) => {
            return Err(e);
        },
    };
    let state = match resolve_optional(&keys.state, headers) {
        Ok(state) => state,
        Err(e) => {
            return Err(e);
        },
    };
    let zipcode = match resolve_optional(&keys.zipcode, headers) {
        Ok(zipcode) => zipcode,
        Err(e) => {
            return Err(e);
        },
    };
    Ok(AddressColumnKeys { street, city, state, zipcode })
}

impl AddressColumnSpec<String> {
    /// Given the header row of a CSV file, convert this specification by
    /// column name into one by column index.
    ///
    /// Fails where the header holds a name twice, with the first name that
    /// comes a second time; and else where the specification names a column
    /// that the header does not hold, with the first such name: prefixes
    /// in their order and, within one, street, city, state, zipcode.
    pub fn convert_to_indices_using_headers(&self, headers: &csv::StringRecord) -> (r: Result<
        AddressColumnSpec<usize>,
        SpecError,
    >)
        ensures
            ({
                let header = record_fields(headers);
                match first_repeat(header) {
                    Some(j) => r matches Err(SpecError::DuplicateHeader(s)) && s@ == header[j],
                    None => match first_unknown(all_names(self.keys()), header) {
                        Some(unknown) => r matches Err(SpecError::UnknownColumn(s)) && s@
                            == unknown,
                        None => r matches Ok(indexed) && indexed.wf() && indexed.prefix_texts()
                            == self.prefix_texts() && forall|i: int|
                            0 <= i < self.keys().len() ==> (#[trigger] self.keys()[i]).resolves_to(
                                indexed.keys()[i],
                                header,
                            ),
                    },
                }
            }),
    {
        proof {
            use_type_invariant(self);
        }
        let ghost header = record_fields(headers);
        let n = headers.len();
        let mut j: usize = 0;
        assert(header.take(0) =~= Seq::<Seq<char>>::empty());
        while j < n
            invariant
                j <= n,
                n == header.len(),
                header == record_fields(headers),
                first_repeat(header.take(j as int)) is None,
            decreases n - j,
        {
            proof {
                assert(header.take(j + 1).drop_last() =~= header.take(j as int));
                assert(header.take(j + 1).last() == header[j as int]);
            }
            match headers.get(j) {
                Some(name) => {
                    match position_in_record(headers, name, j) {
                        Some(i) => {
                            proof {
                                assert(header.take(j as int)[i as int] == header[j as int]);
                                assert(first_repeat(header.take(j + 1)) == Some(j as int));
                                lemma_first_repeat_extends(header, j + 1);
                            }
                            return Err(SpecError::DuplicateHeader(name.to_owned()));
                        },
                        None => {
                            assert(!header.take(j as int).contains(header[j as int]));
                        },
                    }
                },
                None => {},
            }
            j += 1;
        }
        assert(header.take(n as int) == header);

        let ghost keys = self.keys();
        let mut entries: Vec<(String, AddressColumnKeys<usize>)> = Vec::new();
        let mut i: usize = 0;
        assert(keys.skip(0) == keys);
        while i < self.address_columns_by_prefix.len()
            invariant
                i <= self.address_columns_by_prefix.len(),
                header == record_fields(headers),
                keys == self.keys(),
                first_repeat(header) is None,
                first_unknown(all_names(keys), header) == first_unknown(
                    all_names(keys.skip(i as int)),
                    header,
                ),
                entries@.len() == i,
                forall|k: int|
                    0 <= k < i ==> (#[trigger] entries@[k]).0@ == self.entries()[k].0@
                        && self.entries()[k].1.resolves_to(entries@[k].1, header),
            decreases self.address_columns_by_prefix.len() - i,
        {
            proof {
                assert(keys.skip(i as int).drop_first() =~= keys.skip(i + 1));
                assert(keys.skip(i as int).first() == self.entries()[i as int].1);
                lemma_first_not_concat(
                    keys[i as int].names(),
                    all_names(keys.skip(i + 1)),
                    known_in(header),
                );
            }
            let entry = &self.address_columns_by_prefix[i];
            match resolve_keys(&entry.1, headers) {
                Ok(indexed) => {
                    entries.push((entry.0.clone(), indexed));
                },
                Err(e) => {
                    return Err(e);
                },
            }
            i += 1;
        }
        proof {
            assert(keys.skip(keys.len() as int) =~= Seq::<AddressColumnKeys<String>>::empty());
            let now = Seq::new(entries@.len(), |k: int| entries@[k].0@);
            assert(now =~= self.prefix_texts());
        }
        let indexed = AddressColumnSpec { address_columns_by_prefix: entries };
        proof {
            assert(indexed.prefix_texts() =~= self.prefix_texts());
            assert forall|i: int| 0 <= i < self.keys().len() implies (#[trigger] self.keys()[i]).resolves_to(
                indexed.keys()[i],
                header,
            ) by {
                assert(indexed.entries()[i] == entries@[i]);
            }
        }
        Ok(indexed)
    }
}

} // verus!
