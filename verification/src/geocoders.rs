//! Geocoding backends: what every geocoder says of itself, and what a
//! geocoded address is.

use sha2::Digest;
use sha2::Sha256;
use vstd::prelude::*;
use vstd::utf8::encode_utf8;

use crate::addresses::prefix_column_name;
use crate::addresses::prefixed_names;
use crate::record::record_fields;
use crate::text::push_char;
use crate::text::str_eq;
use crate::text::views;

pub mod cache;
pub mod invalid_record_skipper;
pub mod libpostal;
pub mod normalizer;
pub mod paired;
pub mod smarty;

verus! {

/// What match candidates should be output when geocoding?
#[derive(Clone, Copy, Debug, PartialEq, Eq, Structural)]
pub enum MatchStrategy {
    /// Only match valid postal addresses.
    Strict,
    /// Match addresses that are within the known range on a street, but
    /// which are not valid postal addresses.
    Range,
    /// Return a candidate for every address.
    Invalid,
    /// Use "enhanced" matching, which some backends treat as an error.
    Enhanced,
}

impl Default for MatchStrategy {
    fn default() -> (strategy: MatchStrategy)
        ensures
            strategy == MatchStrategy::Strict,
    {
        MatchStrategy::Strict
    }
}

impl MatchStrategy {
    /// The name of a strategy, as it is written on the command line and
    /// sent to a backend.
    pub open spec fn name(self) -> Seq<char> {
        match self {
            MatchStrategy::Strict => "strict"@,
            MatchStrategy::Range => "range"@,
            MatchStrategy::Invalid => "invalid"@,
            MatchStrategy::Enhanced => "enhanced"@,
        }
    }

    /// The strategy that a name stands for, if it is the name of one.
    pub open spec fn named(name: Seq<char>) -> Option<MatchStrategy> {
        if name == "strict"@ {
            Some(MatchStrategy::Strict)
        } else if name == "range"@ {
            Some(MatchStrategy::Range)
        } else if name == "invalid"@ {
            Some(MatchStrategy::Invalid)
        } else if name == "enhanced"@ {
            Some(MatchStrategy::Enhanced)
        } else {
            None
        }
    }

    /// The name of this strategy.
    pub fn as_str(&self) -> (name: &'static str)
        ensures
            name@ == self.name(),
    {
        match self {
            MatchStrategy::Strict => "strict",
            MatchStrategy::Range => "range",
            MatchStrategy::Invalid => "invalid",
            MatchStrategy::Enhanced => "enhanced",
        }
    }

    /// The strategy with the given name; the name itself is handed back
    /// where it is the name of none.
    pub fn parse(s: &str) -> (r: Result<MatchStrategy, String>)
        ensures
            match MatchStrategy::named(s@) {
                Some(strategy) => r == Ok::<MatchStrategy, String>(strategy),
                None => r is Err && r->Err_0@ == s@,
            },
    {
        if str_eq(s, "strict") {
            Ok(MatchStrategy::Strict)
        } else if str_eq(s, "range") {
            Ok(MatchStrategy::Range)
        } else if str_eq(s, "invalid") {
            Ok(MatchStrategy::Invalid)
        } else if str_eq(s, "enhanced") {
            Ok(MatchStrategy::Enhanced)
        } else {
            Err(s.to_owned())
        }
    }
}

/// A geocoded address: a list of values, in the order of the column names
/// of the geocoder that produced it.
#[derive(Debug, PartialEq, Eq)]
pub struct Geocoded {
    /// Column values, in the order of the geocoder's column names.
    pub column_values: Vec<String>,
}

impl View for Geocoded {
    type V = Seq<Seq<char>>;

    open spec fn view(&self) -> Seq<Seq<char>> {
        views(self.column_values@)
    }
}

/// The values of an optional geocoded address.
pub open spec fn optional_values(g: Option<Geocoded>) -> Option<Seq<Seq<char>>> {
    match g {
        Some(g) => Some(g@),
        None => None,
    }
}

/// The values of each of a list of geocoding results, in order.
pub open spec fn result_values(results: Seq<Option<Geocoded>>) -> Seq<Option<Seq<Seq<char>>>> {
    Seq::new(results.len(), |i: int| optional_values(results[i]))
}

/// Whether one of the values holds a NUL character.
pub open spec fn has_nul(values: Seq<Seq<char>>) -> bool {
    exists|i: int, j: int|
        0 <= i < values.len() && 0 <= j < values[i].len() && #[trigger] values[i][j] == '\0'
}

/// `n` empty values.
pub open spec fn empty_values(n: nat) -> Seq<Seq<char>> {
    Seq::new(n, |i: int| Seq::<char>::empty())
}

/// A copy of a list of strings.
pub fn clone_strings(v: &[String]) -> (r: Vec<String>)
    ensures
        views(r@) == views(v@),
{
    let mut r: Vec<String> = Vec::new();
    let mut i: usize = 0;
    while i < v.len()
        invariant
            i <= v.len(),
            r@.len() == i,
            forall|j: int| 0 <= j < i ==> (#[trigger] r@[j])@ == v@[j]@,
        decreases v.len() - i,
    {
        r.push(v[i].clone());
        i += 1;
    }
    assert(views(r@) =~= views(v@));
    r
}

/// Whether a string holds a NUL character.
fn str_has_nul(s: &str) -> (r: bool)
    ensures
        r == exists|j: int| 0 <= j < s@.len() && #[trigger] s@[j] == '\0',
{
    let chars = crate::text::chars_of(s);
    let mut j: usize = 0;
    while j < chars.len()
        invariant
            j <= chars.len(),
            chars@ == s@,
            forall|k: int| 0 <= k < j ==> #[trigger] s@[k] != '\0',
        decreases chars.len() - j,
    {
        if chars[j] == '\0' {
            return true;
        }
        j += 1;
    }
    false
}

impl Clone for Geocoded {
    fn clone(&self) -> (r: Geocoded)
        ensures
            r@ == self@,
    {
        Geocoded { column_values: clone_strings(self.column_values.as_slice()) }
    }
}

impl Geocoded {
    /// Whether one of the column values holds a NUL character, as values
    /// written by a faulty earlier version may.
    pub fn contains_null_bytes(&self) -> (r: bool)
        ensures
            r == has_nul(self@),
    {
        let mut i: usize = 0;
        while i < self.column_values.len()
            invariant
                i <= self.column_values.len(),
                forall|a: int, b: int|
                    0 <= a < i && 0 <= b < self@[a].len() ==> #[trigger] self@[a][b] != '\0',
            decreases self.column_values.len() - i,
        {
            if str_has_nul(self.column_values[i].as_str()) {
                let ghost j = choose|j: int|
                    0 <= j < self.column_values@[i as int]@.len()
                        && #[trigger] self.column_values@[i as int]@[j] == '\0';
                assert(self@[i as int][j] == '\0');
                return true;
            }
            assert(forall|b: int|
                0 <= b < self@[i as int].len() ==> #[trigger] self@[i as int][b] != '\0');
            i += 1;
        }
        false
    }

    /// The values of `self` followed by those of `other`.
    pub fn concat(&self, other: &Geocoded) -> (r: Geocoded)
        ensures
            r@ == self@ + other@,
    {
        let mut values = clone_strings(self.column_values.as_slice());
        let ghost first = values@;
        let mut i: usize = 0;
        while i < other.column_values.len()
            invariant
                i <= other.column_values.len(),
                views(first) == self@,
                values@.len() == first.len() + i,
                forall|j: int| 0 <= j < first.len() ==> #[trigger] values@[j] == first[j],
                forall|j: int| 0 <= j < i ==> (#[trigger] values@[first.len() + j])@ == other@[j],
            decreases other.column_values.len() - i,
        {
            values.push(other.column_values[i].clone());
            i += 1;
        }
        assert(views(values@) =~= self@ + other@) by {
            assert forall|k: int| 0 <= k < values@.len() implies views(values@)[k] == (self@
                + other@)[k] by {
                if k < first.len() {
                    assert(values@[k] == first[k]);
                    assert(views(first)[k] == self@[k]);
                } else {
                    assert(values@[first.len() + (k - first.len())]@ == other@[k - first.len()]);
                }
            }
        }
        Geocoded { column_values: values }
    }
}

/// The SHA-256 digest of a byte string.
pub uninterp spec fn sha256(data: Seq<u8>) -> Seq<u8>;

/// Computes a SHA-256 digest with the `sha2` crate (`Sha256::digest`). It is
/// assumed that the result is the digest of the bytes given, and that a
/// digest has 32 bytes.
#[verifier::external_body]
fn sha256_digest(data: &Vec<u8>) -> (digest: Vec<u8>)
    ensures
        digest@ == sha256(data@),
        digest@.len() == 32,
{
    Sha256::digest(data).to_vec()
}

/// The lower-case hexadecimal digit for a number below 16.
pub open spec fn hex_digit(n: int) -> char {
    if n < 10 {
        (48 + n) as char
    } else {
        (87 + n) as char
    }
}

/// The two lower-case hexadecimal digits of a byte.
pub open spec fn hex_byte(b: u8) -> Seq<char> {
    seq![hex_digit(b as int / 16), hex_digit(b as int % 16)]
}

/// What is hashed to tell two geocoder configurations apart: each column
/// name followed by a zero byte, then the configuration key.
pub open spec fn fingerprint_input(column_names: Seq<Seq<char>>, configuration_key: Seq<char>) -> Seq<u8>
    decreases column_names.len(),
{
    if column_names.len() == 0 {
        encode_utf8(configuration_key)
    } else {
        encode_utf8(column_names.first()) + seq![0u8] + fingerprint_input(
            column_names.drop_first(),
            configuration_key,
        )
    }
}

/// A tag, a colon, and in hexadecimal the first two bytes of a digest.
pub open spec fn tagged_digest(tag: Seq<char>, digest: Seq<u8>) -> Seq<char> {
    tag + seq![':'] + hex_byte(digest[0]) + hex_byte(digest[1])
}

/// The cache prefix of a geocoder: its tag, a colon, and in hexadecimal the
/// first two bytes of the SHA-256 digest of its column names and
/// configuration key.
pub open spec fn cache_prefix_text(
    tag: Seq<char>,
    column_names: Seq<Seq<char>>,
    configuration_key: Seq<char>,
) -> Seq<char> {
    tagged_digest(tag, sha256(fingerprint_input(column_names, configuration_key)))
}

fn hex_digit_of(n: u8) -> (c: char)
    requires
        n < 16,
    ensures
        c == hex_digit(n as int),
{
    if n < 10 {
        (48u8 + n) as char
    } else {
        (87u8 + n) as char
    }
}

fn push_hex_byte(out: &mut String, b: u8)
    ensures
        final(out)@ == old(out)@ + hex_byte(b),
{
    push_char(out, hex_digit_of(b / 16));
    push_char(out, hex_digit_of(b % 16));
    assert(out@ =~= old(out)@ + hex_byte(b));
}

/// Fingerprint inputs of a list of names are those of the names from any
/// point on, behind the encodings of the names before it.
proof fn lemma_fingerprint_step(names: Seq<Seq<char>>, key: Seq<char>, i: int)
    requires
        0 <= i < names.len(),
    ensures
        fingerprint_input(names.skip(i), key) == encode_utf8(names[i]) + seq![0u8]
            + fingerprint_input(names.skip(i + 1), key),
{
    assert(names.skip(i).drop_first() =~= names.skip(i + 1));
}

/// The bytes that are hashed to tell two geocoder configurations apart:
/// each column name followed by a zero byte, then the configuration key.
pub fn fingerprint(column_names: &[String], configuration_key: &str) -> (input: Vec<u8>)
    ensures
        input@ == fingerprint_input(views(column_names@), configuration_key@),
{
    let ghost names = views(column_names@);
    let mut input: Vec<u8> = Vec::new();
    let mut i: usize = 0;
    assert(names.skip(0) == names);
    while i < column_names.len()
        invariant
            i <= column_names.len(),
            names == views(column_names@),
            input@ + fingerprint_input(names.skip(i as int), configuration_key@)
                == fingerprint_input(names, configuration_key@),
        decreases column_names.len() - i,
    {
        proof {
            lemma_fingerprint_step(names, configuration_key@, i as int);
        }
        let ghost before = input@;
        input.extend_from_slice(column_names[i].as_str().as_bytes());
        input.push(0u8);
        assert(input@ =~= before + encode_utf8(column_names@[i as int]@) + seq![0u8]);
        i += 1;
    }
    let ghost before = input@;
    input.extend_from_slice(configuration_key.as_bytes());
    assert(input@ =~= before + encode_utf8(configuration_key@));
    assert(names.skip(names.len() as int) =~= Seq::<Seq<char>>::empty());
    input
}

/// The cache prefix that a tag and the digest of a fingerprint give.
pub fn cache_prefix_from_digest(tag: &str, digest: &[u8]) -> (prefix: String)
    requires
        digest@.len() >= 2,
    ensures
        prefix@ == tagged_digest(tag@, digest@),
{
    let mut prefix = String::new();
    prefix.append(tag);
    push_char(&mut prefix, ':');
    push_hex_byte(&mut prefix, digest[0]);
    push_hex_byte(&mut prefix, digest[1]);
    assert(prefix@ =~= tagged_digest(tag@, digest@));
    prefix
}

/// Abstract geocoding interface: what a geocoder says of itself, and what
/// follows from that for cache keys and output columns. The answers of a
/// geocoder do not change while it lives.
pub trait Geocoder {
    /// The tag of this geocoder.
    spec fn tag_text(&self) -> Seq<char>;

    /// The configuration key of this geocoder.
    spec fn configuration_key_text(&self) -> Seq<char>;

    /// The names of the columns that this geocoder outputs.
    spec fn column_name_texts(&self) -> Seq<Seq<char>>;

    /// A short name for this geocoder, such as `sm` or `lp`. It is used to
    /// build cache keys.
    fn tag(&self) -> (tag: &str)
        ensures
            tag@ == self.tag_text(),
    ;

    /// The saved configuration, which may be used as part of a cache key:
    /// identical for any two geocoders configured the same way.
    fn configuration_key(&self) -> (key: &str)
        ensures
            key@ == self.configuration_key_text(),
    ;

    /// The column names output by this geocoder.
    fn column_names(&self) -> (names: &[String])
        ensures
            views(names@) == self.column_name_texts(),
    ;

    /// The full cache prefix to use for this geocoder.
    fn cache_prefix(&self) -> (prefix: String)
        ensures
            prefix@ == cache_prefix_text(
                self.tag_text(),
                self.column_name_texts(),
                self.configuration_key_text(),
            ),
    {
        let input = fingerprint(self.column_names(), self.configuration_key());
        let digest = sha256_digest(&input);
        cache_prefix_from_digest(self.tag(), digest.as_slice())
    }

    /// Update a CSV record with the column names, each behind `prefix`.
    fn add_header_columns(&self, prefix: &str, out_headers: &mut csv::StringRecord)
        ensures
            record_fields(final(out_headers)) == record_fields(old(out_headers)) + prefixed_names(
                prefix@,
                self.column_name_texts(),
            ),
    {
        let names = self.column_names();
        let ghost before = record_fields(out_headers);
        let mut i: usize = 0;
        while i < names.len()
            invariant
                i <= names.len(),
                record_fields(out_headers) == before + prefixed_names(
                    prefix@,
                    views(names@).take(i as int),
                ),
            decreases names.len() - i,
        {
            let name = prefix_column_name(prefix, names[i].as_str());
            out_headers.push_field(name.as_str());
            i += 1;
            assert(record_fields(out_headers) =~= before + prefixed_names(
                prefix@,
                views(names@).take(i as int),
            ));
        }
        assert(views(names@).take(names@.len() as int) == views(names@));
    }

    /// Copy the values from `geocoded` into `out_row`.
    fn add_value_columns_to_row(&self, geocoded: &Geocoded, out_row: &mut csv::StringRecord)
        ensures
            record_fields(final(out_row)) == record_fields(old(out_row)) + geocoded@,
    {
        let ghost before = record_fields(out_row);
        let mut i: usize = 0;
        while i < geocoded.column_values.len()
            invariant
                i <= geocoded.column_values.len(),
                record_fields(out_row) == before + geocoded@.take(i as int),
            decreases geocoded.column_values.len() - i,
        {
            out_row.push_field(geocoded.column_values[i].as_str());
            i += 1;
            assert(record_fields(out_row) =~= before + geocoded@.take(i as int));
        }
        assert(geocoded@.take(geocoded@.len() as int) == geocoded@);
    }

    /// Copy empty values into `out_row`, one for each column that this
    /// geocoder would produce.
    fn add_empty_columns_to_row(&self, out_row: &mut csv::StringRecord)
        ensures
            record_fields(final(out_row)) == record_fields(old(out_row)) + empty_values(
                self.column_name_texts().len(),
            ),
    {
        let n = self.column_names().len();
        let ghost before = record_fields(out_row);
        let mut i: usize = 0;
        proof {
            reveal_strlit("");
        }
        while i < n
            invariant
                i <= n,
                ""@ == Seq::<char>::empty(),
                record_fields(out_row) == before + empty_values(i as nat),
            decreases n - i,
        {
            out_row.push_field("");
            i += 1;
            assert(record_fields(out_row) =~= before + empty_values(i as nat));
        }
    }
}

/// A geocoder that is known by what it says of itself: one that lives
/// outside the library, or stands behind a connection.
#[derive(Debug, PartialEq, Eq)]
pub struct GeocoderInfo {
    tag: String,
    configuration_key: String,
    column_names: Vec<String>,
}

impl GeocoderInfo {
    /// The geocoder with the given tag, configuration key and column names.
    pub fn new(tag: String, configuration_key: String, column_names: Vec<String>) -> (info:
        GeocoderInfo)
        ensures
            info.tag_text() == tag@,
            info.configuration_key_text() == configuration_key@,
            info.column_name_texts() == views(column_names@),
    {
        GeocoderInfo { tag, configuration_key, column_names }
    }

    /// What the geocoder `geocoder` says of itself.
    pub fn of<G: Geocoder>(geocoder: &G) -> (info: GeocoderInfo)
        ensures
            info.tag_text() == geocoder.tag_text(),
            info.configuration_key_text() == geocoder.configuration_key_text(),
            info.column_name_texts() == geocoder.column_name_texts(),
    {
        GeocoderInfo {
            tag: geocoder.tag().to_owned(),
            configuration_key: geocoder.configuration_key().to_owned(),
            column_names: clone_strings(geocoder.column_names()),
        }
    }
}

impl Geocoder for GeocoderInfo {
    closed spec fn tag_text(&self) -> Seq<char> {
        self.tag@
    }

    closed spec fn configuration_key_text(&self) -> Seq<char> {
        self.configuration_key@
    }

    closed spec fn column_name_texts(&self) -> Seq<Seq<char>> {
        views(self.column_names@)
    }

    fn tag(&self) -> (tag: &str) {
        self.tag.as_str()
    }

    fn configuration_key(&self) -> (key: &str) {
        self.configuration_key.as_str()
    }

    fn column_names(&self) -> (names: &[String]) {
        self.column_names.as_slice()
    }
}

} // verus!
