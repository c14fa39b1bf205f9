//! A caching layer in front of another geocoder: what is looked up, how a
//! cached value is read, and what is written back. The layer does no I/O of
//! its own: each step says what its caller is to fetch, geocode or store,
//! and takes what came of it.

use vstd::prelude::*;

use crate::addresses::address_texts;
use crate::addresses::or_empty;
use crate::addresses::Address;
use crate::addresses::AddressText;
use crate::geocoders::cache::compression::compressed;
use crate::geocoders::cache::compression::decompressed;
use crate::geocoders::cache::compression::CacheCompressor;
use crate::geocoders::cache_prefix_text;
use crate::geocoders::clone_strings;
use crate::geocoders::has_nul;
use crate::geocoders::result_values;
use crate::geocoders::Geocoded;
use crate::geocoders::Geocoder;
use crate::sequences::at_positions;
use crate::sequences::first_not;
use crate::sequences::lemma_merged;
use crate::sequences::lemma_merged_step;
use crate::sequences::lemma_positions_step;
use crate::sequences::merged;
use crate::sequences::positions;
use crate::sequences::lemma_first_not;
use crate::sequences::lemma_first_not_concat;
use crate::sequences::lemma_first_not_single;
use crate::text::lowercased;
use crate::text::push_char;
use crate::text::push_lowercased;
use crate::text::views;

pub mod compression;

verus! {

/// The error type of bincode's encoders, opaque here.
#[verifier::external_type_specification]
#[verifier::external_body]
pub struct ExEncodeError(bincode::error::EncodeError);

/// The bincode error for bytes that cannot be decoded, opaque here.
#[verifier::external_type_specification]
#[verifier::external_body]
pub struct ExDecodeError(bincode::error::DecodeError);

/// The bytes that bincode writes for a cached value: the column values of
/// a geocoded address, or nothing for an address known to have no match.
pub uninterp spec fn encoded_payload(value: Option<Seq<Seq<char>>>) -> Seq<u8>;

/// The cached value that bincode reads from the given bytes, if it reads
/// one.
pub uninterp spec fn decoded_payload(bytes: Seq<u8>) -> Option<Option<Seq<Seq<char>>>>;

/// The texts of an optional list of strings.
pub open spec fn optional_views(value: Option<Vec<String>>) -> Option<Seq<Seq<char>>> {
    match value {
        Some(v) => Some(views(v@)),
        None => None,
    }
}

/// The texts of an optional reference to a list of strings.
pub open spec fn optional_ref_views(value: Option<&Vec<String>>) -> Option<Seq<Seq<char>>> {
    match value {
        Some(v) => Some(views(v@)),
        None => None,
    }
}

/// Serializes a value for the cache with `bincode::encode_into_std_write`,
/// in bincode's standard configuration (little-endian, variable-length
/// integers). It is assumed that the call succeeds on every value, and that
/// what it writes depends on the value alone: bincode's encoders of an
/// option, a list and a string fail only where the writer does, and a
/// vector of bytes takes whatever is written to it.
#[verifier::external_body]
fn encode_payload(value: Option<&Vec<String>>) -> (r: Result<Vec<u8>, bincode::error::EncodeError>)
    ensures
        r is Ok,
        r matches Ok(bytes) ==> bytes@ == encoded_payload(optional_ref_views(value)),
{
    let config = bincode::config::standard().with_little_endian().with_variable_int_encoding();
    let mut encoded = Vec::new();
    bincode::encode_into_std_write(value, &mut encoded, config).map(|_| encoded)
}

/// The most bytes that a cached value may claim when it is read: 16 MiB.
/// Bytes that claim more are not read as a value, whatever they hold.
pub const CACHED_VALUE_LIMIT: usize = 16777216;

/// Reads a cached value with `bincode::serde::decode_from_slice`, in the
/// configuration that the values were written in and with
/// `CACHED_VALUE_LIMIT` as the limit on what one value may claim. It is
/// assumed that whether the call succeeds, and what it returns, depends on
/// the bytes alone.
#[verifier::external_body]
fn decode_payload(bytes: &[u8]) -> (r: Result<Option<Vec<String>>, bincode::error::DecodeError>)
    ensures
        match decoded_payload(bytes@) {
            Some(value) => r matches Ok(v) && optional_views(v) == value,
            None => r is Err,
        },
{
    let config = bincode::config::standard().with_little_endian().with_variable_int_encoding();
    let limited = config.with_limit::<CACHED_VALUE_LIMIT>();
    bincode::serde::decode_from_slice(bytes, limited).map(|(value, _)| value)
}

/// What can be wrong with cached data, or with what the inner geocoder
/// returned for the addresses not found in the cache.
#[derive(Clone, Copy, Debug, PartialEq, Eq, Structural)]
pub enum CacheError {
    /// A cached value has no bytes at all.
    EmptyValue,
    /// A cached value begins with the id of an unknown compression format.
    UnknownCompression(u8),
    /// The data of a cached value could not be deserialized.
    Undecodable,
    /// A cached value has another number of column values than the geocoder
    /// has columns.
    WrongNumberOfValues { found: usize, expected: usize },
    /// The key/value store, or the inner geocoder, returned another number
    /// of results than it was asked for.
    WrongNumberOfResults { found: usize, expected: usize },
}

/// `s` with a backslash before each backslash and each colon.
pub open spec fn escaped(s: Seq<char>) -> Seq<char>
    decreases s.len(),
{
    if s.len() == 0 {
        s
    } else if s.last() == '\\' || s.last() == ':' {
        escaped(s.drop_last()).push('\\').push(s.last())
    } else {
        escaped(s.drop_last()).push(s.last())
    }
}

/// The cache key of an address under a cache prefix, before it is put in
/// lower case.
pub open spec fn raw_cache_key(cache_prefix: Seq<char>, addr: AddressText) -> Seq<char> {
    "gcsv:"@ + cache_prefix + seq![':'] + escaped(or_empty(addr.state)) + seq![':'] + escaped(
        or_empty(addr.city),
    ) + seq![':'] + escaped(or_empty(addr.zipcode)) + seq![':'] + escaped(addr.street)
}

/// The cache key of an address: `gcsv:{prefix}:{state}:{city}:{zipcode}:{street}`
/// with each part of the address escaped, all in ASCII lower case.
pub open spec fn cache_key_text(cache_prefix: Seq<char>, addr: AddressText) -> Seq<char> {
    lowercased(raw_cache_key(cache_prefix, addr))
}

/// The cache keys of a list of addresses, in order.
pub open spec fn cache_key_texts(cache_prefix: Seq<char>, addrs: Seq<AddressText>) -> Seq<Seq<char>> {
    Seq::new(addrs.len(), |i: int| cache_key_text(cache_prefix, addrs[i]))
}

/// Equal prefixes and equal addresses have equal cache keys: a key depends
/// on nothing else.
pub proof fn lemma_cache_key_is_stable(
    prefix_a: Seq<char>,
    addr_a: AddressText,
    prefix_b: Seq<char>,
    addr_b: AddressText,
)
    requires
        prefix_a == prefix_b,
        addr_a == addr_b,
    ensures
        cache_key_text(prefix_a, addr_a) == cache_key_text(prefix_b, addr_b),
{
}

/// Escape colons and backslashes in a string.
pub fn escape_colons(s: &str) -> (r: String)
    ensures
        r@ == escaped(s@),
{
    let mut out = String::new();
    for c in it: s.chars()
        invariant
            it.seq() == s@,
            out@ == escaped(s@.take(it.index() as int)),
    {
        assert(s@.take(it.index() + 1).drop_last() == s@.take(it.index() as int));
        if c == '\\' || c == ':' {
            push_char(&mut out, '\\');
        }
        push_char(&mut out, c);
    }
    assert(s@.take(s@.len() as int) == s@);
    out
}

/// Given an address, build its cache key.
///
/// The key is put in lower case, which gives a small amount of
/// normalization and lets addresses that differ only in case share an entry.
pub fn cache_key(cache_prefix: &str, addr: &Address) -> (key: String)
    ensures
        key@ == cache_key_text(cache_prefix@, addr@),
{
    let mut raw = String::new();
    proof {
        reveal_strlit("gcsv:");
    }
    raw.append("gcsv:");
    raw.append(cache_prefix);
    push_char(&mut raw, ':');
    let state = escape_colons(addr.state_str());
    raw.append(state.as_str());
    push_char(&mut raw, ':');
    let city = escape_colons(addr.city_str());
    raw.append(city.as_str());
    push_char(&mut raw, ':');
    let zipcode = escape_colons(addr.zipcode_str());
    raw.append(zipcode.as_str());
    push_char(&mut raw, ':');
    let street = escape_colons(addr.street.as_str());
    raw.append(street.as_str());
    assert(raw@ =~= raw_cache_key(cache_prefix@, addr@));
    let mut key = String::new();
    push_lowercased(&mut key, raw.as_str());
    assert(key@ =~= cache_key_text(cache_prefix@, addr@));
    key
}

/// How a cached entry reads, where it can be read.
pub enum Cached {
    /// The store has no value under the key.
    Missing,
    /// The value holds a NUL character, as a faulty earlier version wrote:
    /// it counts as missing.
    Stale,
    /// The address is known to have no match.
    Negative,
    /// The column values of the geocoded address.
    Found(Seq<Seq<char>>),
}

/// How a decoded value reads for a geocoder with `columns` columns.
pub open spec fn judge_value(columns: nat, value: Option<Seq<Seq<char>>>) -> Result<
    Cached,
    CacheError,
> {
    match value {
        None => Ok(Cached::Negative),
        Some(values) => if values.len() != columns {
            Err(
                CacheError::WrongNumberOfValues {
                    found: values.len() as usize,
                    expected: columns as usize,
                },
            )
        } else if has_nul(values) {
            Ok(Cached::Stale)
        } else {
            Ok(Cached::Found(values))
        },
    }
}

/// How the answer of the store for one key reads: the first byte names the
/// compression, the rest is the compressed serialized value.
pub open spec fn judge_entry(columns: nat, entry: Option<Seq<u8>>) -> Result<Cached, CacheError> {
    match entry {
        None => Ok(Cached::Missing),
        Some(bytes) => if bytes.len() == 0 {
            Err(CacheError::EmptyValue)
        } else if bytes[0] != CacheCompressor::id_byte() {
            Err(CacheError::UnknownCompression(bytes[0]))
        } else {
            match decoded_payload(decompressed(bytes.skip(1))) {
                None => Err(CacheError::Undecodable),
                Some(value) => judge_value(columns, value),
            }
        },
    }
}

/// What the cache hands out as found has a value for each column of the
/// inner geocoder, and no NUL character in any of them.
pub proof fn lemma_found_values_fit_the_columns(columns: nat, entry: Option<Seq<u8>>)
    ensures
        judge_entry(columns, entry) matches Ok(Cached::Found(values)) ==> values.len() == columns
            && !has_nul(values),
{
}

/// The bytes of one answer of the store.
pub open spec fn optional_bytes(entry: Option<Vec<u8>>) -> Option<Seq<u8>> {
    match entry {
        Some(bytes) => Some(bytes@),
        None => None,
    }
}

/// The bytes of each answer of the store.
pub open spec fn entry_bytes(cached: Seq<Option<Vec<u8>>>) -> Seq<Option<Seq<u8>>> {
    Seq::new(cached.len(), |i: int| optional_bytes(cached[i]))
}

/// How each answer of the store reads.
pub open spec fn judged(columns: nat, entries: Seq<Option<Seq<u8>>>) -> Seq<
    Result<Cached, CacheError>,
> {
    Seq::new(entries.len(), |i: int| judge_entry(columns, entries[i]))
}

/// Whether an entry could be read.
pub open spec fn readable() -> spec_fn(Result<Cached, CacheError>) -> bool {
    |r: Result<Cached, CacheError>| r is Ok
}

/// Whether an entry has to be geocoded anew.
pub open spec fn is_miss(r: Result<Cached, CacheError>) -> bool {
    r == Ok::<Cached, CacheError>(Cached::Missing) || r == Ok::<Cached, CacheError>(Cached::Stale)
}

/// The entries that have to be geocoded anew.
pub open spec fn missed() -> spec_fn(Result<Cached, CacheError>) -> bool {
    |r: Result<Cached, CacheError>| is_miss(r)
}

/// The positions of the entries that have to be geocoded anew, in order.
pub open spec fn miss_positions(judged: Seq<Result<Cached, CacheError>>) -> Seq<usize> {
    positions(judged, missed())
}

/// The results that the cache itself gives: the values found, and nothing
/// for every other entry.
pub open spec fn cached_results(judged: Seq<Result<Cached, CacheError>>) -> Seq<
    Option<Seq<Seq<char>>>,
> {
    Seq::new(
        judged.len(),
        |i: int|
            match judged[i] {
                Ok(Cached::Found(values)) => Some(values),
                _ => None,
            },
    )
}

/// The results as they are handed out: where keys are output, each
/// geocoded address has its cache key as one more value.
pub open spec fn with_keys(
    results: Seq<Option<Seq<Seq<char>>>>,
    keys: Seq<Seq<char>>,
    output_keys: bool,
) -> Seq<Option<Seq<Seq<char>>>> {
    Seq::new(
        results.len(),
        |i: int|
            match results[i] {
                Some(values) => Some(
                    if output_keys {
                        values.push(keys[i])
                    } else {
                        values
                    },
                ),
                None => None,
            },
    )
}

/// The envelope stored for a value: the id of the compression, then the
/// compressed serialized value.
pub open spec fn envelope(value: Option<Seq<Seq<char>>>) -> Seq<u8> {
    seq![CacheCompressor::id_byte()] + compressed(encoded_payload(value))
}

/// What is stored for the addresses geocoded anew: under the key of each,
/// the envelope of what was found for it.
pub open spec fn store_entries(
    keys: Seq<Seq<char>>,
    positions: Seq<usize>,
    found: Seq<Option<Seq<Seq<char>>>>,
) -> Seq<(Seq<char>, Seq<u8>)> {
    Seq::new(positions.len(), |k: int| (keys[positions[k] as int], envelope(found[k])))
}

/// A caching layer in front of another geocoder.
#[derive(Debug)]
pub struct Cache {
    /// Compressor for cached data.
    compressor: CacheCompressor,
    /// The configuration key of the geocoder behind the cache.
    inner_configuration_key: String,
    /// The cache prefix of the geocoder behind the cache.
    inner_cache_prefix: String,
    /// The number of columns of the geocoder behind the cache.
    inner_column_count: usize,
    /// Should cache keys be recorded in the output?
    output_keys: bool,
    /// Should cache misses be left as they are, and not geocoded?
    cache_hits_only: bool,
    /// The column names that the cache outputs.
    column_names: Vec<String>,
}

/// The key/value pairs of a list of entries to store.
pub open spec fn entry_views(entries: Seq<(String, Vec<u8>)>) -> Seq<(Seq<char>, Seq<u8>)> {
    Seq::new(entries.len(), |i: int| (entries[i].0@, entries[i].1@))
}

/// A lookup that waits for the answer of the key/value store.
#[derive(Debug)]
pub struct FetchPending<'a> {
    addresses: &'a [Address],
    keys: Vec<String>,
}

/// A lookup that waits for the inner geocoder's results for the addresses
/// that the cache did not have.
#[derive(Debug)]
pub struct GeocodePending {
    keys: Vec<String>,
    results: Vec<Option<Geocoded>>,
    positions: Vec<usize>,
    misses: Vec<Address>,
}

/// A lookup that waits for new entries to be written to the store.
#[derive(Debug)]
pub struct StorePending {
    keys: Vec<String>,
    results: Vec<Option<Geocoded>>,
    entries: Vec<(String, Vec<u8>)>,
}

/// What the caller of the cache is to do next.
#[derive(Debug)]
pub enum CacheStep<'a> {
    /// Fetch the keys of the lookup from the store in one batch, and hand
    /// the answers to `FetchPending::fetched`.
    Fetch(FetchPending<'a>),
    /// Geocode the addresses of the lookup with the inner geocoder, and
    /// hand the results to `GeocodePending::geocoded`.
    Geocode(GeocodePending),
    /// Write the entries of the lookup to the store in one batch, and call
    /// `StorePending::stored` once that has succeeded.
    Store(StorePending),
    /// Nothing is left to do: these are the results.
    Done(Vec<Option<Geocoded>>),
}

impl<'a> FetchPending<'a> {
    /// The addresses looked up.
    pub closed spec fn addresses(&self) -> Seq<AddressText> {
        address_texts(self.addresses@)
    }

    /// The keys to fetch, one for each address.
    pub closed spec fn keys(&self) -> Seq<Seq<char>> {
        views(self.keys@)
    }

    /// There is a key for each address.
    #[verifier::type_invariant]
    spec fn consistent(&self) -> bool {
        self.keys@.len() == self.addresses@.len()
    }

    /// The keys to fetch from the store, in order.
    pub fn keys_to_fetch(&self) -> (keys: &Vec<String>)
        ensures
            views(keys@) == self.keys(),
    {
        &self.keys
    }
}

impl GeocodePending {
    /// The cache key of each address looked up.
    pub closed spec fn keys(&self) -> Seq<Seq<char>> {
        views(self.keys@)
    }

    /// The results known so far, one for each address looked up.
    pub closed spec fn results(&self) -> Seq<Option<Seq<Seq<char>>>> {
        result_values(self.results@)
    }

    /// The positions, among the addresses looked up, of those to geocode.
    pub closed spec fn positions(&self) -> Seq<usize> {
        self.positions@
    }

    /// The addresses to geocode.
    pub closed spec fn addresses(&self) -> Seq<AddressText> {
        address_texts(self.misses@)
    }

    /// The positions are those of addresses looked up, and there is one
    /// address to geocode for each.
    #[verifier::type_invariant]
    spec fn consistent(&self) -> bool {
        &&& self.keys@.len() == self.results@.len()
        &&& self.misses@.len() == self.positions@.len()
        &&& forall|k: int|
            0 <= k < self.positions@.len() ==> (#[trigger] self.positions@[k]) < self.results@.len()
    }

    /// The addresses to hand to the inner geocoder, in order.
    pub fn addresses_to_geocode(&self) -> (addresses: &Vec<Address>)
        ensures
            address_texts(addresses@) == self.addresses(),
    {
        &self.misses
    }
}

impl StorePending {
    /// The cache key of each address looked up.
    pub closed spec fn keys(&self) -> Seq<Seq<char>> {
        views(self.keys@)
    }

    /// The results, one for each address looked up.
    pub closed spec fn results(&self) -> Seq<Option<Seq<Seq<char>>>> {
        result_values(self.results@)
    }

    /// The entries to write.
    pub closed spec fn entries(&self) -> Seq<(Seq<char>, Seq<u8>)> {
        entry_views(self.entries@)
    }

    /// There is a key for each result.
    #[verifier::type_invariant]
    spec fn consistent(&self) -> bool {
        self.keys@.len() == self.results@.len()
    }

    /// The keys and values to write to the store, in order.
    pub fn entries_to_store(&self) -> (entries: &Vec<(String, Vec<u8>)>)
        ensures
            entry_views(entries@) == self.entries(),
    {
        &self.entries
    }
}

impl Cache {
    /// The cache prefix of the geocoder behind the cache.
    pub closed spec fn inner_cache_prefix(&self) -> Seq<char> {
        self.inner_cache_prefix@
    }

    /// The number of columns of the geocoder behind the cache.
    pub closed spec fn inner_column_count(&self) -> nat {
        self.inner_column_count as nat
    }

    /// Whether cache keys are recorded in the output.
    pub closed spec fn output_keys(&self) -> bool {
        self.output_keys
    }

    /// Whether cache misses are left as they are.
    pub closed spec fn cache_hits_only(&self) -> bool {
        self.cache_hits_only
    }

    /// The step that follows the answer of the store, where every answer
    /// could be read: the misses go to the inner geocoder, unless there is
    /// none or the cache is asked for hits only.
    pub open spec fn needs_geocoding(&self, judged: Seq<Result<Cached, CacheError>>) -> bool {
        miss_positions(judged).len() > 0 && !self.cache_hits_only()
    }

    /// Create a new cache in front of the geocoder `inner`.
    pub fn new<G: Geocoder>(inner: &G, output_keys: bool, cache_hits_only: bool) -> (cache: Cache)
        ensures
            cache.tag_text() == "cache"@,
            cache.configuration_key_text() == inner.configuration_key_text(),
            cache.column_name_texts() == inner.column_name_texts() + if output_keys {
                seq!["cache_key"@]
            } else {
                Seq::<Seq<char>>::empty()
            },
            cache.inner_cache_prefix() == cache_prefix_text(
                inner.tag_text(),
                inner.column_name_texts(),
                inner.configuration_key_text(),
            ),
            cache.inner_column_count() == inner.column_name_texts().len(),
            cache.output_keys() == output_keys,
            cache.cache_hits_only() == cache_hits_only,
    {
        let inner_cache_prefix = inner.cache_prefix();
        let inner_names = inner.column_names();
        let inner_column_count = inner_names.len();
        let mut column_names = clone_strings(inner_names);
        if output_keys {
            column_names.push("cache_key".to_owned());
        }
        let cache = Cache {
            compressor: CacheCompressor::new(),
            inner_configuration_key: inner.configuration_key().to_owned(),
            inner_cache_prefix,
            inner_column_count,
            output_keys,
            cache_hits_only,
            column_names,
        };
        assert(cache.column_name_texts() =~= inner.column_name_texts() + if output_keys {
            seq!["cache_key"@]
        } else {
            Seq::<Seq<char>>::empty()
        });
        cache
    }

    /// Begin the lookup of `addresses`. Without addresses there is nothing
    /// to do, and the store is not asked; else the key of each address is
    /// to be fetched.
    pub fn start<'a>(&self, addresses: &'a [Address]) -> (step: CacheStep<'a>)
        ensures
            addresses@.len() == 0 ==> (step matches CacheStep::Done(results) && results@.len()
                == 0),
            addresses@.len() > 0 ==> (step matches CacheStep::Fetch(pending) && pending.addresses()
                == address_texts(addresses@) && pending.keys() == cache_key_texts(
                self.inner_cache_prefix(),
                address_texts(addresses@),
            )),
    {
        if addresses.len() == 0 {
            return CacheStep::Done(Vec::new());
        }
        let mut keys: Vec<String> = Vec::new();
        let mut i: usize = 0;
        while i < addresses.len()
            invariant
                i <= addresses.len(),
                keys@.len() == i,
                forall|j: int|
                    0 <= j < i ==> (#[trigger] keys@[j])@ == cache_key_text(
                        self.inner_cache_prefix(),
                        addresses@[j]@,
                    ),
            decreases addresses.len() - i,
        {
            keys.push(cache_key(self.inner_cache_prefix.as_str(), &addresses[i]));
            i += 1;
        }
        assert(views(keys@) =~= cache_key_texts(
            self.inner_cache_prefix(),
            address_texts(addresses@),
        ));
        CacheStep::Fetch(FetchPending { addresses, keys })
    }

    /// How a value reads once it has been deserialized: the step of the
    /// lookup that follows the call of bincode. A value that could not be
    /// deserialized, or has the wrong number of column values, is an error.
    pub fn judge_decoded(
        &self,
        decoded: Result<Option<Vec<String>>, bincode::error::DecodeError>,
    ) -> (r: Result<Option<Option<Geocoded>>, CacheError>)
        ensures
            match decoded {
                Err(_) => r == Err::<Option<Option<Geocoded>>, CacheError>(CacheError::Undecodable),
                Ok(value) => match judge_value(self.inner_column_count(), optional_views(value)) {
                    Err(e) => r == Err::<Option<Option<Geocoded>>, CacheError>(e),
                    Ok(Cached::Found(values)) => r matches Ok(Some(Some(g))) && g@ == values,
                    Ok(Cached::Negative) => r matches Ok(Some(None)),
                    Ok(_) => r matches Ok(None),
                },
            },
    {
        match decoded {
            Err(_) => Err(CacheError::Undecodable),
            Ok(None) => Ok(Some(None)),
            Ok(Some(values)) => {
                if values.len() != self.inner_column_count {
                    return Err(
                        CacheError::WrongNumberOfValues {
                            found: values.len(),
                            expected: self.inner_column_count,
                        },
                    );
                }
                let candidate = Geocoded { column_values: values };
                if candidate.contains_null_bytes() {
                    // Data written by a faulty earlier version: a miss.
                    Ok(None)
                } else {
                    Ok(Some(Some(candidate)))
                }
            },
        }
    }

    /// How the answer of the store for one key reads. `Ok(None)` stands for
    /// an entry to geocode anew, `Ok(Some(..))` for what the cache knows.
    pub fn read_entry(&self, entry: &Option<Vec<u8>>) -> (r: Result<
        Option<Option<Geocoded>>,
        CacheError,
    >)
        ensures
            match judge_entry(self.inner_column_count(), optional_bytes(*entry)) {
                Err(e) => r == Err::<Option<Option<Geocoded>>, CacheError>(e),
                Ok(Cached::Found(values)) => r matches Ok(Some(Some(g))) && g@ == values,
                Ok(Cached::Negative) => r matches Ok(Some(None)),
                Ok(_) => r matches Ok(None),
            },
    {
        match entry {
            None => Ok(None),
            Some(cache_hit) => {
                if cache_hit.len() == 0 {
                    return Err(CacheError::EmptyValue);
                }
                if cache_hit[0] != self.compressor.id() {
                    return Err(CacheError::UnknownCompression(cache_hit[0]));
                }
                let mut decompressed: Vec<u8> = Vec::new();
                let body = vstd::slice::slice_subrange(
                    cache_hit.as_slice(),
                    1,
                    cache_hit.len(),
                );
                match self.compressor.decompress(body, &mut decompressed) {
                    Ok(_) => {},
                    Err(e) => {
                        return Err(e);
                    },
                }
                assert(decompressed@ =~= crate::geocoders::cache::compression::decompressed(
                    cache_hit@.skip(1),
                ));
                self.judge_decoded(decode_payload(decompressed.as_slice()))
            },
        }
    }

    /// The results as they are handed out.
    fn finish(&self, keys: &Vec<String>, results: Vec<Option<Geocoded>>) -> (finished: Vec<
        Option<Geocoded>,
    >)
        requires
            keys@.len() == results@.len(),
        ensures
            finished@.len() == results@.len(),
            result_values(finished@) == with_keys(
                result_values(results@),
                views(keys@),
                self.output_keys(),
            ),
    {
        if !self.output_keys {
            assert(result_values(results@) =~= with_keys(
                result_values(results@),
                views(keys@),
                self.output_keys(),
            ));
            return results;
        }
        let ghost before = results@;
        let ghost wanted = with_keys(result_values(before), views(keys@), true);
        let mut finished: Vec<Option<Geocoded>> = Vec::new();
        let n = results.len();
        let mut i: usize = 0;
        for result in it: results.into_iter()
            invariant
                it.seq() == before,
                before.len() == keys@.len(),
                before.len() == n,
                i == it.index(),
                finished@.len() == i,
                wanted == with_keys(result_values(before), views(keys@), true),
                forall|k: int|
                    0 <= k < i ==> crate::geocoders::optional_values(#[trigger] finished@[k])
                        == wanted[k],
        {
            match result {
                Some(g) => {
                    let mut values = g.column_values;
                    values.push(keys[i].clone());
                    assert(views(values@) =~= g@.push(keys@[i as int]@));
                    finished.push(Some(Geocoded { column_values: values }));
                },
                None => {
                    finished.push(None);
                },
            }
            i += 1;
        }
        assert(result_values(finished@) =~= wanted);
        finished
    }
}

impl Geocoder for Cache {
    closed spec fn tag_text(&self) -> Seq<char> {
        "cache"@
    }

    closed spec fn configuration_key_text(&self) -> Seq<char> {
        self.inner_configuration_key@
    }

    closed spec fn column_name_texts(&self) -> Seq<Seq<char>> {
        views(self.column_names@)
    }

    fn tag(&self) -> (tag: &str) {
        "cache"
    }

    fn configuration_key(&self) -> (key: &str) {
        self.inner_configuration_key.as_str()
    }

    fn column_names(&self) -> (names: &[String]) {
        self.column_names.as_slice()
    }
}

/// With a warm cache, where every address is present, the inner geocoder
/// is not asked: every answer of the store can be read and none is a miss.
pub proof fn lemma_warm_cache_asks_no_geocoder(cache: Cache, judged: Seq<Result<Cached, CacheError>>)
    requires
        forall|i: int|
            0 <= i < judged.len() ==> (#[trigger] judged[i]) is Ok && !is_miss(judged[i]),
    ensures
        first_not(judged, readable()) is None,
        miss_positions(judged).len() == 0,
        !cache.needs_geocoding(judged),
    decreases judged.len(),
{
    lemma_first_not(judged, readable());
    if judged.len() > 0 {
        let front = judged.drop_last();
        assert forall|i: int| 0 <= i < front.len() implies (#[trigger] front[i]) is Ok && !is_miss(
            front[i],
        ) by {
            assert(front[i] == judged[i]);
        }
        lemma_warm_cache_asks_no_geocoder(cache, front);
    }
}

impl Cache {
    /// The envelope of a serialized value, the step that follows the call
    /// of bincode: the id of the codec, then the bytes as the codec stores
    /// them.
    pub fn seal(&self, encoded: &[u8]) -> (r: Result<Vec<u8>, CacheError>)
        ensures
            r matches Ok(sealed) && sealed@ == seq![CacheCompressor::id_byte()] + compressed(
                encoded@,
            ),
    {
        let mut sealed: Vec<u8> = Vec::new();
        sealed.push(self.compressor.id());
        match self.compressor.compress(encoded, &mut sealed) {
            Ok(_) => Ok(sealed),
            Err(e) => Err(e),
        }
    }
}

impl<'a> FetchPending<'a> {
    /// Takes the answers of the store, one for each key in order, and says
    /// what is to be done next.
    ///
    /// An answer that cannot be read is an error, the first such answer
    /// deciding which. Else the values found are results, and so is the
    /// lack of one for an address known to have no match. What the store
    /// did not have, or has with a NUL character in it, goes to the inner
    /// geocoder, unless there is no such address or the cache gives hits
    /// only: then the lookup is done.
    pub fn fetched(self, cache: &Cache, cached: &Vec<Option<Vec<u8>>>) -> (r: Result<
        CacheStep<'a>,
        CacheError,
    >)
        ensures
            ({
                let n = self.addresses().len();
                let j = judged(cache.inner_column_count(), entry_bytes(cached@));
                if cached@.len() != n {
                    r == Err::<CacheStep<'a>, CacheError>(
                        CacheError::WrongNumberOfResults {
                            found: cached@.len() as usize,
                            expected: n as usize,
                        },
                    )
                } else {
                    match first_not(j, readable()) {
                        Some(unreadable) => unreadable is Err && r == Err::<
                            CacheStep<'a>,
                            CacheError,
                        >(unreadable->Err_0),
                        None => r is Ok && if cache.needs_geocoding(j) {
                            r->Ok_0 matches CacheStep::Geocode(pending) && pending.keys()
                                == self.keys() && pending.results() == cached_results(j)
                                && pending.positions() == miss_positions(j) && pending.addresses()
                                == at_positions(self.addresses(), miss_positions(j))
                        } else {
                            r->Ok_0 matches CacheStep::Done(results) && results@.len() == n
                                && result_values(results@) == with_keys(
                                cached_results(j),
                                self.keys(),
                                cache.output_keys(),
                            )
                        },
                    }
                }
            }),
    {
        proof {
            use_type_invariant(&self);
        }
        let n = self.addresses.len();
        if cached.len() != n {
            return Err(CacheError::WrongNumberOfResults { found: cached.len(), expected: n });
        }
        let ghost columns = cache.inner_column_count();
        let ghost j = judged(columns, entry_bytes(cached@));
        let ghost addrs = address_texts(self.addresses@);
        let mut results: Vec<Option<Geocoded>> = Vec::new();
        let mut positions: Vec<usize> = Vec::new();
        let mut misses: Vec<Address> = Vec::new();
        let mut i: usize = 0;
        assert(j.take(0) =~= Seq::<Result<Cached, CacheError>>::empty());
        while i < n
            invariant
                i <= n,
                n == cached@.len(),
                n == self.addresses@.len(),
                columns == cache.inner_column_count(),
                j == judged(columns, entry_bytes(cached@)),
                addrs == address_texts(self.addresses@),
                first_not(j.take(i as int), readable()) is None,
                results@.len() == i,
                result_values(results@) == cached_results(j).take(i as int),
                positions@ == miss_positions(j.take(i as int)),
                misses@.len() == positions@.len(),
                forall|k: int| 0 <= k < positions@.len() ==> (#[trigger] positions@[k]) < i,
                address_texts(misses@) == at_positions(addrs, positions@),
            decreases n - i,
        {
            let ghost seen = result_values(results@);
            let ghost old_positions = positions@;
            let ghost old_misses = address_texts(misses@);
            proof {
                assert(j.take(i + 1) =~= j.take(i as int) + seq![j[i as int]]);
                lemma_first_not_concat(j.take(i as int), seq![j[i as int]], readable());
                lemma_first_not_single(j[i as int], readable());
                assert(j =~= j.take(i + 1) + j.skip(i + 1));
                lemma_first_not_concat(j.take(i + 1), j.skip(i + 1), readable());
                lemma_positions_step(j, missed(), i as int);
            }
            match cache.read_entry(&cached[i]) {
                Err(e) => {
                    return Err(e);
                },
                Ok(Some(known)) => {
                    results.push(known);
                },
                Ok(None) => {
                    results.push(None);
                    positions.push(i);
                    misses.push(self.addresses[i].clone());
                    assert(address_texts(misses@) =~= at_positions(addrs, positions@)) by {
                        assert forall|k: int| 0 <= k < positions@.len() implies address_texts(
                            misses@,
                        )[k] == at_positions(addrs, positions@)[k] by {
                            if k < old_positions.len() {
                                assert(old_misses[k] == at_positions(addrs, old_positions)[k]);
                            }
                        }
                    }
                },
            }
            assert(result_values(results@) =~= cached_results(j).take(i + 1)) by {
                assert forall|k: int| 0 <= k <= i implies result_values(results@)[k]
                    == cached_results(j).take(i + 1)[k] by {
                    if k < i {
                        assert(seen[k] == cached_results(j).take(i as int)[k]);
                    }
                }
            }
            i += 1;
        }
        proof {
            assert(j.take(n as int) == j);
            assert(cached_results(j).take(n as int) == cached_results(j));
        }
        if misses.len() > 0 && !cache.cache_hits_only {
            Ok(CacheStep::Geocode(GeocodePending { keys: self.keys, results, positions, misses }))
        } else {
            Ok(CacheStep::Done(cache.finish(&self.keys, results)))
        }
    }
}

impl GeocodePending {
    /// Takes the results of the inner geocoder, one for each address handed
    /// to it in order, and says what is to be written to the store: under
    /// the key of each such address the envelope of its result, be it a
    /// geocoded address or the lack of one. The results take their places
    /// among those that the cache knew.
    ///
    /// Another number of results than of addresses is the one error.
    pub fn geocoded(self, cache: &Cache, found: Vec<Option<Geocoded>>) -> (r: Result<
        CacheStep<'static>,
        CacheError,
    >)
        ensures
            found@.len() != self.positions().len() ==> r == Err::<CacheStep<'static>, CacheError>(
                CacheError::WrongNumberOfResults {
                    found: found@.len() as usize,
                    expected: self.positions().len() as usize,
                },
            ),
            found@.len() == self.positions().len() ==> (r matches Ok(CacheStep::Store(pending))
                && pending.keys() == self.keys() && pending.results().len()
                == self.results().len() && pending.results() == merged(
                self.results(),
                self.positions(),
                result_values(found@),
            ) && pending.entries() == store_entries(
                self.keys(),
                self.positions(),
                result_values(found@),
            )),
    {
        proof {
            use_type_invariant(&self);
        }
        let m = self.positions.len();
        if found.len() != m {
            return Err(CacheError::WrongNumberOfResults { found: found.len(), expected: m });
        }
        let ghost before = result_values(self.results@);
        let ghost positions = self.positions@;
        let ghost key_texts = views(self.keys@);
        let ghost found_values = result_values(found@);
        let ghost found_seq = found@;
        let keys = self.keys;
        let offsets = self.positions;
        let mut results = self.results;
        let mut entries: Vec<(String, Vec<u8>)> = Vec::new();
        let mut k: usize = 0;
        assert(positions.take(0) =~= Seq::<usize>::empty());
        for value in it: found.into_iter()
            invariant
                it.seq() == found_seq,
                found_seq == found@,
                positions == self.positions(),
                found_values == result_values(found_seq),
                found_seq.len() == m,
                k == it.index(),
                offsets@ == positions,
                positions.len() == m,
                views(keys@) == key_texts,
                keys@.len() == before.len(),
                results@.len() == before.len(),
                forall|q: int| 0 <= q < positions.len() ==> (#[trigger] positions[q]) < before.len(),
                result_values(results@) == merged(
                    before,
                    positions.take(k as int),
                    found_values.take(k as int),
                ),
                entries@.len() == k,
                forall|q: int|
                    0 <= q < k ==> (#[trigger] entry_views(entries@)[q]) == store_entries(
                        key_texts,
                        positions,
                        found_values,
                    )[q],
        {
            let position = offsets[k];
            let ghost old_results = result_values(results@);
            let ghost old_entries = entry_views(entries@);
            proof {
                lemma_merged_step(before, positions, found_values, k as int);
                assert(found_values[k as int] == crate::geocoders::optional_values(value));
            }
            let encoded = match &value {
                Some(g) => encode_payload(Some(&g.column_values)),
                None => encode_payload(None),
            };
            let sealed = match cache.seal(encoded.unwrap().as_slice()) {
                Ok(sealed) => sealed,
                Err(e) => {
                    return Err(e);
                },
            };
            entries.push((keys[position].clone(), sealed));
            results.set(position, value);
            proof {
                assert(result_values(results@) =~= old_results.update(
                    position as int,
                    found_values[k as int],
                ));
                assert forall|q: int| 0 <= q <= k implies (#[trigger] entry_views(entries@)[q])
                    == store_entries(key_texts, positions, found_values)[q] by {
                    if q < k {
                        assert(entry_views(entries@)[q] == old_entries[q]);
                    }
                }
            }
            k += 1;
        }
        proof {
            assert(positions.take(m as int) == positions);
            assert(found_values.take(m as int) == found_values);
            lemma_merged(before, positions, found_values);
            assert(entry_views(entries@) =~= store_entries(key_texts, positions, found_values));
        }
        Ok(CacheStep::Store(StorePending { keys, results, entries }))
    }
}

impl StorePending {
    /// Called once the entries have been written: the lookup is done, with
    /// one result for each address looked up.
    pub fn stored(self, cache: &Cache) -> (step: CacheStep<'static>)
        ensures
            step matches CacheStep::Done(results) && results@.len() == self.results().len()
                && result_values(results@) == with_keys(
                self.results(),
                self.keys(),
                cache.output_keys(),
            ),
    {
        proof {
            use_type_invariant(&self);
        }
        CacheStep::Done(cache.finish(&self.keys, self.results))
    }
}

} // verus!
