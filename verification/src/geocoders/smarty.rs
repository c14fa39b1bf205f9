//! The geocoder of an address-verification provider that is reached over
//! HTTP: what is asked of it, and what is made of its answers.

use vstd::prelude::*;

use crate::addresses::address_texts;
use crate::addresses::Address;
use crate::addresses::AddressText;
use crate::geocoders::smarty::structure::column_value;
use crate::geocoders::smarty::structure::has_value;
use crate::geocoders::smarty::structure::JsonValue;
use crate::geocoders::smarty::structure::Structure;
use crate::geocoders::smarty::structure::StructureError;
use crate::geocoders::Geocoded;
use crate::geocoders::Geocoder;
use crate::geocoders::MatchStrategy;
use crate::pipeline::GEOCODE_SIZE;
use crate::sequences::first_not;
use crate::sequences::lemma_first_not_concat;
use crate::sequences::lemma_first_not_single;
use crate::text::push_char;
use crate::text::views;

pub mod structure;

verus! {

/// An address request for the provider.
#[derive(Debug, PartialEq, Eq)]
pub struct AddressRequest {
    /// The address to geocode.
    pub address: Address,
    /// What match strategy should be used?
    pub match_strategy: MatchStrategy,
}

/// An address response of the provider.
#[derive(Debug, PartialEq, Eq)]
pub struct AddressResponse {
    /// The index of the corresponding `AddressRequest`.
    pub input_index: usize,
    /// The fields that the provider has returned.
    pub fields: JsonValue,
}

/// What is wrong with the answers to a batch of requests.
#[derive(Debug, Clone, Copy, PartialEq, Eq, Structural)]
pub enum UnpackError {
    /// An answer names a request that was not made.
    IndexOutOfRange { index: usize, len: usize },
    /// Two answers name the same request.
    DuplicateIndex(usize),
}

/// What is wrong with an answer: the index of the first of `items` that
/// names no request among `len`, or the request of an earlier answer.
pub open spec fn unpack_fault<T>(items: Seq<(usize, T)>, len: nat) -> Option<UnpackError>
    decreases items.len(),
{
    if items.len() == 0 {
        None
    } else {
        match unpack_fault(items.drop_last(), len) {
            Some(e) => Some(e),
            None => {
                let index = items.last().0;
                if index >= len {
                    Some(UnpackError::IndexOutOfRange { index, len: len as usize })
                } else if exists|k: int| 0 <= k < items.len() - 1 && items[k].0 == index {
                    Some(UnpackError::DuplicateIndex(index))
                } else {
                    None
                }
            },
        }
    }
}

/// The answer to request `i`, if there is one among `items`.
pub open spec fn answer_to<T>(items: Seq<(usize, T)>, i: int) -> Option<T>
    decreases items.len(),
{
    if items.len() == 0 {
        None
    } else if items.last().0 == i {
        Some(items.last().1)
    } else {
        answer_to(items.drop_last(), i)
    }
}

/// Puts each answer in the place of its request: from a list of answers,
/// each with the index of its request, a list with a place for each of
/// `len` requests, holding the answer to the request or nothing.
///
/// Fails if an answer has an index of `len` or more, or the index of an
/// earlier answer; the first such answer decides.
pub fn unpack_vec<T>(items: Vec<(usize, T)>, len: usize) -> (r: Result<Vec<Option<T>>, UnpackError>)
    ensures
        match unpack_fault(items@, len as nat) {
            Some(e) => r == Err::<Vec<Option<T>>, UnpackError>(e),
            None => r matches Ok(unpacked) && unpacked@.len() == len && forall|i: int|
                0 <= i < len ==> #[trigger] unpacked@[i] == answer_to(items@, i),
        },
{
    let ghost all = items@;
    let mut unpacked: Vec<Option<T>> = Vec::new();
    let mut n: usize = 0;
    while n < len
        invariant
            n <= len,
            unpacked@.len() == n,
            forall|i: int| 0 <= i < n ==> (#[trigger] unpacked@[i]) is None,
        decreases len - n,
    {
        unpacked.push(None);
        n += 1;
    }
    let mut k: usize = 0;
    let total = items.len();
    assert(all.take(0) =~= Seq::<(usize, T)>::empty());
    for item in it: items.into_iter()
        invariant
            it.seq() == all,
            all == items@,
            all.len() == total,
            k == it.index(),
            unpacked@.len() == len,
            unpack_fault(all.take(k as int), len as nat) is None,
            forall|i: int| 0 <= i < len ==> #[trigger] unpacked@[i] == answer_to(
                all.take(k as int),
                i,
            ),
            forall|i: int|
                0 <= i < len ==> ((#[trigger] unpacked@[i]) is Some <==> exists|q: int|
                    0 <= q < k && all[q].0 == i),
    {
        let ghost before = unpacked@;
        proof {
            assert(all.take(k + 1).drop_last() =~= all.take(k as int));
            assert(all.take(k + 1).last() == all[k as int]);
            lemma_unpack_fault_extends(all, len as nat, k + 1);
        }
        let (index, value) = item;
        if index >= len {
            return Err(UnpackError::IndexOutOfRange { index, len });
        }
        if unpacked[index].is_some() {
            proof {
                let q = choose|q: int| 0 <= q < k && all[q].0 == index;
                assert(all.take(k + 1)[q].0 == index);
            }
            return Err(UnpackError::DuplicateIndex(index));
        }
        proof {
            let taken = all.take(k + 1);
            if exists|q: int| 0 <= q < taken.len() - 1 && (#[trigger] taken[q]).0 == index {
                let q = choose|q: int| 0 <= q < taken.len() - 1 && (#[trigger] taken[q]).0 == index;
                assert(all[q].0 == index);
            }
        }
        unpacked.set(index, Some(value));
        proof {
            assert forall|i: int| 0 <= i < len implies ((#[trigger] unpacked@[i]) is Some
                <==> exists|q: int| 0 <= q < k + 1 && all[q].0 == i) by {
                if i == index {
                    assert(all[k as int].0 == i);
                } else {
                    assert(unpacked@[i] == before[i]);
                    if exists|q: int| 0 <= q < k + 1 && all[q].0 == i {
                        let q = choose|q: int| 0 <= q < k + 1 && all[q].0 == i;
                        assert(q < k);
                    }
                }
            }
        }
        k += 1;
    }
    assert(all.take(all.len() as int) =~= all);
    Ok(unpacked)
}

/// A fault among the first answers is the fault of all.
proof fn lemma_unpack_fault_extends<T>(items: Seq<(usize, T)>, len: nat, n: int)
    requires
        0 <= n <= items.len(),
    ensures
        unpack_fault(items.take(n), len) is Some ==> unpack_fault(items, len) == unpack_fault(
            items.take(n),
            len,
        ),
    decreases items.len() - n,
{
    if n == items.len() {
        assert(items.take(n) =~= items);
    } else {
        assert(items.take(n + 1).drop_last() =~= items.take(n));
        lemma_unpack_fault_extends(items, len, n + 1);
    }
}

/// Geocoding interface for the provider, as far as no request is made.
#[derive(Debug)]
pub struct Smarty {
    /// The serialized configuration, in a format which can be used as a key.
    configuration_key: String,
    /// The names of the geocoding output columns.
    column_names: Vec<String>,
    /// How should addresses be matched?
    match_strategy: MatchStrategy,
    /// What license is used?
    license: String,
    /// The structure of a response.
    structure: Structure,
}

/// The configuration key of the provider: the match strategy, a colon, the
/// license.
pub open spec fn smarty_configuration_key(strategy: MatchStrategy, license: Seq<char>) -> Seq<char> {
    strategy.name() + seq![':'] + license
}

/// The requests for a list of addresses.
pub open spec fn request_addresses(requests: Seq<AddressRequest>) -> Seq<AddressText> {
    Seq::new(requests.len(), |i: int| requests[i].address@)
}

/// The fields of each answer, where there is one.
pub open spec fn response_fields(responses: Seq<Option<AddressResponse>>) -> Seq<Option<JsonValue>> {
    Seq::new(
        responses.len(),
        |i: int|
            match responses[i] {
                Some(response) => Some(response.fields),
                None => None,
            },
    )
}

/// Whether the fields of an answer, where there is one, can be turned
/// into column values.
pub open spec fn readable_by(structure: Structure) -> spec_fn(Option<JsonValue>) -> bool {
    |fields: Option<JsonValue>|
        match fields {
            Some(document) => first_not(structure.paths(), has_value(document)) is None,
            None => true,
        }
}

impl Smarty {
    /// The match strategy.
    pub closed spec fn match_strategy(&self) -> MatchStrategy {
        self.match_strategy
    }

    /// The license.
    pub closed spec fn license_text(&self) -> Seq<char> {
        self.license@
    }

    /// The structure of a response.
    pub closed spec fn structure(&self) -> Structure {
        self.structure
    }

    /// The geocoder for the given match strategy and license. Its columns
    /// are those of the complete structure.
    pub fn new(match_strategy: MatchStrategy, license: String) -> (r: Result<Smarty, StructureError>)
        ensures
            r matches Ok(smarty) && smarty.tag_text() == "sm"@ && smarty.configuration_key_text()
                == smarty_configuration_key(match_strategy, license@) && smarty.match_strategy()
                == match_strategy && smarty.license_text() == license@ && smarty.structure().wf()
                && smarty.structure().paths() == crate::geocoders::smarty::structure::complete_paths()
                && smarty.column_name_texts() == smarty.structure().column_names(),
    {
        let mut configuration_key = String::new();
        configuration_key.append(match_strategy.as_str());
        push_char(&mut configuration_key, ':');
        configuration_key.append(license.as_str());
        assert(configuration_key@ =~= smarty_configuration_key(match_strategy, license@));
        let structure = match Structure::complete() {
            Ok(structure) => structure,
            Err(e) => {
                return Err(e);
            },
        };
        let column_names = match structure.output_column_names() {
            Ok(column_names) => column_names,
            Err(e) => {
                return Err(e);
            },
        };
        Ok(Smarty { configuration_key, column_names, match_strategy, license, structure })
    }

    /// The license to name in a request.
    pub fn license(&self) -> (license: &str)
        ensures
            license@ == self.license_text(),
    {
        self.license.as_str()
    }

    /// The requests to send for a list of addresses: one for each address,
    /// in order, with the match strategy of this geocoder.
    pub fn requests_for(&self, addresses: &[Address]) -> (requests: Vec<AddressRequest>)
        ensures
            requests@.len() == addresses@.len(),
            request_addresses(requests@) == address_texts(addresses@),
            forall|i: int|
                0 <= i < requests@.len() ==> (#[trigger] requests@[i]).match_strategy
                    == self.match_strategy(),
    {
        let mut requests: Vec<AddressRequest> = Vec::new();
        let mut i: usize = 0;
        while i < addresses.len()
            invariant
                i <= addresses.len(),
                requests@.len() == i,
                forall|k: int|
                    0 <= k < i ==> (#[trigger] requests@[k]).address@ == addresses@[k]@
                        && requests@[k].match_strategy == self.match_strategy(),
            decreases addresses.len() - i,
        {
            requests.push(
                AddressRequest {
                    match_strategy: self.match_strategy,
                    address: addresses[i].clone(),
                },
            );
            i += 1;
        }
        assert(request_addresses(requests@) =~= address_texts(addresses@));
        requests
    }

    /// The geocoding results that the answers of the provider give: in the
    /// place of each answer its column values, and nothing where there is
    /// no answer.
    ///
    /// An answer with an array or an object in the place of a column value
    /// is an error; the first such answer, and in it the first such column,
    /// decides which.
    pub fn geocoded_from(&self, responses: &Vec<Option<AddressResponse>>) -> (r: Result<
        Vec<Option<Geocoded>>,
        StructureError,
    >)
        ensures
            ({
                let fields = response_fields(responses@);
                match first_not(fields, readable_by(self.structure())) {
                    Some(unreadable) => unreadable is Some && (r matches Err(
                        StructureError::UnexpectedValue(path),
                    ) && Some(views(path@)) == first_not(
                        self.structure().paths(),
                        has_value(unreadable->0),
                    )),
                    None => r matches Ok(geocoded) && geocoded@.len() == responses@.len()
                        && forall|i: int|
                        0 <= i < geocoded@.len() ==> match fields[i] {
                            Some(document) => (#[trigger] geocoded@[i]) is Some
                                && geocoded@[i]->0@.len() == self.structure().paths().len()
                                && forall|c: int|
                                0 <= c < self.structure().paths().len() ==> Some(
                                    #[trigger] geocoded@[i]->0@[c],
                                ) == column_value(document, self.structure().paths()[c]),
                            None => geocoded@[i] is None,
                        },
                }
            }),
    {
        let ghost fields = response_fields(responses@);
        let ghost ok = readable_by(self.structure());
        let mut geocoded: Vec<Option<Geocoded>> = Vec::new();
        let mut i: usize = 0;
        assert(fields.take(0) =~= Seq::<Option<JsonValue>>::empty());
        while i < responses.len()
            invariant
                i <= responses.len(),
                fields == response_fields(responses@),
                ok == readable_by(self.structure()),
                first_not(fields.take(i as int), ok) is None,
                geocoded@.len() == i,
                forall|k: int|
                    0 <= k < i ==> match fields[k] {
                        Some(document) => (#[trigger] geocoded@[k]) is Some
                            && geocoded@[k]->0@.len() == self.structure().paths().len()
                            && forall|c: int|
                            0 <= c < self.structure().paths().len() ==> Some(
                                #[trigger] geocoded@[k]->0@[c],
                            ) == column_value(document, self.structure().paths()[c]),
                        None => geocoded@[k] is None,
                    },
            decreases responses.len() - i,
        {
            proof {
                assert(fields.take(i + 1) =~= fields.take(i as int) + seq![fields[i as int]]);
                lemma_first_not_concat(fields.take(i as int), seq![fields[i as int]], ok);
                lemma_first_not_single(fields[i as int], ok);
                assert(fields =~= fields.take(i + 1) + fields.skip(i + 1));
                lemma_first_not_concat(fields.take(i + 1), fields.skip(i + 1), ok);
            }
            match &responses[i] {
                Some(address_output) => {
                    match self.structure.value_columns_for(&address_output.fields) {
                        Ok(column_values) => {
                            let found = Geocoded { column_values };
                            assert(forall|c: int|
                                0 <= c < found@.len() ==> #[trigger] found@[c]
                                    == found.column_values@[c]@);
                            geocoded.push(Some(found));
                        },
                        Err(e) => {
                            return Err(e);
                        },
                    }
                },
                None => {
                    geocoded.push(None);
                },
            }
            i += 1;
        }
        assert(fields.take(fields.len() as int) =~= fields);
        Ok(geocoded)
    }
}

impl Geocoder for Smarty {
    closed spec fn tag_text(&self) -> Seq<char> {
        "sm"@
    }

    closed spec fn configuration_key_text(&self) -> Seq<char> {
        self.configuration_key@
    }

    closed spec fn column_name_texts(&self) -> Seq<Seq<char>> {
        views(self.column_names@)
    }

    fn tag(&self) -> (tag: &str) {
        "sm"
    }

    fn configuration_key(&self) -> (key: &str) {
        self.configuration_key.as_str()
    }

    fn column_names(&self) -> (names: &[String]) {
        self.column_names.as_slice()
    }
}

/// How a rate limiter is set up for a limit of addresses per second.
#[derive(Debug, Clone, Copy, PartialEq, Eq, Structural)]
pub struct RateLimiterSettings {
    /// The permits that are there at the start.
    pub initial: usize,
    /// The most permits that can be there.
    pub max: usize,
    /// The permits that are added in each interval.
    pub refill: usize,
    /// The length of an interval, in seconds.
    pub interval_secs: u64,
}

/// The settings of a rate limiter for `limit` addresses per second: it
/// starts with `limit` permits, or with those for a full batch of
/// `GEOCODE_SIZE` addresses if that is more, so that a batch can always be
/// sent in the end; it holds twice as many at most; and it gains `limit`
/// permits each second. Nothing where twice the initial number does not
/// fit.
pub fn rate_limiter_settings(limit: usize) -> (settings: Option<RateLimiterSettings>)
    ensures
        ({
            let initial = if limit > GEOCODE_SIZE {
                limit
            } else {
                GEOCODE_SIZE
            };
            if 2 * initial <= usize::MAX {
                settings == Some(
                    RateLimiterSettings {
                        initial,
                        max: (2 * initial) as usize,
                        refill: limit,
                        interval_secs: 1,
                    },
                )
            } else {
                settings is None
            }
        }),
{
    let initial: usize = if limit > GEOCODE_SIZE {
        limit
    } else {
        GEOCODE_SIZE
    };
    match initial.checked_mul(2) {
        Some(max) => Some(RateLimiterSettings { initial, max, refill: limit, interval_secs: 1 }),
        None => None,
    }
}

} // verus!
