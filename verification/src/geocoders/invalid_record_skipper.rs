//! Skip invalid addresses and do not pass them through to the next layer.

use vstd::prelude::*;

use crate::addresses::address_texts;
use crate::addresses::Address;
use crate::addresses::AddressText;
use crate::geocoders::clone_strings;
use crate::geocoders::empty_values;
use crate::geocoders::optional_values;
use crate::geocoders::result_values;
use crate::geocoders::Geocoded;
use crate::geocoders::Geocoder;
use crate::sequences::at_positions;
use crate::sequences::lemma_merged;
use crate::sequences::lemma_merged_step;
use crate::sequences::lemma_positions;
use crate::sequences::lemma_positions_step;
use crate::sequences::merged;
use crate::sequences::positions;
use crate::pipeline::result_columns;
use crate::text::views;

verus! {

/// Whether an address is valid.
pub open spec fn is_valid() -> spec_fn(AddressText) -> bool {
    |addr: AddressText| addr.is_valid()
}

/// `n` results that are nothing.
pub open spec fn no_results(n: nat) -> Seq<Option<Seq<Seq<char>>>> {
    Seq::new(n, |i: int| None)
}

/// An address whose street is blank is not handed to the inner geocoder,
/// and whatever that returns for the others, it gets no result: its row
/// gains an empty value for each column of the geocoder.
pub proof fn lemma_invalid_addresses_get_empty_columns(
    addresses: Seq<AddressText>,
    found: Seq<Option<Seq<Seq<char>>>>,
    columns: nat,
    i: int,
)
    requires
        addresses.len() <= usize::MAX,
        found.len() == positions(addresses, is_valid()).len(),
        0 <= i < addresses.len(),
        !addresses[i].is_valid(),
    ensures
        !positions(addresses, is_valid()).contains(i as usize),
        forall|k: int|
            0 <= k < positions(addresses, is_valid()).len() ==> (#[trigger] at_positions(
                addresses,
                positions(addresses, is_valid()),
            )[k]).is_valid(),
        merged(no_results(addresses.len()), positions(addresses, is_valid()), found)[i] is None,
        result_columns(
            columns,
            merged(no_results(addresses.len()), positions(addresses, is_valid()), found)[i],
        ) == empty_values(columns),
{
    let places = positions(addresses, is_valid());
    lemma_positions(addresses, is_valid());
    if places.contains(i as usize) {
        let q = choose|q: int| 0 <= q < places.len() && places[q] == i as usize;
        assert(is_valid()(addresses[places[q] as int]));
    }
    assert forall|k: int| 0 <= k < places.len() implies (#[trigger] at_positions(
        addresses,
        places,
    )[k]).is_valid() by {
        assert(is_valid()(addresses[places[k] as int]));
    }
    lemma_merged(no_results(addresses.len()), places, found);
}

/// A batch without a valid address asks nothing of the inner geocoder: no
/// address goes to it, and with no result from it every address of the
/// batch gets none.
pub proof fn lemma_no_valid_address_asks_no_geocoder(addresses: Seq<AddressText>)
    requires
        forall|i: int| 0 <= i < addresses.len() ==> !(#[trigger] addresses[i]).is_valid(),
    ensures
        positions(addresses, is_valid()).len() == 0,
        merged(
            no_results(addresses.len()),
            positions(addresses, is_valid()),
            Seq::<Option<Seq<Seq<char>>>>::empty(),
        ) == no_results(addresses.len()),
    decreases addresses.len(),
{
    if addresses.len() > 0 {
        let front = addresses.drop_last();
        assert forall|i: int| 0 <= i < front.len() implies !(#[trigger] front[i]).is_valid() by {
            assert(front[i] == addresses[i]);
        }
        lemma_no_valid_address_asks_no_geocoder(front);
        assert(!is_valid()(addresses.last()));
    }
}

/// The inner geocoder returned another number of results than it was given
/// addresses.
#[derive(Debug, Clone, Copy, PartialEq, Eq, Structural)]
pub struct WrongNumberOfResults {
    pub found: usize,
    pub expected: usize,
}

/// Skip invalid addresses and do not pass them through to the next layer.
/// Nothing that could affect caching is changed, so the skipper says of
/// itself what the geocoder behind it says.
#[derive(Debug)]
pub struct InvalidRecordSkipper {
    tag: String,
    configuration_key: String,
    column_names: Vec<String>,
}

/// A batch of addresses whose valid addresses wait for the results of the
/// inner geocoder.
pub struct SkipPending {
    addresses: Ghost<Seq<AddressText>>,
    address_count: usize,
    original_indices: Vec<usize>,
    valid_addresses: Vec<Address>,
}

impl InvalidRecordSkipper {
    /// Create a new skipper in front of the geocoder `inner`.
    pub fn new<G: Geocoder>(inner: &G) -> (skipper: InvalidRecordSkipper)
        ensures
            skipper.tag_text() == inner.tag_text(),
            skipper.configuration_key_text() == inner.configuration_key_text(),
            skipper.column_name_texts() == inner.column_name_texts(),
    {
        InvalidRecordSkipper {
            tag: inner.tag().to_owned(),
            configuration_key: inner.configuration_key().to_owned(),
            column_names: clone_strings(inner.column_names()),
        }
    }

    /// Picks the valid addresses of a batch, which alone go to the inner
    /// geocoder, and remembers the place of each. Whether there is any is
    /// what `needs_geocoding` says of the batch.
    pub fn start(&self, addresses: &[Address]) -> (pending: SkipPending)
        ensures
            pending.addresses() == address_texts(addresses@),
            pending.positions() == positions(address_texts(addresses@), is_valid()),
            pending.addresses_to_geocode_texts() == at_positions(
                address_texts(addresses@),
                pending.positions(),
            ),
    {
        let ghost all = address_texts(addresses@);
        let mut original_indices: Vec<usize> = Vec::new();
        let mut valid_addresses: Vec<Address> = Vec::new();
        let mut i: usize = 0;
        assert(all.take(0) =~= Seq::<AddressText>::empty());
        while i < addresses.len()
            invariant
                i <= addresses.len(),
                all == address_texts(addresses@),
                original_indices@ == positions(all.take(i as int), is_valid()),
                valid_addresses@.len() == original_indices@.len(),
                forall|k: int|
                    0 <= k < original_indices@.len() ==> (#[trigger] original_indices@[k]) < i,
                address_texts(valid_addresses@) == at_positions(all, original_indices@),
            decreases addresses.len() - i,
        {
            let ghost old_positions = original_indices@;
            let ghost old_valid = address_texts(valid_addresses@);
            proof {
                lemma_positions_step(all, is_valid(), i as int);
                assert(all[i as int] == addresses@[i as int]@);
            }
            if addresses[i].is_valid() {
                valid_addresses.push(addresses[i].clone());
                original_indices.push(i);
                assert(address_texts(valid_addresses@) =~= at_positions(all, original_indices@))
                    by {
                    assert forall|k: int|
                        0 <= k < original_indices@.len() implies address_texts(valid_addresses@)[k]
                        == at_positions(all, original_indices@)[k] by {
                        if k < old_positions.len() {
                            assert(old_valid[k] == at_positions(all, old_positions)[k]);
                        }
                    }
                }
            }
            i += 1;
        }
        assert(all.take(addresses@.len() as int) =~= all);
        SkipPending {
            addresses: Ghost(all),
            address_count: addresses.len(),
            original_indices,
            valid_addresses,
        }
    }
}

impl SkipPending {
    /// The addresses of the batch.
    pub closed spec fn addresses(&self) -> Seq<AddressText> {
        self.addresses@
    }

    /// The places, in the batch, of the addresses that go to the inner
    /// geocoder.
    pub closed spec fn positions(&self) -> Seq<usize> {
        self.original_indices@
    }

    /// The addresses that go to the inner geocoder.
    pub closed spec fn addresses_to_geocode_texts(&self) -> Seq<AddressText> {
        address_texts(self.valid_addresses@)
    }

    #[verifier::type_invariant]
    spec fn consistent(&self) -> bool {
        &&& self.address_count == self.addresses@.len()
        &&& self.original_indices@ == positions(self.addresses@, is_valid())
    }

    /// Whether the inner geocoder is to be called: it is where the batch
    /// has a valid address. Where it has none, the inner geocoder is left
    /// alone and `finish` takes an empty list.
    pub fn needs_geocoding(&self) -> (needed: bool)
        ensures
            needed == (self.positions().len() > 0),
    {
        self.original_indices.len() > 0
    }

    /// The addresses to hand to the inner geocoder, in order.
    pub fn addresses_to_geocode(&self) -> (addresses: &Vec<Address>)
        ensures
            address_texts(addresses@) == self.addresses_to_geocode_texts(),
    {
        &self.valid_addresses
    }

    /// Takes the results of the inner geocoder, one for each address handed
    /// to it in order, and rebuilds the results of the batch: each result
    /// at the place of its address, and nothing at the place of every
    /// invalid address.
    ///
    /// Another number of results than of addresses handed over is an error.
    pub fn finish(self, geocoded: Vec<Option<Geocoded>>) -> (r: Result<
        Vec<Option<Geocoded>>,
        WrongNumberOfResults,
    >)
        ensures
            geocoded@.len() != self.positions().len() ==> r == Err::<
                Vec<Option<Geocoded>>,
                WrongNumberOfResults,
            >(
                WrongNumberOfResults {
                    found: geocoded@.len() as usize,
                    expected: self.positions().len() as usize,
                },
            ),
            geocoded@.len() == self.positions().len() ==> (r matches Ok(results) && results@.len()
                == self.addresses().len() && result_values(results@) == merged(
                no_results(self.addresses().len()),
                self.positions(),
                result_values(geocoded@),
            ) && forall|i: int|
                0 <= i < results@.len() && !(#[trigger] self.addresses()[i]).is_valid()
                    ==> results@[i] is None),
    {
        proof {
            use_type_invariant(&self);
        }
        let m = self.original_indices.len();
        if geocoded.len() != m {
            return Err(WrongNumberOfResults { found: geocoded.len(), expected: m });
        }
        let n = self.address_count;
        let ghost addrs = self.addresses@;
        let ghost places = self.original_indices@;
        let ghost found = geocoded@;
        let ghost found_values = result_values(geocoded@);
        proof {
            lemma_positions(addrs, is_valid());
        }
        let mut result: Vec<Option<Geocoded>> = Vec::new();
        let mut i: usize = 0;
        while i < n
            invariant
                i <= n,
                result@.len() == i,
                forall|k: int| 0 <= k < i ==> (#[trigger] result@[k]) is None,
            decreases n - i,
        {
            result.push(None);
            i += 1;
        }
        assert(result_values(result@) =~= no_results(n as nat));
        let original_indices = self.original_indices;
        let mut k: usize = 0;
        assert(places.take(0) =~= Seq::<usize>::empty());
        for value in it: geocoded.into_iter()
            invariant
                it.seq() == found,
                found == geocoded@,
                found_values == result_values(found),
                found.len() == m,
                k == it.index(),
                original_indices@ == places,
                places == self.positions(),
                places.len() == m,
                n == addrs.len(),
                addrs == self.addresses(),
                result@.len() == n,
                forall|q: int| 0 <= q < places.len() ==> (#[trigger] places[q]) < n,
                result_values(result@) == merged(
                    no_results(n as nat),
                    places.take(k as int),
                    found_values.take(k as int),
                ),
        {
            let ghost before = result_values(result@);
            proof {
                lemma_merged_step(no_results(n as nat), places, found_values, k as int);
                assert(found_values[k as int] == optional_values(value));
            }
            result.set(original_indices[k], value);
            assert(result_values(result@) =~= before.update(
                places[k as int] as int,
                found_values[k as int],
            ));
            k += 1;
        }
        proof {
            assert(places.take(m as int) =~= places);
            assert(found_values.take(m as int) =~= found_values);
            lemma_merged(no_results(n as nat), places, found_values);
            assert forall|i: int|
                0 <= i < result@.len() && !(#[trigger] addrs[i]).is_valid() implies result@[i] is None by {
                if places.contains(i as usize) {
                    let q = choose|q: int| 0 <= q < places.len() && places[q] == i as usize;
                    assert(is_valid()(addrs[places[q] as int]));
                }
                assert(result_values(result@)[i] == no_results(n as nat)[i]);
            }
        }
        Ok(result)
    }
}

impl Geocoder for InvalidRecordSkipper {
    closed spec fn tag_text(&self) -> Seq<char> {
        self.tag@
    }

    closed spec fn configuration_key_text(&self) -> Seq<char> {
        self.configuration_key@
    }

    closed spec fn column_name_texts(&self) -> Seq<Seq<char>> {
        views(self.column_names@)
    }

    fn tag(&self) -> (tag: &str) {
        self.tag.as_str()
    }

    fn configuration_key(&self) -> (key: &str) {
        self.configuration_key.as_str()
    }

    fn column_names(&self) -> (names: &[String]) {
        self.column_names.as_slice()
    }
}

} // verus!
