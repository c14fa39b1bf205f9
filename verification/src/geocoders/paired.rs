//! Paired geocoder: run two geocoders, return the results of both.

use vstd::prelude::*;

use crate::addresses::prefix_column_name;
use crate::addresses::prefixed_names;
use crate::geocoders::clone_strings;
use crate::geocoders::empty_values;
use crate::geocoders::optional_values;
use crate::geocoders::Geocoded;
use crate::geocoders::Geocoder;
use crate::text::push_char;
use crate::text::views;

verus! {

/// The two geocoders returned different numbers of results.
#[derive(Debug, Clone, Copy, PartialEq, Eq, Structural)]
pub struct DifferentNumbersOfResults {
    pub fst: usize,
    pub snd: usize,
}

/// A geocoder that runs two geocoders and returns both results.
#[derive(Debug)]
pub struct Paired {
    /// An empty set of columns with the same width as the first geocoder.
    fst_empty_output: Geocoded,
    /// An empty set of columns with the same width as the second geocoder.
    snd_empty_output: Geocoded,
    /// The column names output by this geocoder: both sets of names.
    column_names: Vec<String>,
    /// The configuration key for this geocoder.
    config_key: String,
}

/// The values of a pair of results: nothing where both are nothing, else
/// the values of the first followed by those of the second, empty values
/// standing for the one that is nothing.
pub open spec fn combined(
    fst_columns: nat,
    snd_columns: nat,
    fst: Option<Seq<Seq<char>>>,
    snd: Option<Seq<Seq<char>>>,
) -> Option<Seq<Seq<char>>> {
    match (fst, snd) {
        (None, None) => None,
        (Some(f), None) => Some(f + empty_values(snd_columns)),
        (None, Some(s)) => Some(empty_values(fst_columns) + s),
        (Some(f), Some(s)) => Some(f + s),
    }
}

/// `n` empty values.
fn empty_output(n: usize) -> (empty: Geocoded)
    ensures
        empty@ == empty_values(n as nat),
{
    let mut column_values: Vec<String> = Vec::new();
    let mut i: usize = 0;
    while i < n
        invariant
            i <= n,
            column_values@.len() == i,
            forall|k: int| 0 <= k < i ==> (#[trigger] column_values@[k])@.len() == 0,
        decreases n - i,
    {
        column_values.push(String::new());
        i += 1;
    }
    let empty = Geocoded { column_values };
    assert forall|k: int| 0 <= k < n implies #[trigger] empty@[k] == Seq::<char>::empty() by {
        assert(empty@[k] == empty.column_values@[k]@);
        assert(empty@[k] =~= Seq::<char>::empty());
    }
    assert(empty@ =~= empty_values(n as nat));
    empty
}

impl Paired {
    /// The number of columns of the first geocoder.
    pub closed spec fn fst_columns(&self) -> nat {
        self.fst_empty_output@.len()
    }

    /// The number of columns of the second geocoder.
    pub closed spec fn snd_columns(&self) -> nat {
        self.snd_empty_output@.len()
    }

    #[verifier::type_invariant]
    spec fn consistent(&self) -> bool {
        &&& self.fst_empty_output@ == empty_values(self.fst_empty_output@.len())
        &&& self.snd_empty_output@ == empty_values(self.snd_empty_output@.len())
    }

    /// Create a new geocoder which returns the results of two geocoders.
    /// The columns of the first geocoder come first, followed by the
    /// columns of the second, whose names stand behind `snd_label` and an
    /// underscore.
    pub fn new<F: Geocoder, S: Geocoder>(fst: &F, snd_label: &str, snd: &S) -> (paired: Paired)
        ensures
            paired.tag_text() == "pair"@,
            paired.configuration_key_text() == fst.configuration_key_text() + seq!['+']
                + snd.configuration_key_text(),
            paired.column_name_texts() == fst.column_name_texts() + prefixed_names(
                snd_label@,
                snd.column_name_texts(),
            ),
            paired.fst_columns() == fst.column_name_texts().len(),
            paired.snd_columns() == snd.column_name_texts().len(),
    {
        let fst_names = fst.column_names();
        let snd_names = snd.column_names();
        let mut column_names = clone_strings(fst_names);
        let ghost first = views(column_names@);
        let mut i: usize = 0;
        assert(views(column_names@) =~= first + prefixed_names(
            snd_label@,
            views(snd_names@).take(0),
        ));
        while i < snd_names.len()
            invariant
                i <= snd_names.len(),
                views(column_names@) == first + prefixed_names(
                    snd_label@,
                    views(snd_names@).take(i as int),
                ),
            decreases snd_names.len() - i,
        {
            let ghost had = views(column_names@);
            column_names.push(prefix_column_name(snd_label, snd_names[i].as_str()));
            i += 1;
            proof {
                let now = first + prefixed_names(snd_label@, views(snd_names@).take(i as int));
                assert(views(column_names@).len() == had.len() + 1);
                assert forall|k: int| 0 <= k < now.len() implies views(column_names@)[k]
                    == now[k] by {
                    if k < had.len() {
                        assert(views(column_names@)[k] == had[k]);
                    }
                }
                assert(views(column_names@) =~= now);
            }
        }
        assert(views(snd_names@).take(snd_names@.len() as int) =~= views(snd_names@));
        let mut config_key = String::new();
        config_key.append(fst.configuration_key());
        push_char(&mut config_key, '+');
        config_key.append(snd.configuration_key());
        Paired {
            fst_empty_output: empty_output(fst_names.len()),
            snd_empty_output: empty_output(snd_names.len()),
            column_names,
            config_key,
        }
    }

    /// The result of the pair for one address, given the results of the two
    /// geocoders for it.
    pub fn combine_geocoder_results(&self, fst: Option<Geocoded>, snd: Option<Geocoded>) -> (r:
        Option<Geocoded>)
        ensures
            optional_values(r) == combined(
                self.fst_columns(),
                self.snd_columns(),
                optional_values(fst),
                optional_values(snd),
            ),
    {
        proof {
            use_type_invariant(self);
        }
        match (fst, snd) {
            (None, None) => None,
            (Some(f), None) => Some(f.concat(&self.snd_empty_output)),
            (None, Some(s)) => Some(self.fst_empty_output.concat(&s)),
            (Some(f), Some(s)) => Some(f.concat(&s)),
        }
    }

    /// The results of the pair for a batch, given the results of the two
    /// geocoders for it: those of each address combined.
    ///
    /// It is an error if the two have returned different numbers of
    /// results.
    pub fn combine(&self, fst: Vec<Option<Geocoded>>, snd: Vec<Option<Geocoded>>) -> (r: Result<
        Vec<Option<Geocoded>>,
        DifferentNumbersOfResults,
    >)
        ensures
            fst@.len() != snd@.len() ==> r == Err::<
                Vec<Option<Geocoded>>,
                DifferentNumbersOfResults,
            >(DifferentNumbersOfResults { fst: fst@.len() as usize, snd: snd@.len() as usize }),
            fst@.len() == snd@.len() ==> (r matches Ok(results) && results@.len() == fst@.len()
                && forall|i: int|
                0 <= i < results@.len() ==> optional_values(#[trigger] results@[i]) == combined(
                    self.fst_columns(),
                    self.snd_columns(),
                    optional_values(fst@[i]),
                    optional_values(snd@[i]),
                )),
    {
        if fst.len() != snd.len() {
            return Err(DifferentNumbersOfResults { fst: fst.len(), snd: snd.len() });
        }
        let n = fst.len();
        let ghost firsts = fst@;
        let ghost seconds = snd@;
        let mut results: Vec<Option<Geocoded>> = Vec::new();
        let mut snd = snd;
        let mut taken: Vec<Option<Geocoded>> = Vec::new();
        // The results of the second geocoder are taken from the end, so
        // that each can be moved out in its turn.
        let mut j: usize = n;
        while j > 0
            invariant
                j <= n,
                snd@.len() == j,
                taken@.len() == n - j,
                forall|k: int| 0 <= k < j ==> snd@[k] == seconds[k],
                forall|k: int| 0 <= k < n - j ==> #[trigger] taken@[k] == seconds[n - 1 - k],
            decreases j,
        {
            let ghost before = snd@;
            match snd.pop() {
                Some(last) => {
                    taken.push(last);
                },
                None => {},
            }
            j -= 1;
        }
        let mut i: usize = 0;
        for f in it: fst.into_iter()
            invariant
                it.seq() == firsts,
                firsts.len() == n,
                seconds.len() == n,
                i == it.index(),
                taken@.len() == n - i,
                forall|k: int| 0 <= k < n - i ==> #[trigger] taken@[k] == seconds[n - 1 - k],
                results@.len() == i,
                forall|k: int|
                    0 <= k < i ==> optional_values(#[trigger] results@[k]) == combined(
                        self.fst_columns(),
                        self.snd_columns(),
                        optional_values(firsts[k]),
                        optional_values(seconds[k]),
                    ),
        {
            let ghost before = taken@;
            let s = match taken.pop() {
                Some(s) => s,
                None => None,
            };
            assert(s == seconds[i as int]) by {
                assert(before[n - i - 1] == seconds[n - 1 - (n - i - 1)]);
            }
            assert(forall|k: int| 0 <= k < n - i - 1 ==> taken@[k] == before[k]);
            results.push(self.combine_geocoder_results(f, s));
            i += 1;
        }
        Ok(results)
    }
}

impl Geocoder for Paired {
    closed spec fn tag_text(&self) -> Seq<char> {
        "pair"@
    }

    closed spec fn configuration_key_text(&self) -> Seq<char> {
        self.config_key@
    }

    closed spec fn column_name_texts(&self) -> Seq<Seq<char>> {
        views(self.column_names@)
    }

    fn tag(&self) -> (tag: &str) {
        "pair"
    }

    fn configuration_key(&self) -> (key: &str) {
        self.config_key.as_str()
    }

    fn column_names(&self) -> (names: &[String]) {
        self.column_names.as_slice()
    }
}

} // verus!
