//! The rules of the streaming pipeline: how the header of the input decides
//! what is read and written, how rows are grouped into chunks, how a chunk
//! is geocoded and retried, and what the writer does with what arrives.
//! Reading, writing, waiting and the channels between the tasks belong to
//! the program around the library.

use vstd::prelude::*;

use crate::addresses::all_names;
use crate::addresses::colliding_columns;
use crate::addresses::column_views;
use crate::addresses::first_out_of_range;
use crate::addresses::first_unknown;
use crate::addresses::lemma_output_names_prefix;
use crate::addresses::output_names;
use crate::addresses::str_views;
use crate::addresses::strictly_sorted;
use crate::addresses::Address;
use crate::addresses::AddressColumnKeys;
use crate::addresses::AddressColumnSpec;
use crate::addresses::AddressText;
use crate::addresses::SpecError;
use crate::geocoders::empty_values;
use crate::geocoders::result_values;
use crate::geocoders::Geocoded;
use crate::geocoders::Geocoder;
use crate::record::record_fields;
use crate::sequences::first_not;
use crate::sequences::first_repeat;
use crate::sequences::lemma_first_not_concat;
use crate::sequences::lemma_first_not_single;
use crate::text::str_eq;
use crate::text::views;

verus! {

/// The number of chunks to buffer on each internal channel.
pub const CHANNEL_BUFFER: usize = 8;

/// The number of chunks that may be geocoded at the same time.
pub const CONCURRENCY: usize = 48;

/// The number of addresses to pass to a geocoder at one time.
pub const GEOCODE_SIZE: usize = 72;

/// The greatest number of chunks expected to exist at any one time: the
/// workers may hold one each, either channel may buffer `CHANNEL_BUFFER`,
/// reader and writer may hold one each, and ten are allowed for what is
/// overlooked. More than this means that backpressure does not work.
pub const MAX_EXPECTED_CHUNKS: usize = CHANNEL_BUFFER * 2 + CONCURRENCY + 2 + 10;

/// What should be done if a geocoding output column has the same name as a
/// column in the input?
#[derive(Debug, Clone, Copy, PartialEq, Eq, Structural)]
pub enum OnDuplicateColumns {
    /// Fail with an error.
    Error,
    /// Replace existing columns with the same name.
    Replace,
    /// Leave the old columns in place and append the new ones.
    Append,
}

impl OnDuplicateColumns {
    /// The policy that a name stands for, if it is the name of one.
    pub open spec fn named(name: Seq<char>) -> Option<OnDuplicateColumns> {
        if name == "error"@ {
            Some(OnDuplicateColumns::Error)
        } else if name == "replace"@ {
            Some(OnDuplicateColumns::Replace)
        } else if name == "append"@ {
            Some(OnDuplicateColumns::Append)
        } else {
            None
        }
    }

    /// The policy with the given name: `error`, `replace` or `append`.
    pub fn parse(s: &str) -> (r: Option<OnDuplicateColumns>)
        ensures
            r == OnDuplicateColumns::named(s@),
    {
        if str_eq(s, "error") {
            Some(OnDuplicateColumns::Error)
        } else if str_eq(s, "replace") {
            Some(OnDuplicateColumns::Replace)
        } else if str_eq(s, "append") {
            Some(OnDuplicateColumns::Append)
        } else {
            None
        }
    }
}

/// What stops the pipeline.
#[derive(Debug, PartialEq, Eq)]
pub enum PipelineError {
    /// The column specification does not fit the input or the geocoder.
    Spec(SpecError),
    /// These input columns would conflict with geocoding columns.
    ConflictingColumns(Vec<String>),
    /// The geocoder returned another number of results than it was given
    /// addresses.
    WrongNumberOfResults { found: usize, expected: usize },
    /// The channel closed before the end of the stream was announced:
    /// the geocoder or the reader has failed.
    MissingEndOfStream,
    /// More chunks exist than are expected at any one time.
    TooManyChunks { found: usize },
    /// A chunk was given up that had not been counted.
    NoChunkToRelease,
}

/// The fields of a row whose flag is not set, in order. Fields without a
/// flag, and flags without a field, are left out.
pub open spec fn kept(row: Seq<Seq<char>>, flags: Seq<bool>) -> Seq<Seq<char>>
    decreases row.len(),
{
    if row.len() == 0 || flags.len() == 0 {
        Seq::empty()
    } else if flags.first() {
        kept(row.drop_first(), flags.drop_first())
    } else {
        seq![row.first()] + kept(row.drop_first(), flags.drop_first())
    }
}

/// For each column of a header, whether its name is among `names`.
pub open spec fn collision_flags(header: Seq<Seq<char>>, names: Seq<Seq<char>>) -> Seq<bool> {
    Seq::new(header.len(), |i: int| names.contains(header[i]))
}

/// The names of a list of columns.
pub open spec fn column_names_of(columns: Seq<(Seq<char>, usize)>) -> Seq<Seq<char>> {
    Seq::new(columns.len(), |i: int| columns[i].0)
}

/// The header that the column specification is resolved against, and that
/// the output begins with: under `Replace` the input header without the
/// columns that collide with output columns, else the input header.
pub open spec fn planned_header(
    header: Seq<Seq<char>>,
    names: Seq<Seq<char>>,
    policy: OnDuplicateColumns,
) -> Seq<Seq<char>> {
    if policy == OnDuplicateColumns::Replace {
        kept(header, collision_flags(header, names))
    } else {
        header
    }
}

/// The number of rows in a chunk, for a specification with the given number
/// of prefixes: as many as give no more than `GEOCODE_SIZE` addresses, and
/// at least one.
pub open spec fn chunk_size_for(prefix_count: nat) -> nat {
    let per_row = if prefix_count == 0 {
        1
    } else {
        prefix_count
    };
    if GEOCODE_SIZE as nat / per_row == 0 {
        1
    } else {
        GEOCODE_SIZE as nat / per_row
    }
}

/// Skipping flags that are not set keeps every field.
pub proof fn lemma_kept_without_flags(row: Seq<Seq<char>>, flags: Seq<bool>)
    requires
        flags.len() == row.len(),
        forall|i: int| 0 <= i < flags.len() ==> !#[trigger] flags[i],
    ensures
        kept(row, flags) == row,
    decreases row.len(),
{
    if row.len() > 0 {
        let rest = row.drop_first();
        let rest_flags = flags.drop_first();
        assert forall|i: int| 0 <= i < rest_flags.len() implies !#[trigger] rest_flags[i] by {
            assert(rest_flags[i] == flags[i + 1]);
        }
        lemma_kept_without_flags(rest, rest_flags);
        assert(!flags[0]);
        assert(row =~= seq![row.first()] + rest);
    } else {
        assert(row =~= Seq::<Seq<char>>::empty());
    }
}

/// The colliding columns of a header are its columns with a name among
/// `names`: each with its own index, and each such column is among them.
pub proof fn lemma_colliding_columns(header: Seq<Seq<char>>, names: Seq<Seq<char>>)
    requires
        header.len() <= usize::MAX,
    ensures
        forall|k: int|
            0 <= k < colliding_columns(header, names).len() ==> ({
                let column = #[trigger] colliding_columns(header, names)[k];
                column.1 < header.len() && header[column.1 as int] == column.0 && names.contains(
                    column.0,
                )
            }),
        forall|i: int|
            0 <= i < header.len() && names.contains(#[trigger] header[i]) ==> exists|k: int|
                0 <= k < colliding_columns(header, names).len() && (#[trigger] colliding_columns(
                    header,
                    names,
                )[k]).1 == i,
        colliding_columns(header, names).len() == 0 <==> forall|i: int|
            0 <= i < header.len() ==> !names.contains(#[trigger] header[i]),
    decreases header.len(),
{
    if header.len() > 0 {
        let front = header.drop_last();
        lemma_colliding_columns(front, names);
        let before = colliding_columns(front, names);
        let all = colliding_columns(header, names);
        assert forall|k: int| 0 <= k < all.len() implies ({
            let column = #[trigger] all[k];
            column.1 < header.len() && header[column.1 as int] == column.0 && names.contains(
                column.0,
            )
        }) by {
            if k < before.len() {
                assert(all[k] == before[k]);
                assert(front[before[k].1 as int] == header[before[k].1 as int]);
            }
        }
        assert forall|i: int|
            0 <= i < header.len() && names.contains(#[trigger] header[i]) implies exists|k: int|
            0 <= k < all.len() && (#[trigger] all[k]).1 == i by {
            if i < front.len() {
                assert(front[i] == header[i]);
                let k = choose|k: int| 0 <= k < before.len() && (#[trigger] before[k]).1 == i;
                assert(all[k] == before[k]);
            } else {
                assert(all[all.len() - 1].1 == i);
            }
        }
        if all.len() == 0 {
            assert forall|i: int| 0 <= i < header.len() implies !names.contains(
                #[trigger] header[i],
            ) by {
                if i < front.len() {
                    assert(front[i] == header[i]);
                }
            }
        } else {
            let column = all[0];
            assert(names.contains(header[column.1 as int]));
        }
    }
}

/// Remove the columns from `row` whose flag in `remove_column_flags` is set.
pub fn remove_columns(row: &csv::StringRecord, remove_column_flags: &[bool]) -> (kept_row:
    csv::StringRecord)
    ensures
        record_fields(&kept_row) == kept(record_fields(row), remove_column_flags@),
{
    let ghost fields = record_fields(row);
    let ghost flags = remove_column_flags@;
    let mut kept_row = csv::StringRecord::new();
    let n = if row.len() < remove_column_flags.len() {
        row.len()
    } else {
        remove_column_flags.len()
    };
    let mut i: usize = 0;
    assert(fields.skip(0) == fields && flags.skip(0) == flags);
    while i < n
        invariant
            i <= n,
            n <= fields.len(),
            n <= flags.len(),
            n == fields.len() || n == flags.len(),
            fields == record_fields(row),
            flags == remove_column_flags@,
            kept(fields, flags) == record_fields(&kept_row) + kept(
                fields.skip(i as int),
                flags.skip(i as int),
            ),
        decreases n - i,
    {
        proof {
            assert(fields.skip(i as int).drop_first() =~= fields.skip(i + 1));
            assert(flags.skip(i as int).drop_first() =~= flags.skip(i + 1));
            assert(fields.skip(i as int).first() == fields[i as int]);
            assert(flags.skip(i as int).first() == flags[i as int]);
        }
        let ghost before = record_fields(&kept_row);
        if !remove_column_flags[i] {
            match row.get(i) {
                Some(value) => {
                    kept_row.push_field(value);
                    assert(record_fields(&kept_row) =~= before + seq![fields[i as int]]);
                },
                None => {},
            }
        }
        assert(kept(fields, flags) =~= record_fields(&kept_row) + kept(
            fields.skip(i + 1),
            flags.skip(i + 1),
        ));
        i += 1;
    }
    assert(kept(fields.skip(n as int), flags.skip(n as int)) =~= Seq::<Seq<char>>::empty());
    assert(record_fields(&kept_row) + Seq::<Seq<char>>::empty() =~= record_fields(&kept_row));
    kept_row
}

/// What the header of the input decides for the whole run.
#[derive(Debug)]
pub struct InputPlan {
    /// Whether columns are removed from the header and from every row.
    pub should_remove_columns: bool,
    /// For each input column, whether it is removed.
    pub remove_column_flags: Vec<bool>,
    /// The input columns that have the name of an output column.
    pub duplicate_column_names: Vec<String>,
    /// Which columns, by index after the removal, hold the addresses.
    pub spec: AddressColumnSpec<usize>,
    /// The number of rows in a chunk.
    pub chunk_size: usize,
    /// The header of the output.
    pub out_headers: csv::StringRecord,
}

impl InputPlan {
    /// Whether this is the plan for the given specification, geocoder
    /// columns, policy and input header: the colliding columns are removed
    /// under `Replace` only; the keys are resolved against the header that
    /// is left; and the output header is that header followed, for each
    /// prefix in lexicographic order, by the geocoder's columns behind
    /// that prefix.
    pub open spec fn fits(
        &self,
        spec: &AddressColumnSpec<String>,
        column_names: Seq<Seq<char>>,
        policy: OnDuplicateColumns,
        header: Seq<Seq<char>>,
    ) -> bool {
        let names = output_names(spec.prefix_texts(), column_names);
        let collisions = colliding_columns(header, names);
        let left = planned_header(header, names, policy);
        &&& self.should_remove_columns == (collisions.len() > 0 && policy
            == OnDuplicateColumns::Replace)
        &&& self.remove_column_flags@ == if self.should_remove_columns {
            collision_flags(header, names)
        } else {
            Seq::new(header.len(), |i: int| false)
        }
        &&& views(self.duplicate_column_names@) == column_names_of(collisions)
        &&& self.spec.wf()
        &&& self.spec.prefix_texts() == spec.prefix_texts()
        &&& forall|i: int|
            0 <= i < spec.keys().len() ==> (#[trigger] spec.keys()[i]).resolves_to(
                self.spec.keys()[i],
                left,
            )
        &&& self.chunk_size == chunk_size_for(spec.entries().len())
        &&& record_fields(&self.out_headers) == left + names
    }
}

/// Decide, from the header of the input, what is read and what is written.
///
/// Fails where two output columns would have the same name; where input
/// columns have the names of output columns and the policy is `Error`;
/// where the header that is left holds a name twice; and where the
/// specification names a column that this header does not hold.
pub fn plan_input<G: Geocoder>(
    spec: &AddressColumnSpec<String>,
    geocoder: &G,
    on_duplicate_columns: OnDuplicateColumns,
    in_headers: &csv::StringRecord,
) -> (r: Result<InputPlan, PipelineError>)
    ensures
        strictly_sorted(spec.prefix_texts()),
        ({
            let names = output_names(spec.prefix_texts(), geocoder.column_name_texts());
            let header = record_fields(in_headers);
            let collisions = colliding_columns(header, names);
            let left = planned_header(header, names, on_duplicate_columns);
            match first_repeat(names) {
                Some(j) => r matches Err(
                    PipelineError::Spec(SpecError::DuplicateOutputColumn(name)),
                ) && name@ == names[j],
                None => if collisions.len() > 0 && on_duplicate_columns
                    == OnDuplicateColumns::Error {
                    r matches Err(PipelineError::ConflictingColumns(list)) && views(list@)
                        == column_names_of(collisions)
                } else {
                    match first_repeat(left) {
                        Some(j) => r matches Err(
                            PipelineError::Spec(SpecError::DuplicateHeader(name)),
                        ) && name@ == left[j],
                        None => match first_unknown(all_names(spec.keys()), left) {
                            Some(unknown) => r matches Err(
                                PipelineError::Spec(SpecError::UnknownColumn(name)),
                            ) && name@ == unknown,
                            None => r matches Ok(plan) && plan.fits(
                                spec,
                                geocoder.column_name_texts(),
                                on_duplicate_columns,
                                header,
                            ),
                        },
                    }
                },
            }
        }),
{
    let ghost names = output_names(spec.prefix_texts(), geocoder.column_name_texts());
    let ghost header = record_fields(in_headers);
    let ghost collisions = colliding_columns(header, names);
    let sorted_prefixes = spec.prefixes();

    // Figure out if there are any duplicate columns.
    let duplicate_columns = match spec.duplicate_columns(geocoder, in_headers) {
        Ok(duplicate_columns) => duplicate_columns,
        Err(e) => {
            return Err(PipelineError::Spec(e));
        },
    };
    let mut duplicate_column_names: Vec<String> = Vec::new();
    let mut k: usize = 0;
    while k < duplicate_columns.len()
        invariant
            k <= duplicate_columns.len(),
            column_views(duplicate_columns@) == collisions,
            duplicate_column_names@.len() == k,
            forall|q: int| 0 <= q < k ==> (#[trigger] duplicate_column_names@[q])@ == collisions[q].0,
        decreases duplicate_columns.len() - k,
    {
        assert(column_views(duplicate_columns@)[k as int] == collisions[k as int]);
        duplicate_column_names.push(duplicate_columns[k].0.to_owned());
        k += 1;
    }
    assert(views(duplicate_column_names@) =~= column_names_of(collisions));

    // If there are, figure out what to do about it.
    let mut should_remove_columns = false;
    let mut remove_column_flags: Vec<bool> = Vec::new();
    let header_len = in_headers.len();
    let mut i: usize = 0;
    while i < header_len
        invariant
            i <= header_len,
            remove_column_flags@ == Seq::new(i as nat, |q: int| false),
        decreases header_len - i,
    {
        remove_column_flags.push(false);
        i += 1;
        assert(remove_column_flags@ =~= Seq::new(i as nat, |q: int| false));
    }
    if duplicate_columns.len() > 0 {
        match on_duplicate_columns {
            OnDuplicateColumns::Error => {
                return Err(PipelineError::ConflictingColumns(duplicate_column_names));
            },
            OnDuplicateColumns::Replace => {
                should_remove_columns = true;
                proof {
                    lemma_colliding_columns(header, names);
                }
                let mut k: usize = 0;
                while k < duplicate_columns.len()
                    invariant
                        k <= duplicate_columns.len(),
                        column_views(duplicate_columns@) == collisions,
                        collisions == colliding_columns(header, names),
                        remove_column_flags@.len() == header.len(),
                        forall|q: int|
                            0 <= q < collisions.len() ==> (#[trigger] collisions[q]).1
                                < header.len() && names.contains(header[collisions[q].1 as int]),
                        forall|q: int|
                            0 <= q < header.len() ==> (#[trigger] remove_column_flags@[q]) == (
                            exists|c: int| 0 <= c < k && (#[trigger] collisions[c]).1 == q),
                    decreases duplicate_columns.len() - k,
                {
                    assert(column_views(duplicate_columns@)[k as int] == collisions[k as int]);
                    let index = duplicate_columns[k].1;
                    let ghost before = remove_column_flags@;
                    remove_column_flags.set(index, true);
                    assert forall|q: int| 0 <= q < header.len() implies (
                    #[trigger] remove_column_flags@[q]) == (exists|c: int|
                        0 <= c < k + 1 && (#[trigger] collisions[c]).1 == q) by {
                        if q == index {
                            assert(collisions[k as int].1 == q);
                        } else {
                            assert(remove_column_flags@[q] == before[q]);
                            if exists|c: int| 0 <= c < k + 1 && (#[trigger] collisions[c]).1 == q {
                                let c = choose|c: int|
                                    0 <= c < k + 1 && (#[trigger] collisions[c]).1 == q;
                                assert(c < k);
                            }
                        }
                    }
                    k += 1;
                }
                assert(remove_column_flags@ =~= collision_flags(header, names)) by {
                    assert forall|q: int| 0 <= q < header.len() implies remove_column_flags@[q]
                        == names.contains(header[q]) by {
                        if names.contains(header[q]) {
                            let c = choose|c: int|
                                0 <= c < collisions.len() && (#[trigger] collisions[c]).1 == q;
                            assert(collisions[c].1 == q);
                        } else if remove_column_flags@[q] {
                            let c = choose|c: int|
                                0 <= c < collisions.len() && (#[trigger] collisions[c]).1 == q;
                            assert(names.contains(header[collisions[c].1 as int]));
                        }
                    }
                }
            },
            OnDuplicateColumns::Append => {},
        }
    }
    let ghost left = planned_header(header, names, on_duplicate_columns);

    // Remove any duplicate columns from the input headers.
    let kept_headers = remove_columns(in_headers, remove_column_flags.as_slice());
    proof {
        if !should_remove_columns {
            lemma_kept_without_flags(header, remove_column_flags@);
            if on_duplicate_columns == OnDuplicateColumns::Replace {
                lemma_colliding_columns(header, names);
                assert(collision_flags(header, names) =~= remove_column_flags@);
            }
        }
        assert(record_fields(&kept_headers) == left);
    }

    // Convert the column spec from header names to header indices. This
    // has to happen after the removal of columns.
    let indexed = match spec.convert_to_indices_using_headers(&kept_headers) {
        Ok(indexed) => indexed,
        Err(e) => {
            return Err(PipelineError::Spec(e));
        },
    };

    // Decide how big to make the chunks.
    let prefix_count = spec.prefix_count();
    let per_row: usize = if prefix_count == 0 {
        1
    } else {
        prefix_count
    };
    let chunk_size: usize = if GEOCODE_SIZE / per_row == 0 {
        1
    } else {
        GEOCODE_SIZE / per_row
    };

    // Build the output headers.
    let mut out_headers = kept_headers;
    let prefixes = sorted_prefixes;
    let ghost prefix_texts = spec.prefix_texts();
    let ghost column_texts = geocoder.column_name_texts();
    let mut p: usize = 0;
    assert(prefix_texts.take(0) =~= Seq::<Seq<char>>::empty());
    assert(record_fields(&out_headers) =~= left + output_names(prefix_texts.take(0), column_texts));
    while p < prefixes.len()
        invariant
            p <= prefixes.len(),
            str_views(prefixes@) == prefix_texts,
            column_texts == geocoder.column_name_texts(),
            record_fields(&out_headers) == left + output_names(
                prefix_texts.take(p as int),
                column_texts,
            ),
        decreases prefixes.len() - p,
    {
        proof {
            assert(prefix_texts[p as int] == prefixes@[p as int]@);
            lemma_output_names_prefix(prefix_texts, column_texts, p as int, 0);
        }
        geocoder.add_header_columns(prefixes[p], &mut out_headers);
        p += 1;
        assert(record_fields(&out_headers) =~= left + output_names(
            prefix_texts.take(p as int),
            column_texts,
        ));
    }
    assert(prefix_texts.take(prefix_texts.len() as int) == prefix_texts);
    Ok(
        InputPlan {
            should_remove_columns,
            remove_column_flags,
            duplicate_column_names,
            spec: indexed,
            chunk_size,
            out_headers,
        },
    )
}

/// The chunks that a stream of rows is sent in: each of `size` rows, but for
/// the last, which may have fewer. A stream without rows is sent as one
/// chunk without rows, which carries the header.
pub open spec fn chunked<T>(rows: Seq<T>, size: nat) -> Seq<Seq<T>>
    recommends
        size >= 1,
    decreases rows.len(),
{
    if rows.len() <= size || size == 0 {
        seq![rows]
    } else {
        seq![rows.take(size as int)] + chunked(rows.skip(size as int), size)
    }
}

/// The chunks that follow the first: none for no rows.
pub open spec fn chunked_more<T>(rows: Seq<T>, size: nat) -> Seq<Seq<T>> {
    if rows.len() == 0 {
        Seq::empty()
    } else {
        chunked(rows, size)
    }
}

/// The rows of a list of chunks, in order.
pub open spec fn concatenated<T>(chunks: Seq<Seq<T>>) -> Seq<T>
    decreases chunks.len(),
{
    if chunks.len() == 0 {
        Seq::empty()
    } else {
        chunks.first() + concatenated(chunks.drop_first())
    }
}

/// Chunking loses no row, adds none and keeps the order of the rows: the
/// rows of the chunks, in order, are the rows of the stream. There is
/// always a chunk, and no chunk has more than `size` rows.
pub proof fn lemma_chunks_hold_the_rows<T>(rows: Seq<T>, size: nat)
    requires
        size >= 1,
    ensures
        concatenated(chunked(rows, size)) == rows,
        chunked(rows, size).len() >= 1,
        forall|c: int|
            0 <= c < chunked(rows, size).len() ==> (#[trigger] chunked(rows, size)[c]).len()
                <= size,
    decreases rows.len(),
{
    let chunks = chunked(rows, size);
    reveal_with_fuel(concatenated, 2);
    if rows.len() <= size {
        assert(chunks.drop_first() =~= Seq::<Seq<T>>::empty());
        assert(concatenated(chunks) =~= rows);
    } else {
        let rest = rows.skip(size as int);
        lemma_chunks_hold_the_rows(rest, size);
        assert(chunks.drop_first() =~= chunked(rest, size));
        assert(concatenated(chunks) =~= rows);
        assert forall|c: int| 0 <= c < chunks.len() implies (#[trigger] chunks[c]).len()
            <= size by {
            if c > 0 {
                assert(chunks[c] == chunked(rest, size)[c - 1]);
            }
        }
    }
}

/// Chunks that are geocoded one by one, each keeping its rows in their
/// places, give the rows of the stream in their places: there are as many
/// rows after as before, and the row at any place after is the row that
/// stood at this place before, as `geocoded_from` relates the two.
pub proof fn lemma_geocoded_chunks_keep_the_rows<T, U>(
    chunks: Seq<Seq<T>>,
    geocoded: Seq<Seq<U>>,
    geocoded_from: spec_fn(T, U) -> bool,
)
    requires
        geocoded.len() == chunks.len(),
        forall|c: int|
            0 <= c < chunks.len() ==> (#[trigger] geocoded[c]).len() == (#[trigger] chunks[c]).len(),
        forall|c: int, r: int|
            0 <= c < chunks.len() && 0 <= r < chunks[c].len() ==> geocoded_from(
                #[trigger] chunks[c][r],
                #[trigger] geocoded[c][r],
            ),
    ensures
        concatenated(geocoded).len() == concatenated(chunks).len(),
        forall|i: int|
            0 <= i < concatenated(chunks).len() ==> geocoded_from(
                #[trigger] concatenated(chunks)[i],
                concatenated(geocoded)[i],
            ),
    decreases chunks.len(),
{
    if chunks.len() > 0 {
        let rest = chunks.drop_first();
        let geocoded_rest = geocoded.drop_first();
        assert forall|c: int| 0 <= c < rest.len() implies (#[trigger] geocoded_rest[c]).len() == (
        #[trigger] rest[c]).len() by {
            assert(geocoded[c + 1].len() == chunks[c + 1].len());
        }
        assert forall|c: int, r: int| 0 <= c < rest.len() && 0 <= r < rest[c].len() implies geocoded_from(
            #[trigger] rest[c][r],
            #[trigger] geocoded_rest[c][r],
        ) by {
            assert(geocoded_from(chunks[c + 1][r], geocoded[c + 1][r]));
        }
        lemma_geocoded_chunks_keep_the_rows(rest, geocoded_rest, geocoded_from);
        assert(geocoded[0].len() == chunks[0].len());
        assert forall|i: int| 0 <= i < concatenated(chunks).len() implies geocoded_from(
            #[trigger] concatenated(chunks)[i],
            concatenated(geocoded)[i],
        ) by {
            if i < chunks[0].len() {
                assert(geocoded_from(chunks[0][i], geocoded[0][i]));
            } else {
                let j = i - chunks[0].len();
                assert(concatenated(chunks)[i] == concatenated(rest)[j]);
                assert(concatenated(geocoded)[i] == concatenated(geocoded_rest)[j]);
            }
        }
    }
}

/// A stream of at least `size` rows is sent as its first `size` rows and
/// the chunks of the rest.
proof fn lemma_chunked_unfold<T>(rows: Seq<T>, size: nat)
    requires
        size >= 1,
        rows.len() >= size,
    ensures
        chunked(rows, size) == seq![rows.take(size as int)] + chunked_more(
            rows.skip(size as int),
            size,
        ),
{
    if rows.len() == size {
        assert(rows.take(size as int) =~= rows);
        assert(seq![rows] + Seq::<Seq<T>>::empty() =~= seq![rows]);
    }
}

/// Groups the rows of a stream into chunks, as they arrive.
#[derive(Debug)]
pub struct Chunker {
    chunk_size: usize,
    rows: Vec<csv::StringRecord>,
    sent_chunk: bool,
}

impl Chunker {
    /// The number of rows in a full chunk.
    pub closed spec fn chunk_size(&self) -> nat {
        self.chunk_size as nat
    }

    /// The rows that have arrived since the last chunk was sent.
    pub closed spec fn pending(&self) -> Seq<csv::StringRecord> {
        self.rows@
    }

    /// Whether a chunk has been sent.
    pub closed spec fn sent_chunk(&self) -> bool {
        self.sent_chunk
    }

    /// A chunk has a row at least, and fewer rows than a chunk wait.
    pub open spec fn wf(&self) -> bool {
        self.chunk_size() >= 1 && self.pending().len() < self.chunk_size()
    }

    #[verifier::type_invariant]
    spec fn consistent(&self) -> bool {
        self.wf()
    }

    /// A chunker for chunks of `chunk_size` rows, and of one row where
    /// `chunk_size` is zero.
    pub fn new(chunk_size: usize) -> (chunker: Chunker)
        ensures
            chunker.wf(),
            chunker.chunk_size() == if chunk_size == 0 {
                1
            } else {
                chunk_size as nat
            },
            chunker.pending().len() == 0,
            !chunker.sent_chunk(),
    {
        let chunk_size: usize = if chunk_size == 0 {
            1
        } else {
            chunk_size
        };
        Chunker { chunk_size, rows: Vec::new(), sent_chunk: false }
    }

    /// Takes the next row of the stream. A chunk is handed out as soon as
    /// it is full.
    pub fn push(self, row: csv::StringRecord) -> (next: (Chunker, Option<Vec<csv::StringRecord>>))
        ensures
            next.0.wf(),
            next.0.chunk_size() == self.chunk_size(),
            if self.pending().len() + 1 >= self.chunk_size() {
                next.1 is Some && next.1->0@ == self.pending().push(row) && next.0.pending().len()
                    == 0 && next.0.sent_chunk()
            } else {
                next.1 is None && next.0.pending() == self.pending().push(row)
                    && next.0.sent_chunk() == self.sent_chunk()
            },
    {
        proof {
            use_type_invariant(&self);
        }
        let mut rows = self.rows;
        rows.push(row);
        if rows.len() >= self.chunk_size {
            (Chunker { chunk_size: self.chunk_size, rows: Vec::new(), sent_chunk: true }, Some(rows))
        } else {
            (Chunker { chunk_size: self.chunk_size, rows, sent_chunk: self.sent_chunk }, None)
        }
    }

    /// Called at the end of the stream. The rows that wait are handed out
    /// as a last chunk; so is a chunk without rows where none has been sent
    /// yet, to carry the header.
    pub fn finish(self) -> (last: Option<Vec<csv::StringRecord>>)
        ensures
            !self.sent_chunk() || self.pending().len() > 0 ==> last is Some && last->0@
                == self.pending(),
            self.sent_chunk() && self.pending().len() == 0 ==> last is None,
    {
        if !self.sent_chunk || self.rows.len() > 0 {
            Some(self.rows)
        } else {
            None
        }
    }
}

/// The rows of each of a list of chunks.
pub open spec fn chunk_views(chunks: Seq<Vec<csv::StringRecord>>) -> Seq<Seq<csv::StringRecord>> {
    Seq::new(chunks.len(), |i: int| chunks[i]@)
}

/// The chunks that the rows of a whole input are sent in.
pub fn chunk_rows(rows: Vec<csv::StringRecord>, chunk_size: usize) -> (chunks: Vec<
    Vec<csv::StringRecord>,
>)
    ensures
        chunk_views(chunks@) == chunked(
            rows@,
            if chunk_size == 0 {
                1
            } else {
                chunk_size as nat
            },
        ),
{
    let ghost all = rows@;
    let ghost size: nat = if chunk_size == 0 {
        1
    } else {
        chunk_size as nat
    };
    let mut chunker = Chunker::new(chunk_size);
    let mut chunks: Vec<Vec<csv::StringRecord>> = Vec::new();
    let mut i: usize = 0;
    let n = rows.len();
    let ghost mut start: int = 0;
    assert(all.skip(0) == all);
    for row in it: rows.into_iter()
        invariant
            it.seq() == all,
            i == it.index(),
            all.len() == n,
            size >= 1,
            chunker.wf(),
            chunker.chunk_size() == size,
            0 <= start <= i,
            chunker.pending() == all.subrange(start, i as int),
            chunker.sent_chunk() ==> chunked(all, size) == chunk_views(chunks@) + chunked_more(
                all.skip(start),
                size,
            ),
            !chunker.sent_chunk() ==> start == 0 && chunks@.len() == 0,
    {
        let ghost before = chunk_views(chunks@);
        let ghost pending = chunker.pending();
        let ghost old_sent = chunker.sent_chunk();
        let (next, full) = chunker.push(row);
        chunker = next;
        proof {
            assert(pending.push(all[i as int]) =~= all.subrange(start, i + 1));
        }
        match full {
            Some(chunk) => {
                proof {
                    let rest = all.skip(start);
                    assert(rest.take(size as int) =~= all.subrange(start, i + 1));
                    assert(rest.skip(size as int) =~= all.skip(i + 1));
                    lemma_chunked_unfold(rest, size);
                }
                chunks.push(chunk);
                proof {
                    let sent = all.subrange(start, i + 1);
                    let more = chunked_more(all.skip(i + 1), size);
                    assert(chunk_views(chunks@) =~= before + seq![sent]);
                    assert(chunked_more(all.skip(start), size) == seq![sent] + more);
                    assert(before + (seq![sent] + more) =~= (before + seq![sent]) + more);
                    assert(Seq::<Seq<csv::StringRecord>>::empty() + (seq![sent] + more) =~= seq![
                        sent,
                    ] + more);
                    if !old_sent {
                        assert(all.skip(0) =~= all);
                        assert(before =~= Seq::<Seq<csv::StringRecord>>::empty());
                        assert(chunk_views(chunks@) =~= seq![sent]);
                    }
                    start = i + 1;
                    assert(all.subrange(start, i + 1) =~= Seq::<csv::StringRecord>::empty());
                }
            },
            None => {},
        }
        i += 1;
    }
    let ghost before = chunk_views(chunks@);
    proof {
        assert(all.skip(start) =~= all.subrange(start, n as int));
    }
    match chunker.finish() {
        Some(chunk) => {
            chunks.push(chunk);
            assert(chunk_views(chunks@) =~= before + seq![all.skip(start)]);
        },
        None => {},
    }
    assert(chunk_views(chunks@) =~= chunked(all, size));
    chunks
}

/// The fields of each of a list of rows.
pub open spec fn row_fields(rows: Seq<csv::StringRecord>) -> Seq<Seq<Seq<char>>> {
    Seq::new(rows.len(), |r: int| record_fields(&rows[r]))
}

/// What comes of reading, with `keys`, the address of a row of the given
/// fields: the address, or the first index that the row does not have.
pub open spec fn extraction(keys: AddressColumnKeys<usize>, fields: Seq<Seq<char>>) -> Result<
    AddressText,
    SpecError,
> {
    match first_out_of_range(keys.indices(), fields.len()) {
        Some(k) => Err(SpecError::FieldOutOfRange(k)),
        None => Ok(keys.address_in(fields)),
    }
}

/// What comes of reading, with `keys`, the address of each row in turn.
pub open spec fn extractions_for(keys: AddressColumnKeys<usize>, rows: Seq<Seq<Seq<char>>>) -> Seq<
    Result<AddressText, SpecError>,
> {
    Seq::new(rows.len(), |r: int| extraction(keys, rows[r]))
}

/// What comes of reading the addresses of a chunk: for each prefix in
/// turn, the address of each row in turn.
pub open spec fn extractions(keys: Seq<AddressColumnKeys<usize>>, rows: Seq<Seq<Seq<char>>>) -> Seq<
    Result<AddressText, SpecError>,
>
    decreases keys.len(),
{
    if keys.len() == 0 {
        Seq::empty()
    } else {
        extractions(keys.drop_last(), rows) + extractions_for(keys.last(), rows)
    }
}

/// Whether an address could be read.
pub open spec fn extracted() -> spec_fn(Result<AddressText, SpecError>) -> bool {
    |r: Result<AddressText, SpecError>| r is Ok
}

/// A chunk gives one address for each prefix and row: the address of
/// prefix `p` and row `r` stands at `p * rows + r`.
pub proof fn lemma_extractions_layout(
    keys: Seq<AddressColumnKeys<usize>>,
    rows: Seq<Seq<Seq<char>>>,
)
    ensures
        extractions(keys, rows).len() == keys.len() * rows.len(),
        forall|p: int, r: int|
            0 <= p < keys.len() && 0 <= r < rows.len() ==> 0 <= p * rows.len() + r < extractions(
                keys,
                rows,
            ).len() && extractions(keys, rows)[p * rows.len() + r] == extraction(
                #[trigger] keys[p],
                #[trigger] rows[r],
            ),
    decreases keys.len(),
{
    if keys.len() > 0 {
        let front = keys.drop_last();
        lemma_extractions_layout(front, rows);
        let n = rows.len() as int;
        let m = front.len() as int;
        assert(keys.len() * rows.len() == m * n + n) by (nonlinear_arith)
            requires
                keys.len() == m + 1,
                rows.len() == n,
        ;
        assert forall|p: int, r: int| 0 <= p < keys.len() && 0 <= r < rows.len() implies 0 <= p
            * rows.len() + r < extractions(keys, rows).len() && extractions(keys, rows)[p
            * rows.len() + r] == extraction(#[trigger] keys[p], #[trigger] rows[r]) by {
            assert(0 <= p * n + r < m * n + n && (p < m ==> p * n + r < m * n) && (p == m ==> p * n
                + r == m * n + r)) by (nonlinear_arith)
                requires
                    0 <= p <= m,
                    0 <= r < n,
            ;
            if p < m {
                assert(front[p] == keys[p]);
                assert(extractions(front, rows)[p * n + r] == extraction(front[p], rows[r]));
            } else {
                assert(extractions_for(keys.last(), rows)[r] == extraction(keys[p], rows[r]));
            }
        }
    } else {
        assert(keys.len() * rows.len() == 0) by (nonlinear_arith)
            requires
                keys.len() == 0,
        ;
    }
}

/// The addresses of the first prefixes come first among those of all.
proof fn lemma_extractions_split(
    keys: Seq<AddressColumnKeys<usize>>,
    rows: Seq<Seq<Seq<char>>>,
    p: int,
)
    requires
        0 <= p <= keys.len(),
    ensures
        extractions(keys, rows) == extractions(keys.take(p), rows) + extractions(
            keys.skip(p),
            rows,
        ),
    decreases keys.len(),
{
    if p == keys.len() {
        assert(keys.take(p) =~= keys);
        assert(keys.skip(p) =~= Seq::<AddressColumnKeys<usize>>::empty());
        assert(extractions(keys, rows) + Seq::<Result<AddressText, SpecError>>::empty()
            =~= extractions(keys, rows));
    } else {
        let front = keys.drop_last();
        lemma_extractions_split(front, rows, p);
        assert(front.take(p) =~= keys.take(p));
        assert(keys.skip(p).drop_last() =~= front.skip(p));
        assert(keys.skip(p).last() == keys.last());
        let a = extractions(keys.take(p), rows);
        let b = extractions(front.skip(p), rows);
        let c = extractions_for(keys.last(), rows);
        assert((a + b) + c =~= a + (b + c));
    }
}

/// Build the list of addresses of a chunk: for each prefix in lexicographic
/// order, the address of each row in order. Fails on the first address
/// that cannot be read because a row is too short.
pub fn chunk_addresses(spec: &AddressColumnSpec<usize>, rows: &Vec<csv::StringRecord>) -> (r: Result<
    Vec<Address>,
    SpecError,
>)
    ensures
        ({
            let all = extractions(spec.keys(), row_fields(rows@));
            match first_not(all, extracted()) {
                Some(failed) => failed is Err && r == Err::<Vec<Address>, SpecError>(
                    failed->Err_0,
                ),
                None => r matches Ok(addresses) && addresses@.len() == all.len() && forall|i: int|
                    0 <= i < all.len() ==> all[i] == Ok::<AddressText, SpecError>(
                        #[trigger] addresses@[i]@,
                    ),
            }
        }),
{
    let ghost keys = spec.keys();
    let ghost fields = row_fields(rows@);
    let ghost all = extractions(keys, fields);
    let mut addresses: Vec<Address> = Vec::new();
    let prefix_count = spec.prefix_count();
    let mut p: usize = 0;
    assert(keys.take(0) =~= Seq::<AddressColumnKeys<usize>>::empty());
    while p < prefix_count
        invariant
            p <= prefix_count,
            prefix_count == spec.entries().len(),
            keys == spec.keys(),
            fields == row_fields(rows@),
            all == extractions(keys, fields),
            first_not(extractions(keys.take(p as int), fields), extracted()) is None,
            addresses@.len() == extractions(keys.take(p as int), fields).len(),
            forall|i: int|
                0 <= i < addresses@.len() ==> extractions(keys.take(p as int), fields)[i] == Ok::<
                    AddressText,
                    SpecError,
                >(#[trigger] addresses@[i]@),
        decreases prefix_count - p,
    {
        let column_keys = spec.keys_at(p);
        let ghost done = extractions(keys.take(p as int), fields);
        let ghost these = extractions_for(keys[p as int], fields);
        proof {
            assert(keys.take(p + 1).drop_last() =~= keys.take(p as int));
            assert(keys.take(p + 1).last() == keys[p as int]);
            assert(extractions(keys.take(p + 1), fields) == done + these);
            lemma_extractions_split(keys, fields, p + 1);
        }
        let mut r: usize = 0;
        assert(these.take(0) =~= Seq::<Result<AddressText, SpecError>>::empty());
        assert(done + these.take(0) =~= done);
        while r < rows.len()
            invariant
                r <= rows.len(),
                p < keys.len(),
                keys == spec.keys(),
                fields == row_fields(rows@),
                *column_keys == keys[p as int],
                these == extractions_for(keys[p as int], fields),
                all == extractions(keys, fields),
                all == (done + these) + extractions(keys.skip(p + 1), fields),
                first_not(done + these.take(r as int), extracted()) is None,
                addresses@.len() == done.len() + r,
                forall|i: int|
                    0 <= i < addresses@.len() ==> (done + these.take(r as int))[i] == Ok::<
                        AddressText,
                        SpecError,
                    >(#[trigger] addresses@[i]@),
            decreases rows.len() - r,
        {
            let ghost so_far = done + these.take(r as int);
            let ghost before = addresses@;
            proof {
                assert(fields[r as int] == record_fields(&rows@[r as int]));
                assert(these[r as int] == extraction(keys[p as int], fields[r as int]));
                assert(done + these.take(r + 1) =~= so_far + seq![these[r as int]]);
                lemma_first_not_concat(so_far, seq![these[r as int]], extracted());
                lemma_first_not_single(these[r as int], extracted());
            }
            match column_keys.extract_address_from_record(&rows[r]) {
                Ok(address) => {
                    addresses.push(address);
                },
                Err(e) => {
                    proof {
                        let head = done + these.take(r + 1);
                        let tail = these.skip(r + 1) + extractions(keys.skip(p + 1), fields);
                        assert(these =~= these.take(r + 1) + these.skip(r + 1));
                        assert(all =~= head + tail);
                        lemma_first_not_concat(head, tail, extracted());
                    }
                    return Err(e);
                },
            }
            proof {
                assert forall|i: int| 0 <= i < addresses@.len() implies (done + these.take(
                    r + 1,
                ))[i] == Ok::<AddressText, SpecError>(#[trigger] addresses@[i]@) by {
                    if i < before.len() {
                        assert(addresses@[i] == before[i]);
                        assert(so_far[i] == (done + these.take(r + 1))[i]);
                    }
                }
            }
            r += 1;
        }
        assert(these.take(rows@.len() as int) =~= these);
        p += 1;
    }
    proof {
        assert(keys.take(prefix_count as int) =~= keys);
    }
    Ok(addresses)
}

/// The seconds to wait before the first retry.
pub const FIRST_RETRY_WAIT_SECS: u64 = 2;

/// The seconds to wait before a retry, after the given number of earlier
/// failures: two at first, and twice as long each time, as far as the
/// number fits.
pub open spec fn retry_wait(failures: nat) -> nat
    decreases failures,
{
    if failures == 0 {
        2
    } else if 2 * retry_wait((failures - 1) as nat) > u64::MAX {
        u64::MAX as nat
    } else {
        2 * retry_wait((failures - 1) as nat)
    }
}

/// How often a chunk has failed, and how long to wait before it is tried
/// again.
#[derive(Debug)]
pub struct Retry {
    failures: u8,
    wait_secs: u64,
}

/// What to do about a chunk that the geocoder has failed on.
#[derive(Debug)]
pub enum RetryDecision {
    /// Wait for the given number of seconds, then try again.
    RetryAfter { seconds: u64, next: Retry },
    /// Give up: the error of the geocoder is the error of the chunk.
    GiveUp,
}

impl Retry {
    /// The number of failures so far.
    pub closed spec fn failures(&self) -> nat {
        self.failures as nat
    }

    #[verifier::type_invariant]
    spec fn consistent(&self) -> bool {
        self.wait_secs == retry_wait(self.failures as nat)
    }

    /// The state of a chunk that has not failed yet.
    pub fn new() -> (retry: Retry)
        ensures
            retry.failures() == 0,
    {
        Retry { failures: 0, wait_secs: FIRST_RETRY_WAIT_SECS }
    }

    /// Called when the geocoder has failed on the chunk: the chunk is tried
    /// again, after a wait, as long as it has failed fewer than
    /// `max_retries` times before.
    pub fn failed(self, max_retries: u8) -> (decision: RetryDecision)
        ensures
            self.failures() < max_retries ==> (decision matches RetryDecision::RetryAfter {
                seconds,
                next,
            } && seconds == retry_wait(self.failures()) && next.failures() == self.failures() + 1),
            self.failures() >= max_retries ==> decision is GiveUp,
    {
        proof {
            use_type_invariant(&self);
        }
        if self.failures < max_retries {
            let doubled: u64 = if self.wait_secs > u64::MAX / 2 {
                u64::MAX
            } else {
                2 * self.wait_secs
            };
            RetryDecision::RetryAfter {
                seconds: self.wait_secs,
                next: Retry { failures: self.failures + 1, wait_secs: doubled },
            }
        } else {
            RetryDecision::GiveUp
        }
    }
}

/// The columns that one geocoding result adds to a row: its values, or an
/// empty value for each column of the geocoder where there is no result.
pub open spec fn result_columns(columns: nat, result: Option<Seq<Seq<char>>>) -> Seq<Seq<char>> {
    match result {
        Some(values) => values,
        None => empty_values(columns),
    }
}

/// The columns that the results of a chunk add to row `r`: those of the
/// result for each of the first `prefixes` prefixes in turn, the result of
/// prefix `p` and row `r` standing at `p * row_count + r`.
pub open spec fn added_columns(
    results: Seq<Option<Seq<Seq<char>>>>,
    columns: nat,
    row_count: nat,
    r: int,
    prefixes: nat,
) -> Seq<Seq<char>>
    decreases prefixes,
{
    if prefixes == 0 {
        Seq::empty()
    } else {
        added_columns(results, columns, row_count, r, (prefixes - 1) as nat) + result_columns(
            columns,
            results[(prefixes - 1) * row_count + r],
        )
    }
}

/// Whether a result holds one value for each of `columns` columns, as the
/// results of a geocoder with so many columns do.
pub open spec fn has_columns(columns: nat, result: Option<Seq<Seq<char>>>) -> bool {
    match result {
        Some(values) => values.len() == columns,
        None => true,
    }
}

/// Where every result holds one value for each column of the geocoder, a
/// row gains as many columns for each prefix as the geocoder has.
pub proof fn lemma_added_columns_len(
    results: Seq<Option<Seq<Seq<char>>>>,
    columns: nat,
    row_count: nat,
    r: int,
    prefixes: nat,
)
    requires
        0 <= r < row_count,
        results.len() >= prefixes * row_count,
        forall|i: int| 0 <= i < results.len() ==> has_columns(columns, #[trigger] results[i]),
    ensures
        added_columns(results, columns, row_count, r, prefixes).len() == prefixes * columns,
    decreases prefixes,
{
    if prefixes > 0 {
        let k = (prefixes - 1) as nat;
        assert(k * row_count + row_count == prefixes * row_count) by (nonlinear_arith)
            requires
                k + 1 == prefixes,
        ;
        assert(k * row_count >= 0) by (nonlinear_arith);
        lemma_added_columns_len(results, columns, row_count, r, k);
        let last = results[(prefixes - 1) * row_count + r];
        assert(has_columns(columns, last));
        assert(result_columns(columns, last).len() == columns);
        assert(k * columns + columns == prefixes * columns) by (nonlinear_arith)
            requires
                k + 1 == prefixes,
        ;
    } else {
        assert(prefixes * columns == 0) by (nonlinear_arith)
            requires
                prefixes == 0,
        ;
    }
}

/// Where every result holds one value for each column of the geocoder, the
/// columns that a row gains for prefix `p` stand `p` times the number of
/// columns behind the fields that the row had, and are the columns of the
/// result for this prefix and row.
pub proof fn lemma_added_columns_layout(
    results: Seq<Option<Seq<Seq<char>>>>,
    columns: nat,
    row_count: nat,
    r: int,
    prefixes: nat,
    p: int,
)
    requires
        0 <= r < row_count,
        0 <= p < prefixes,
        results.len() >= prefixes * row_count,
        forall|i: int| 0 <= i < results.len() ==> has_columns(columns, #[trigger] results[i]),
    ensures
        added_columns(results, columns, row_count, r, prefixes).len() == prefixes * columns,
        0 <= p * columns,
        p * columns + columns <= prefixes * columns,
        added_columns(results, columns, row_count, r, prefixes).subrange(
            p * columns,
            p * columns + columns,
        ) == result_columns(columns, results[p * row_count + r]),
    decreases prefixes,
{
    let k = (prefixes - 1) as nat;
    let front = added_columns(results, columns, row_count, r, k);
    let all = added_columns(results, columns, row_count, r, prefixes);
    assert(k * row_count + row_count == prefixes * row_count) by (nonlinear_arith)
        requires
            k + 1 == prefixes,
    ;
    assert(k * row_count >= 0) by (nonlinear_arith);
    lemma_added_columns_len(results, columns, row_count, r, k);
    lemma_added_columns_len(results, columns, row_count, r, prefixes);
    let last = results[(prefixes - 1) * row_count + r];
    assert(has_columns(columns, last));
    assert(result_columns(columns, last).len() == columns);
    assert(k * columns + columns == prefixes * columns) by (nonlinear_arith)
        requires
            k + 1 == prefixes,
    ;
    assert(0 <= p * columns && p * columns + columns <= prefixes * columns) by (nonlinear_arith)
        requires
            0 <= p < prefixes,
    ;
    if p == k {
        assert(all.subrange(p * columns, p * columns + columns) =~= result_columns(
            columns,
            results[p * row_count + r],
        ));
    } else {
        lemma_added_columns_layout(results, columns, row_count, r, k, p);
        assert(all.subrange(p * columns, p * columns + columns) =~= front.subrange(
            p * columns,
            p * columns + columns,
        ));
    }
}

/// Add the results of geocoding a chunk to its rows. The results are taken
/// as one slice of results for each prefix, in the order of the prefixes,
/// each with one result for each row. Every row keeps its place and its
/// fields, and gains the columns of its results.
///
/// Another number of results than prefixes times rows is an error.
pub fn add_geocoded_to_rows<G: Geocoder>(
    geocoder: &G,
    prefix_count: usize,
    rows: Vec<csv::StringRecord>,
    geocoded: &Vec<Option<Geocoded>>,
) -> (r: Result<Vec<csv::StringRecord>, PipelineError>)
    ensures
        geocoded@.len() != prefix_count * rows@.len() ==> r == Err::<
            Vec<csv::StringRecord>,
            PipelineError,
        >(
            PipelineError::WrongNumberOfResults {
                found: geocoded@.len() as usize,
                expected: if prefix_count * rows@.len() <= usize::MAX {
                    (prefix_count * rows@.len()) as usize
                } else {
                    usize::MAX
                },
            },
        ),
        geocoded@.len() == prefix_count * rows@.len() ==> (r matches Ok(out) && out@.len()
            == rows@.len() && forall|i: int|
            0 <= i < rows@.len() ==> record_fields(#[trigger] &out@[i]) == record_fields(&rows@[i])
                + added_columns(
                result_values(geocoded@),
                geocoder.column_name_texts().len(),
                rows@.len(),
                i,
                prefix_count as nat,
            )),
{
    let row_count = rows.len();
    let expected = match prefix_count.checked_mul(row_count) {
        Some(expected) => expected,
        None => {
            return Err(
                PipelineError::WrongNumberOfResults {
                    found: geocoded.len(),
                    expected: usize::MAX,
                },
            );
        },
    };
    if geocoded.len() != expected {
        return Err(PipelineError::WrongNumberOfResults { found: geocoded.len(), expected });
    }
    let ghost before = rows@;
    let ghost results = result_values(geocoded@);
    let ghost columns = geocoder.column_name_texts().len();
    let mut out: Vec<csv::StringRecord> = Vec::new();
    let mut i: usize = 0;
    for row in it: rows.into_iter()
        invariant
            it.seq() == before,
            i == it.index(),
            before.len() == row_count,
            geocoded@.len() == prefix_count * row_count,
            geocoded@.len() == expected,
            results == result_values(geocoded@),
            columns == geocoder.column_name_texts().len(),
            out@.len() == i,
            forall|k: int|
                0 <= k < i ==> record_fields(#[trigger] &out@[k]) == record_fields(&before[k])
                    + added_columns(results, columns, row_count as nat, k, prefix_count as nat),
    {
        let mut row = row;
        let ghost fields = record_fields(&row);
        let mut p: usize = 0;
        assert(record_fields(&row) =~= fields + added_columns(
            results,
            columns,
            row_count as nat,
            i as int,
            0,
        ));
        while p < prefix_count
            invariant
                p <= prefix_count,
                i < row_count,
                geocoded@.len() == prefix_count * row_count,
                geocoded@.len() == expected,
                results == result_values(geocoded@),
                columns == geocoder.column_name_texts().len(),
                record_fields(&row) == fields + added_columns(
                    results,
                    columns,
                    row_count as nat,
                    i as int,
                    p as nat,
                ),
            decreases prefix_count - p,
        {
            assert(0 <= p * row_count <= p * row_count + i < prefix_count * row_count)
                by (nonlinear_arith)
                requires
                    0 <= p < prefix_count,
                    0 <= i < row_count,
            ;
            let index = p * row_count + i;
            let ghost had = record_fields(&row);
            match &geocoded[index] {
                Some(response) => {
                    geocoder.add_value_columns_to_row(response, &mut row);
                },
                None => {
                    geocoder.add_empty_columns_to_row(&mut row);
                },
            }
            proof {
                assert(results[index as int] == crate::geocoders::optional_values(
                    geocoded@[index as int],
                ));
                assert(record_fields(&row) == had + result_columns(columns, results[index as int]));
                assert(record_fields(&row) =~= fields + added_columns(
                    results,
                    columns,
                    row_count as nat,
                    i as int,
                    (p + 1) as nat,
                ));
            }
            p += 1;
        }
        out.push(row);
        i += 1;
    }
    Ok(out)
}

/// What arrives at the writer.
#[derive(Debug, Clone, Copy, PartialEq, Eq, Structural)]
pub enum MessageKind {
    /// A chunk of geocoded rows.
    Chunk,
    /// The end of the stream, sent when all data has been processed.
    EndOfStream,
}

/// What the writer does with what has arrived.
#[derive(Debug, Clone, Copy, PartialEq, Eq, Structural)]
pub enum WriterAction {
    /// Write the output header, then the rows of the chunk.
    WriteHeaderAndRows,
    /// Write the rows of the chunk.
    WriteRows,
    /// Flush the output and stop.
    Stop,
}

/// What the writer remembers between messages.
#[derive(Debug, Clone, Copy, PartialEq, Eq, Structural)]
pub struct Writer {
    /// Whether the output header has been written.
    pub headers_written: bool,
    /// Whether the end of the stream has been announced.
    pub end_of_stream_seen: bool,
}

impl Writer {
    /// A writer that has written nothing yet.
    pub fn new() -> (writer: Writer)
        ensures
            writer == (Writer { headers_written: false, end_of_stream_seen: false }),
    {
        Writer { headers_written: false, end_of_stream_seen: false }
    }

    /// Takes a message: the header is written with the first chunk, and
    /// with no other; the end of the stream stops the writer.
    pub fn receive(self, message: MessageKind) -> (next: (Writer, WriterAction))
        ensures
            message == MessageKind::Chunk ==> next.0 == (Writer {
                headers_written: true,
                end_of_stream_seen: self.end_of_stream_seen,
            }) && next.1 == if self.headers_written {
                WriterAction::WriteRows
            } else {
                WriterAction::WriteHeaderAndRows
            },
            message == MessageKind::EndOfStream ==> next.0 == (Writer {
                headers_written: self.headers_written,
                end_of_stream_seen: true,
            }) && next.1 == WriterAction::Stop,
    {
        match message {
            MessageKind::Chunk => {
                let action = if self.headers_written {
                    WriterAction::WriteRows
                } else {
                    WriterAction::WriteHeaderAndRows
                };
                (
                    Writer { headers_written: true, end_of_stream_seen: self.end_of_stream_seen },
                    action,
                )
            },
            MessageKind::EndOfStream => (
                Writer { headers_written: self.headers_written, end_of_stream_seen: true },
                WriterAction::Stop,
            ),
        }
    }

    /// Called when no message is left: it is an error if the end of the
    /// stream was never announced.
    pub fn closed(&self) -> (r: Result<(), PipelineError>)
        ensures
            self.end_of_stream_seen ==> r is Ok,
            !self.end_of_stream_seen ==> r == Err::<(), PipelineError>(
                PipelineError::MissingEndOfStream,
            ),
    {
        if self.end_of_stream_seen {
            Ok(())
        } else {
            Err(PipelineError::MissingEndOfStream)
        }
    }
}

/// The number of chunks that exist. It never exceeds
/// `MAX_EXPECTED_CHUNKS`: a chunk beyond that is refused.
#[derive(Debug)]
pub struct ChunkTally {
    live: usize,
}

impl ChunkTally {
    /// The number of chunks counted.
    pub closed spec fn count(&self) -> nat {
        self.live as nat
    }

    /// No more chunks are counted than are expected at any one time.
    pub open spec fn wf(&self) -> bool {
        self.count() <= MAX_EXPECTED_CHUNKS
    }

    #[verifier::type_invariant]
    spec fn bounded(&self) -> bool {
        self.wf()
    }

    /// A tally of no chunks.
    pub fn new() -> (tally: ChunkTally)
        ensures
            tally.count() == 0,
            tally.wf(),
    {
        ChunkTally { live: 0 }
    }

    /// The number of chunks counted.
    pub fn live(&self) -> (n: usize)
        ensures
            n == self.count(),
            n <= MAX_EXPECTED_CHUNKS,
    {
        proof {
            use_type_invariant(self);
        }
        self.live
    }

    /// Counts a new chunk, unless that would be one more than are expected
    /// at any one time.
    pub fn opened(self) -> (r: Result<ChunkTally, PipelineError>)
        ensures
            self.count() < MAX_EXPECTED_CHUNKS ==> (r matches Ok(tally) && tally.wf()
                && tally.count() == self.count() + 1),
            self.count() >= MAX_EXPECTED_CHUNKS ==> r == Err::<ChunkTally, PipelineError>(
                PipelineError::TooManyChunks { found: (self.count() + 1) as usize },
            ),
    {
        proof {
            use_type_invariant(&self);
        }
        if self.live < MAX_EXPECTED_CHUNKS {
            Ok(ChunkTally { live: self.live + 1 })
        } else {
            Err(PipelineError::TooManyChunks { found: self.live + 1 })
        }
    }

    /// Counts a chunk that has been given up.
    pub fn closed(self) -> (r: Result<ChunkTally, PipelineError>)
        ensures
            self.count() > 0 ==> (r matches Ok(tally) && tally.wf() && tally.count()
                == self.count() - 1),
            self.count() == 0 ==> r == Err::<ChunkTally, PipelineError>(
                PipelineError::NoChunkToRelease,
            ),
    {
        proof {
            use_type_invariant(&self);
        }
        if self.live > 0 {
            Ok(ChunkTally { live: self.live - 1 })
        } else {
            Err(PipelineError::NoChunkToRelease)
        }
    }
}

/// The errors of a run, each behind the name of the task that failed: the
/// reader first, then the geocoder, then the writer.
pub open spec fn failures(
    read: Option<Seq<char>>,
    geocode: Option<Seq<char>>,
    write: Option<Seq<char>>,
) -> Seq<Seq<char>> {
    (match read {
        Some(e) => seq!["error reading input: "@ + e],
        None => Seq::empty(),
    }) + (match geocode {
        Some(e) => seq!["error geocoding: "@ + e],
        None => Seq::empty(),
    }) + (match write {
        Some(e) => seq!["error writing output: "@ + e],
        None => Seq::empty(),
    })
}

/// One error behind the name of its task.
fn in_context(context: &str, error: &String) -> (message: String)
    ensures
        message@ == context@ + error@,
{
    let mut message = String::new();
    message.append(context);
    message.append(error.as_str());
    message
}

/// Gathers the results of the three tasks of a run. The run has succeeded
/// if all three have; else every error is reported, not just the first,
/// since the failure of one task usually makes the others fail too.
pub fn report_run(read: Result<(), String>, geocode: Result<(), String>, write: Result<
    (),
    String,
>) -> (r: Result<(), Vec<String>>)
    ensures
        ({
            let all = failures(
                match read {
                    Ok(_) => None,
                    Err(e) => Some(e@),
                },
                match geocode {
                    Ok(_) => None,
                    Err(e) => Some(e@),
                },
                match write {
                    Ok(_) => None,
                    Err(e) => Some(e@),
                },
            );
            if read is Ok && geocode is Ok && write is Ok {
                r is Ok
            } else {
                r matches Err(errors) && views(errors@) == all
            }
        }),
{
    let mut errors: Vec<String> = Vec::new();
    if let Err(e) = &read {
        errors.push(in_context("error reading input: ", e));
    }
    let ghost after_read = views(errors@);
    if let Err(e) = &geocode {
        errors.push(in_context("error geocoding: ", e));
    }
    let ghost after_geocode = views(errors@);
    if let Err(e) = &write {
        errors.push(in_context("error writing output: ", e));
    }
    proof {
        let all = failures(
            match read {
                Ok(_) => None,
                Err(e) => Some(e@),
            },
            match geocode {
                Ok(_) => None,
                Err(e) => Some(e@),
            },
            match write {
                Ok(_) => None,
                Err(e) => Some(e@),
            },
        );
        assert(views(errors@) =~= all);
    }
    if errors.len() == 0 {
        Ok(())
    } else {
        Err(errors)
    }
}

} // verus!
