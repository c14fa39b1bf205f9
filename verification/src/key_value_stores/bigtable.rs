//! What is sent to BigTable, and what is made of its answers.

use vstd::prelude::*;
use vstd::slice::slice_to_vec;
use vstd::utf8::decode_utf8;
use vstd::utf8::encode_utf8;
use vstd::utf8::encode_utf8_decode_utf8;

use crate::geocoders::cache::optional_bytes;
use crate::key_value_stores::parsed_url;
use crate::key_value_stores::prefixed_key;
use crate::key_value_stores::url_parts;
use crate::key_value_stores::UrlParts;
use crate::key_value_stores::UrlPartsText;
use crate::key_value_stores::KeyValueStore;
use crate::key_value_stores::PipelinedGet;
use crate::key_value_stores::PipelinedSet;
use crate::key_value_stores::StoreError;
use crate::sequences::first_not;
use crate::sequences::lemma_first_not_concat;
use crate::sequences::lemma_first_not_single;
use crate::text::str_eq;
use crate::text::views;

verus! {

/// The column family that cached values are stored in.
pub open spec fn family_name() -> Seq<char> {
    "geocode_csv"@
}

/// The column qualifier that cached values are stored under: `v`.
pub open spec fn column_qualifier() -> Seq<u8> {
    seq![118u8]
}

/// BigTable configuration information.
#[derive(Debug, PartialEq, Eq)]
pub struct BigTableConfig {
    pub project_id: String,
    pub instance_id: String,
    pub table_name: String,
}

impl BigTableConfig {
    /// Whether the parts of a URL are those of a
    /// `bigtable://project/instance/table` URL.
    pub open spec fn accepts(parts: UrlPartsText) -> bool {
        parts.scheme == "bigtable"@ && parts.host is Some && parts.path_segments is Some
            && parts.path_segments->0.len() == 2
    }

    /// The configuration that the parts of a URL give: the host is the
    /// project, the two segments of the path are instance and table.
    /// Anything but a `bigtable` URL with a host and two segments is an
    /// error, which holds the scheme found.
    pub fn from_parts(parts: &UrlParts) -> (r: Result<BigTableConfig, StoreError>)
        ensures
            if BigTableConfig::accepts(parts@) {
                r matches Ok(config) && config.project_id@ == parts@.host->0
                    && config.instance_id@ == parts@.path_segments->0[0] && config.table_name@
                    == parts@.path_segments->0[1]
            } else {
                r matches Err(StoreError::NotABigTableUrl(found)) && found@ == parts@.scheme
            },
    {
        if str_eq(parts.scheme.as_str(), "bigtable") {
            if let Some(domain) = &parts.host {
                if let Some(segments) = &parts.path_segments {
                    if segments.len() == 2 {
                        return Ok(
                            BigTableConfig {
                                project_id: domain.clone(),
                                instance_id: segments[0].clone(),
                                table_name: segments[1].clone(),
                            },
                        );
                    }
                }
            }
        }
        Err(StoreError::NotABigTableUrl(parts.scheme.clone()))
    }

    /// Parse a `bigtable://project/instance/table` URL into configuration
    /// information.
    pub fn from_url(url: &str) -> (r: Result<BigTableConfig, StoreError>)
        ensures
            match parsed_url(url@) {
                Some(parts) => if BigTableConfig::accepts(parts) {
                    r matches Ok(config) && config.project_id@ == parts.host->0
                        && config.instance_id@ == parts.path_segments->0[0] && config.table_name@
                        == parts.path_segments->0[1]
                } else {
                    r matches Err(StoreError::NotABigTableUrl(found)) && found@ == parts.scheme
                },
                None => r matches Err(StoreError::NotAUrl(text)) && text@ == url@,
            },
    {
        match url_parts(url) {
            Ok(parts) => BigTableConfig::from_parts(&parts),
            Err(e) => Err(e),
        }
    }
}

/// A BigTable store, as far as its table and its keys go.
#[derive(Debug)]
pub struct BigTable {
    /// The table in which the keys are stored.
    table_name: String,
    /// The prefix to use for keys.
    key_prefix: String,
}

/// One cell of a row that BigTable has returned.
#[derive(Debug, PartialEq, Eq)]
pub struct RowCell {
    pub family_name: String,
    pub qualifier: Vec<u8>,
    pub value: Vec<u8>,
    pub timestamp_micros: i64,
}

/// One cell to write: a value under the row key, in the column that cached
/// values are stored in, with the time of the server as its timestamp.
#[derive(Debug, PartialEq, Eq)]
pub struct SetCell {
    pub row_key: Vec<u8>,
    pub family_name: String,
    pub column_qualifier: Vec<u8>,
    pub timestamp_micros: i64,
    pub value: Vec<u8>,
}

/// What is wrong with a row that BigTable has returned.
#[derive(Debug, PartialEq, Eq)]
pub enum RowError {
    /// A cell is of another column family than was asked for.
    UnexpectedFamily(String),
    /// A cell is of another column than was asked for.
    UnexpectedQualifier(Vec<u8>),
    /// A row has a key that was not asked for.
    UnexpectedRow(Vec<u8>),
}

/// A cell that BigTable has returned, with the key of its row.
pub struct CellText {
    pub row_key: Seq<u8>,
    pub family_name: Seq<char>,
    pub qualifier: Seq<u8>,
    pub value: Seq<u8>,
}

/// The fault of a returned cell, as plain values.
pub enum RowFault {
    UnexpectedFamily(Seq<char>),
    UnexpectedQualifier(Seq<u8>),
    UnexpectedRow(Seq<u8>),
}

impl View for RowError {
    type V = RowFault;

    open spec fn view(&self) -> RowFault {
        match self {
            RowError::UnexpectedFamily(found) => RowFault::UnexpectedFamily(found@),
            RowError::UnexpectedQualifier(found) => RowFault::UnexpectedQualifier(found@),
            RowError::UnexpectedRow(found) => RowFault::UnexpectedRow(found@),
        }
    }
}

/// The cells of one returned row.
pub open spec fn cells_of_row(row_key: Seq<u8>, cells: Seq<RowCell>) -> Seq<CellText> {
    Seq::new(
        cells.len(),
        |i: int|
            CellText {
                row_key,
                family_name: cells[i].family_name@,
                qualifier: cells[i].qualifier@,
                value: cells[i].value@,
            },
    )
}

/// The cells of the returned rows, in the order in which they came.
pub open spec fn cells_of(rows: Seq<(Vec<u8>, Vec<RowCell>)>) -> Seq<CellText>
    decreases rows.len(),
{
    if rows.len() == 0 {
        Seq::empty()
    } else {
        cells_of(rows.drop_last()) + cells_of_row(rows.last().0@, rows.last().1@)
    }
}

/// What is wrong with a returned cell, if anything: its column family, its
/// column, or the key of its row, in this order.
pub open spec fn cell_fault(row_keys: Seq<Seq<u8>>, cell: CellText) -> Option<RowFault> {
    if cell.family_name != family_name() {
        Some(RowFault::UnexpectedFamily(cell.family_name))
    } else if cell.qualifier != column_qualifier() {
        Some(RowFault::UnexpectedQualifier(cell.qualifier))
    } else if !row_keys.contains(cell.row_key) {
        Some(RowFault::UnexpectedRow(cell.row_key))
    } else {
        None
    }
}

/// Whether nothing is wrong with a returned cell.
pub open spec fn sound(row_keys: Seq<Seq<u8>>) -> spec_fn(CellText) -> bool {
    |cell: CellText| cell_fault(row_keys, cell) is None
}

/// The value found for a key: that of the last cell of a row with this key.
pub open spec fn value_for(cells: Seq<CellText>, key: Seq<u8>) -> Option<Seq<u8>>
    decreases cells.len(),
{
    if cells.len() == 0 {
        None
    } else if cells.last().row_key == key {
        Some(cells.last().value)
    } else {
        value_for(cells.drop_last(), key)
    }
}

/// The keys of a list of row keys.
pub open spec fn key_bytes(row_keys: Seq<Vec<u8>>) -> Seq<Seq<u8>> {
    Seq::new(row_keys.len(), |i: int| row_keys[i]@)
}

/// A batched GET request: the keys of the rows to read, in order.
#[derive(Debug)]
pub struct BigTablePipelinedGet {
    key_prefix: String,
    row_keys: Vec<Vec<u8>>,
}

/// A batched SET request: the cells to write, in order.
#[derive(Debug)]
pub struct BigTablePipelinedSet {
    key_prefix: String,
    entries: Vec<SetCell>,
}

impl BigTable {
    /// A BigTable store that keeps its keys, behind `key_prefix`, in the
    /// table `table_name`.
    pub fn new(table_name: String, key_prefix: String) -> (store: BigTable)
        ensures
            store.key_prefix_text() == key_prefix@,
            store.table_name_text() == table_name@,
    {
        BigTable { table_name, key_prefix }
    }

    /// The name of the table.
    pub closed spec fn table_name_text(&self) -> Seq<char> {
        self.table_name@
    }

    /// The name of the table in which the keys are stored.
    pub fn table_name(&self) -> (name: &str)
        ensures
            name@ == self.table_name_text(),
    {
        self.table_name.as_str()
    }
}

impl KeyValueStore for BigTable {
    type Get = BigTablePipelinedGet;

    type Set = BigTablePipelinedSet;

    closed spec fn key_prefix_text(&self) -> Seq<char> {
        self.key_prefix@
    }

    fn new_pipelined_get(&self) -> (get: BigTablePipelinedGet) {
        BigTablePipelinedGet { key_prefix: self.key_prefix.clone(), row_keys: Vec::new() }
    }

    fn new_pipelined_set(&self) -> (set: BigTablePipelinedSet) {
        BigTablePipelinedSet { key_prefix: self.key_prefix.clone(), entries: Vec::new() }
    }

    fn key_prefix(&self) -> (prefix: &str) {
        self.key_prefix.as_str()
    }
}

/// Whether two byte strings are the same.
fn bytes_eq(a: &[u8], b: &[u8]) -> (r: bool)
    ensures
        r == (a@ == b@),
{
    if a.len() != b.len() {
        return false;
    }
    let mut i: usize = 0;
    while i < a.len()
        invariant
            i <= a.len(),
            a.len() == b.len(),
            forall|j: int| 0 <= j < i ==> a@[j] == b@[j],
        decreases a.len() - i,
    {
        if a[i] != b[i] {
            return false;
        }
        i += 1;
    }
    assert(a@ =~= b@);
    true
}

/// A copy of a byte string.
fn clone_bytes(bytes: &Vec<u8>) -> (copy: Vec<u8>)
    ensures
        copy@ == bytes@,
{
    slice_to_vec(bytes.as_slice())
}

impl BigTablePipelinedGet {
    /// The keys of the rows to read, in order.
    pub closed spec fn row_keys(&self) -> Seq<Seq<u8>> {
        key_bytes(self.row_keys@)
    }

    /// The keys of the rows to read, in order.
    pub fn rows_to_read(&self) -> (row_keys: &Vec<Vec<u8>>)
        ensures
            key_bytes(row_keys@) == self.row_keys(),
    {
        &self.row_keys
    }

    /// Whether one of the rows asked for has the given key.
    fn asked_for(&self, key: &Vec<u8>) -> (r: bool)
        ensures
            r == self.row_keys().contains(key@),
    {
        let mut i: usize = 0;
        while i < self.row_keys.len()
            invariant
                i <= self.row_keys.len(),
                forall|j: int| 0 <= j < i ==> #[trigger] self.row_keys()[j] != key@,
            decreases self.row_keys.len() - i,
        {
            if bytes_eq(self.row_keys[i].as_slice(), key.as_slice()) {
                assert(self.row_keys()[i as int] == key@);
                return true;
            }
            i += 1;
        }
        false
    }

    /// Makes the answers to the requests out of the rows that BigTable has
    /// returned: for each key asked for, in the order of the requests, the
    /// value of the last cell returned for a row with that key, or nothing.
    /// A key asked for more than once is answered each time.
    ///
    /// A cell of another column family or column than was asked for is an
    /// error, and so is a row that was not asked for; the first such cell
    /// decides which.
    pub fn assemble(&self, rows: &Vec<(Vec<u8>, Vec<RowCell>)>) -> (r: Result<
        Vec<Option<Vec<u8>>>,
        RowError,
    >)
        ensures
            ({
                let cells = cells_of(rows@);
                match first_not(cells, sound(self.row_keys())) {
                    Some(cell) => r matches Err(e) && Some(e@) == cell_fault(
                        self.row_keys(),
                        cell,
                    ),
                    None => r matches Ok(answers) && answers@.len() == self.row_keys().len()
                        && forall|i: int|
                        0 <= i < answers@.len() ==> optional_bytes(#[trigger] answers@[i])
                            == value_for(cells, self.row_keys()[i]),
                }
            }),
    {
        let ghost wanted = self.row_keys();
        let ghost all = cells_of(rows@);
        let n = self.row_keys.len();
        let mut result: Vec<Option<Vec<u8>>> = Vec::new();
        let mut k: usize = 0;
        while k < n
            invariant
                k <= n,
                result@.len() == k,
                forall|i: int| 0 <= i < k ==> (#[trigger] result@[i]) is None,
            decreases n - k,
        {
            result.push(None);
            k += 1;
        }
        proof {
            reveal_strlit("v");
            assert(rows@.take(0) =~= Seq::<(Vec<u8>, Vec<RowCell>)>::empty());
        }
        let mut i: usize = 0;
        while i < rows.len()
            invariant
                i <= rows.len(),
                n == self.row_keys@.len(),
                wanted == self.row_keys(),
                all == cells_of(rows@),
                result@.len() == n,
                first_not(cells_of(rows@.take(i as int)), sound(wanted)) is None,
                forall|q: int|
                    0 <= q < n ==> optional_bytes(#[trigger] result@[q]) == value_for(
                        cells_of(rows@.take(i as int)),
                        wanted[q],
                    ),
            decreases rows.len() - i,
        {
            let key = &rows[i].0;
            let data = &rows[i].1;
            let ghost done = cells_of(rows@.take(i as int));
            let ghost these = cells_of_row(key@, data@);
            proof {
                assert(rows@.take(i + 1).drop_last() =~= rows@.take(i as int));
                assert(rows@.take(i + 1).last() == rows@[i as int]);
                assert(cells_of(rows@.take(i + 1)) == done + these);
                lemma_cells_split(rows@, i + 1);
                assert(these.take(0) =~= Seq::<CellText>::empty());
                assert(done + these.take(0) =~= done);
            }
            let mut c: usize = 0;
            while c < data.len()
                invariant
                    c <= data.len(),
                    n == self.row_keys@.len(),
                    wanted == self.row_keys(),
                    all == cells_of(rows@),
                    all == (done + these) + cells_of(rows@.skip(i + 1)),
                    these == cells_of_row(key@, data@),
                    result@.len() == n,
                    first_not(done + these.take(c as int), sound(wanted)) is None,
                    forall|q: int|
                        0 <= q < n ==> optional_bytes(#[trigger] result@[q]) == value_for(
                            done + these.take(c as int),
                            wanted[q],
                        ),
                decreases data.len() - c,
            {
                let row_cell = &data[c];
                let ghost so_far = done + these.take(c as int);
                let ghost cell = these[c as int];
                proof {
                    assert(done + these.take(c + 1) =~= so_far + seq![cell]);
                    lemma_first_not_concat(so_far, seq![cell], sound(wanted));
                    lemma_first_not_single(cell, sound(wanted));
                    let head = done + these.take(c + 1);
                    let tail = these.skip(c + 1) + cells_of(rows@.skip(i + 1));
                    assert(these =~= these.take(c + 1) + these.skip(c + 1));
                    assert(all =~= head + tail);
                    lemma_first_not_concat(head, tail, sound(wanted));
                    assert((so_far + seq![cell]).drop_last() =~= so_far);
                }
                // Check to make sure we got the right data.
                if !str_eq(row_cell.family_name.as_str(), "geocode_csv") {
                    return Err(RowError::UnexpectedFamily(row_cell.family_name.clone()));
                }
                if !(row_cell.qualifier.len() == 1 && row_cell.qualifier[0] == 118u8) {
                    assert(row_cell.qualifier@ != column_qualifier());
                    return Err(RowError::UnexpectedQualifier(clone_bytes(&row_cell.qualifier)));
                }
                assert(row_cell.qualifier@ =~= column_qualifier());
                if !self.asked_for(key) {
                    return Err(RowError::UnexpectedRow(clone_bytes(key)));
                }
                // Write this match to the answers.

                let mut q: usize = 0;
                let ghost before = result@;
                while q < n
                    invariant
                        q <= n,
                        n == self.row_keys@.len(),
                        wanted == self.row_keys(),
                        result@.len() == n,
                        cell.row_key == key@,
                        cell.value == row_cell.value@,
                        before.len() == n,
                        (so_far + seq![cell]).drop_last() == so_far,
                        (so_far + seq![cell]).last() == cell,
                        forall|j: int|
                            0 <= j < n ==> optional_bytes(#[trigger] before[j]) == value_for(
                                so_far,
                                wanted[j],
                            ),
                        forall|j: int| q <= j < n ==> result@[j] == before[j],
                        forall|j: int|
                            0 <= j < q ==> optional_bytes(#[trigger] result@[j]) == value_for(
                                so_far + seq![cell],
                                wanted[j],
                            ),
                    decreases n - q,
                {
                    assert(wanted[q as int] == self.row_keys@[q as int]@);
                    assert(result@[q as int] == before[q as int]);
                    if bytes_eq(self.row_keys[q].as_slice(), key.as_slice()) {
                        result.set(q, Some(clone_bytes(&row_cell.value)));
                    }
                    q += 1;
                }
                c += 1;
            }
            assert(these.take(data@.len() as int) =~= these);
            i += 1;
        }
        assert(rows@.take(rows@.len() as int) =~= rows@);
        Ok(result)
    }
}

/// The cells of the first rows come first among those of all.
proof fn lemma_cells_split(rows: Seq<(Vec<u8>, Vec<RowCell>)>, i: int)
    requires
        0 <= i <= rows.len(),
    ensures
        cells_of(rows) == cells_of(rows.take(i)) + cells_of(rows.skip(i)),
    decreases rows.len(),
{
    if i == rows.len() {
        assert(rows.take(i) =~= rows);
        assert(rows.skip(i) =~= Seq::<(Vec<u8>, Vec<RowCell>)>::empty());
        assert(cells_of(rows) + Seq::<CellText>::empty() =~= cells_of(rows));
    } else {
        let front = rows.drop_last();
        lemma_cells_split(front, i);
        assert(front.take(i) =~= rows.take(i));
        assert(rows.skip(i).drop_last() =~= front.skip(i));
        assert(rows.skip(i).last() == rows.last());
        let a = cells_of(rows.take(i));
        let b = cells_of(front.skip(i));
        let c = cells_of_row(rows.last().0@, rows.last().1@);
        assert((a + b) + c =~= a + (b + c));
    }
}

impl PipelinedGet for BigTablePipelinedGet {
    closed spec fn key_prefix_text(&self) -> Seq<char> {
        self.key_prefix@
    }

    closed spec fn keys(&self) -> Seq<Seq<char>> {
        Seq::new(self.row_keys@.len(), |i: int| decode_utf8(self.row_keys@[i]@))
    }

    fn add_get(&mut self, key: String)
        ensures
            final(self).row_keys() == old(self).row_keys().push(
                encode_utf8(old(self).key_prefix_text() + key@),
            ),
    {
        let prefixed = prefixed_key(self.key_prefix.as_str(), key.as_str());
        proof {
            encode_utf8_decode_utf8(prefixed@);
        }
        self.row_keys.push(slice_to_vec(prefixed.as_str().as_bytes()));
        assert(self.keys() =~= old(self).keys().push(old(self).key_prefix@ + key@));
        assert(self.row_keys() =~= old(self).row_keys().push(encode_utf8(prefixed@)));
    }
}

/// The keys and values of a list of cells to write.
pub open spec fn cell_entries(cells: Seq<SetCell>) -> Seq<(Seq<char>, Seq<u8>)> {
    Seq::new(cells.len(), |i: int| (decode_utf8(cells[i].row_key@), cells[i].value@))
}

/// Whether a cell goes to the column that cached values are stored in, with
/// the time of the server as its timestamp.
pub open spec fn in_cache_column(cell: SetCell) -> bool {
    &&& cell.family_name@ == family_name()
    &&& cell.column_qualifier@ == column_qualifier()
    &&& cell.timestamp_micros == -1
}

impl BigTablePipelinedSet {
    /// The cells to write, in order.
    pub closed spec fn cells(&self) -> Seq<SetCell> {
        self.entries@
    }

    /// The cells to write, in order.
    pub fn cells_to_write(&self) -> (cells: &Vec<SetCell>)
        ensures
            cells@ == self.cells(),
            cell_entries(cells@) == self.entries(),
    {
        &self.entries
    }
}

impl PipelinedSet for BigTablePipelinedSet {
    closed spec fn key_prefix_text(&self) -> Seq<char> {
        self.key_prefix@
    }

    closed spec fn entries(&self) -> Seq<(Seq<char>, Seq<u8>)> {
        cell_entries(self.entries@)
    }

    fn add_set(&mut self, key: String, value: Vec<u8>)
        ensures
            final(self).cells().len() == old(self).cells().len() + 1,
            forall|i: int|
                0 <= i < old(self).cells().len() ==> final(self).cells()[i] == old(self).cells()[i],
            in_cache_column(final(self).cells().last()),
            final(self).cells().last().row_key@ == encode_utf8(old(self).key_prefix_text() + key@),
    {
        let prefixed = prefixed_key(self.key_prefix.as_str(), key.as_str());
        proof {
            encode_utf8_decode_utf8(prefixed@);
            reveal_strlit("v");
        }
        let mut qualifier: Vec<u8> = Vec::new();
        qualifier.push(118u8);
        assert(qualifier@ =~= column_qualifier());
        self.entries.push(
            SetCell {
                row_key: slice_to_vec(prefixed.as_str().as_bytes()),
                family_name: "geocode_csv".to_owned(),
                column_qualifier: qualifier,
                timestamp_micros: -1,
                value,
            },
        );
        assert(cell_entries(self.entries@) =~= cell_entries(old(self).entries@).push(
            (old(self).key_prefix@ + key@, value@),
        ));
    }
}

} // verus!
