//! Which fields of the documents that a geocoding provider returns become
//! columns, and how a document is turned into column values.

use vstd::prelude::*;

use crate::addresses::str_views;
use crate::sequences::first_not;
use crate::sequences::lemma_first_not_concat;
use crate::sequences::lemma_first_not_single;
use crate::text::str_eq;
use crate::text::views;

verus! {

/// A JSON document. The members of an object stand in the order of the
/// document; a number is held as it is written.
#[derive(Debug, PartialEq, Eq)]
pub enum JsonValue {
    Null,
    Bool(bool),
    Number(String),
    String(String),
    Array(Vec<JsonValue>),
    Object(Vec<(String, JsonValue)>),
}

/// What is wrong with a structure, or with a document read by one.
#[derive(Debug, PartialEq, Eq)]
pub enum StructureError {
    /// A structure is a JSON object.
    NotAnObject,
    /// At this path the structure holds something else than `true`,
    /// `false` or, at the top, an object.
    InvalidStructure(Vec<String>),
    /// At this path the document holds an array or an object where a
    /// column value is expected.
    UnexpectedValue(Vec<String>),
}

/// A leaf that a traversal comes to: its path, and whether it may stand
/// there.
pub struct Visit {
    pub path: Seq<Seq<char>>,
    pub valid: bool,
}

/// The leaves that a traversal comes to for one member of a group: a
/// column for `true`, nothing for `false`, and anything else is invalid.
pub open spec fn visit_in_group(group: Seq<char>, member: (String, JsonValue)) -> Seq<Visit> {
    match member.1 {
        JsonValue::Bool(true) => seq![Visit { path: seq![group, member.0@], valid: true }],
        JsonValue::Bool(false) => Seq::empty(),
        _ => seq![Visit { path: seq![group, member.0@], valid: false }],
    }
}

/// The leaves that a traversal comes to in a group, in the order of the
/// document.
pub open spec fn visits_in_group(group: Seq<char>, members: Seq<(String, JsonValue)>) -> Seq<Visit>
    decreases members.len(),
{
    if members.len() == 0 {
        Seq::empty()
    } else {
        visits_in_group(group, members.drop_last()) + visit_in_group(group, members.last())
    }
}

/// The leaves that a traversal comes to for one member of a structure: a
/// column for `true`, nothing for `false`, the leaves of a group for an
/// object, and anything else is invalid.
pub open spec fn visit_member(member: (String, JsonValue)) -> Seq<Visit> {
    match member.1 {
        JsonValue::Bool(true) => seq![Visit { path: seq![member.0@], valid: true }],
        JsonValue::Bool(false) => Seq::empty(),
        JsonValue::Object(members) => visits_in_group(member.0@, members@),
        _ => seq![Visit { path: seq![member.0@], valid: false }],
    }
}

/// The leaves that a traversal of a structure comes to, in the order of
/// the document.
pub open spec fn visits(fields: Seq<(String, JsonValue)>) -> Seq<Visit>
    decreases fields.len(),
{
    if fields.len() == 0 {
        Seq::empty()
    } else {
        visits(fields.drop_last()) + visit_member(fields.last())
    }
}

/// Whether a leaf may stand where it stands.
pub open spec fn valid() -> spec_fn(Visit) -> bool {
    |visit: Visit| visit.valid
}

/// The paths of a list of leaves.
pub open spec fn visited_paths(visits: Seq<Visit>) -> Seq<Seq<Seq<char>>> {
    Seq::new(visits.len(), |i: int| visits[i].path)
}

/// The texts of each of a list of paths.
pub open spec fn path_views(paths: Seq<Vec<String>>) -> Seq<Seq<Seq<char>>> {
    Seq::new(paths.len(), |i: int| views(paths[i]@))
}

/// The value of the member of an object that has the given name: that of
/// the last such member. Nothing but an object has members.
pub open spec fn member_named(members: Seq<(String, JsonValue)>, name: Seq<char>) -> Option<
    JsonValue,
>
    decreases members.len(),
{
    if members.len() == 0 {
        None
    } else if members.last().0@ == name {
        Some(members.last().1)
    } else {
        member_named(members.drop_last(), name)
    }
}

/// The member of a document that has the given name.
pub open spec fn member(document: JsonValue, name: Seq<char>) -> Option<JsonValue> {
    match document {
        JsonValue::Object(members) => member_named(members@, name),
        _ => None,
    }
}

/// What a path leads to in a document, if it leads anywhere.
pub open spec fn followed(document: JsonValue, path: Seq<Seq<char>>) -> Option<JsonValue>
    decreases path.len(),
{
    if path.len() == 0 {
        Some(document)
    } else {
        match member(document, path.first()) {
            Some(next) => followed(next, path.drop_first()),
            None => None,
        }
    }
}

/// The column value that stands for a JSON value: `T` or `F` for a boolean,
/// nothing for null, a number as it is written, a string as it is. Arrays
/// and objects have none.
pub open spec fn formatted(value: JsonValue) -> Option<Seq<char>> {
    match value {
        JsonValue::Bool(true) => Some("T"@),
        JsonValue::Bool(false) => Some("F"@),
        JsonValue::Null => Some(Seq::empty()),
        JsonValue::Number(n) => Some(n@),
        JsonValue::String(s) => Some(s@),
        JsonValue::Array(_) => None,
        JsonValue::Object(_) => None,
    }
}

/// The value of the column with the given path in a document: the empty
/// value where the path leads nowhere, and none where it leads to an array
/// or an object.
pub open spec fn column_value(document: JsonValue, path: Seq<Seq<char>>) -> Option<Seq<char>> {
    match followed(document, path) {
        Some(value) => formatted(value),
        None => Some(Seq::empty()),
    }
}

/// Whether a path leads to a column value in the given document.
pub open spec fn has_value(document: JsonValue) -> spec_fn(Seq<Seq<char>>) -> bool {
    |path: Seq<Seq<char>>| column_value(document, path) is Some
}

/// A subset of the fields returned by a provider: the paths of the fields
/// that become columns, in the order of the columns.
#[derive(Debug)]
pub struct Structure {
    /// Number of columns added.
    column_count: usize,
    /// The paths of the fields to include.
    paths: Vec<Vec<String>>,
}

/// The member of an object with the given name.
fn find_member<'a>(members: &'a Vec<(String, JsonValue)>, name: &str) -> (found: Option<
    &'a JsonValue,
>)
    ensures
        match member_named(members@, name@) {
            Some(value) => found == Some(&value),
            None => found is None,
        },
{
    let mut i: usize = members.len();
    assert(members@.take(i as int) =~= members@);
    while i > 0
        invariant
            i <= members.len(),
            member_named(members@, name@) == member_named(members@.take(i as int), name@),
        decreases i,
    {
        i -= 1;
        assert(members@.take(i + 1).drop_last() =~= members@.take(i as int));
        assert(members@.take(i + 1).last() == members@[i as int]);
        if str_eq(members[i].0.as_str(), name) {
            return Some(&members[i].1);
        }
    }
    None
}

/// What a path leads to in a document.
fn follow<'a>(document: &'a JsonValue, path: &Vec<String>) -> (found: Option<&'a JsonValue>)
    ensures
        match followed(*document, views(path@)) {
            Some(value) => found == Some(&value),
            None => found is None,
        },
{
    let mut focus = document;
    let mut i: usize = 0;
    assert(views(path@).skip(0) =~= views(path@));
    while i < path.len()
        invariant
            i <= path.len(),
            followed(*document, views(path@)) == followed(*focus, views(path@).skip(i as int)),
        decreases path.len() - i,
    {
        proof {
            assert(views(path@).skip(i as int).drop_first() =~= views(path@).skip(i + 1));
            assert(views(path@).skip(i as int).first() == path@[i as int]@);
        }
        let next = match focus {
            JsonValue::Object(members) => find_member(members, path[i].as_str()),
            _ => None,
        };
        match next {
            Some(value) => {
                focus = value;
            },
            None => {
                return None;
            },
        }
        i += 1;
    }
    Some(focus)
}

/// The column value that stands for a JSON value.
fn format_value(value: &JsonValue) -> (text: Option<String>)
    ensures
        match formatted(*value) {
            Some(expected) => text is Some && text->0@ == expected,
            None => text is None,
        },
{
    match value {
        JsonValue::Bool(b) => {
            if *b {
                Some("T".to_owned())
            } else {
                Some("F".to_owned())
            }
        },
        JsonValue::Null => Some(String::new()),
        JsonValue::Number(n) => Some(n.clone()),
        JsonValue::String(s) => Some(s.clone()),
        JsonValue::Array(_) => None,
        JsonValue::Object(_) => None,
    }
}

/// A path of one name.
fn path_of(name: &String) -> (path: Vec<String>)
    ensures
        path@.len() == 1,
        views(path@) == seq![name@],
{
    let mut path: Vec<String> = Vec::new();
    path.push(name.clone());
    assert(views(path@) =~= seq![name@]);
    path
}

/// A path of two names.
fn path_in(group: &String, name: &String) -> (path: Vec<String>)
    ensures
        path@.len() == 2,
        views(path@) == seq![group@, name@],
{
    let mut path: Vec<String> = Vec::new();
    path.push(group.clone());
    path.push(name.clone());
    assert(views(path@) =~= seq![group@, name@]);
    path
}

/// The leaves of the first members come first among those of all.
proof fn lemma_visits_split(fields: Seq<(String, JsonValue)>, i: int)
    requires
        0 <= i <= fields.len(),
    ensures
        visits(fields) == visits(fields.take(i)) + visits(fields.skip(i)),
    decreases fields.len(),
{
    if i == fields.len() {
        assert(fields.take(i) =~= fields);
        assert(fields.skip(i) =~= Seq::<(String, JsonValue)>::empty());
        assert(visits(fields) + Seq::<Visit>::empty() =~= visits(fields));
    } else {
        let front = fields.drop_last();
        lemma_visits_split(front, i);
        assert(front.take(i) =~= fields.take(i));
        assert(fields.skip(i).drop_last() =~= front.skip(i));
        assert(fields.skip(i).last() == fields.last());
        let a = visits(fields.take(i));
        let b = visits(front.skip(i));
        let c = visit_member(fields.last());
        assert((a + b) + c =~= a + (b + c));
    }
}

/// The leaves of the first members of a group come first among those of
/// all.
proof fn lemma_visits_in_group_split(group: Seq<char>, members: Seq<(String, JsonValue)>, i: int)
    requires
        0 <= i <= members.len(),
    ensures
        visits_in_group(group, members) == visits_in_group(group, members.take(i))
            + visits_in_group(group, members.skip(i)),
    decreases members.len(),
{
    if i == members.len() {
        assert(members.take(i) =~= members);
        assert(members.skip(i) =~= Seq::<(String, JsonValue)>::empty());
        assert(visits_in_group(group, members) + Seq::<Visit>::empty() =~= visits_in_group(
            group,
            members,
        ));
    } else {
        let front = members.drop_last();
        lemma_visits_in_group_split(group, front, i);
        assert(front.take(i) =~= members.take(i));
        assert(members.skip(i).drop_last() =~= front.skip(i));
        assert(members.skip(i).last() == members.last());
        let a = visits_in_group(group, members.take(i));
        let b = visits_in_group(group, front.skip(i));
        let c = visit_in_group(group, members.last());
        assert((a + b) + c =~= a + (b + c));
    }
}

impl Structure {
    /// The paths of the fields that become columns, in the order of the
    /// columns.
    pub closed spec fn paths(&self) -> Seq<Seq<Seq<char>>> {
        path_views(self.paths@)
    }

    /// The names of the columns: of each path, the last name.
    pub open spec fn column_names(&self) -> Seq<Seq<char>> {
        Seq::new(self.paths().len(), |i: int| self.paths()[i].last())
    }

    /// Every path has a name at least.
    pub open spec fn wf(&self) -> bool {
        forall|i: int| 0 <= i < self.paths().len() ==> (#[trigger] self.paths()[i]).len() > 0
    }

    /// Every path has a name at least, and the columns are counted.
    #[verifier::type_invariant]
    spec fn consistent(&self) -> bool {
        &&& self.column_count == self.paths@.len()
        &&& forall|i: int| 0 <= i < self.paths@.len() ==> (#[trigger] self.paths@[i])@.len() > 0
    }

    /// Walks through the members of a structure and gathers the path of
    /// each field that is marked `true`: a member that is `true` is a
    /// field, a member that is `false` is left out, and a member that is an
    /// object is a group whose members are taken likewise. The order is
    /// that of the document. Anything else in the structure is an error,
    /// with the path of the first such value.
    pub fn traverse(fields: &Vec<(String, JsonValue)>) -> (r: Result<
        Vec<Vec<String>>,
        StructureError,
    >)
        ensures
            match first_not(visits(fields@), valid()) {
                Some(invalid) => r matches Err(StructureError::InvalidStructure(path)) && views(
                    path@,
                ) == invalid.path,
                None => r matches Ok(paths) && path_views(paths@) == visited_paths(
                    visits(fields@),
                ) && forall|i: int| 0 <= i < paths@.len() ==> (#[trigger] paths@[i])@.len() > 0,
            },
    {
        let ghost all = visits(fields@);
        let mut paths: Vec<Vec<String>> = Vec::new();
        let mut i: usize = 0;
        assert(fields@.take(0) =~= Seq::<(String, JsonValue)>::empty());
        assert(path_views(paths@) =~= visited_paths(visits(fields@.take(0))));
        while i < fields.len()
            invariant
                i <= fields.len(),
                all == visits(fields@),
                first_not(visits(fields@.take(i as int)), valid()) is None,
                path_views(paths@) == visited_paths(visits(fields@.take(i as int))),
                forall|k: int| 0 <= k < paths@.len() ==> (#[trigger] paths@[k])@.len() > 0,
            decreases fields.len() - i,
        {
            let key = &fields[i].0;
            let value = &fields[i].1;
            let ghost done = visits(fields@.take(i as int));
            let ghost these = visit_member(fields@[i as int]);
            let ghost rest = visits(fields@.skip(i + 1));
            let ghost before = path_views(paths@);
            proof {
                assert(fields@.take(i + 1).drop_last() =~= fields@.take(i as int));
                assert(fields@.take(i + 1).last() == fields@[i as int]);
                lemma_visits_split(fields@, i + 1);
                assert(all == (done + these) + rest);
                lemma_first_not_concat(done, these, valid());
                lemma_first_not_concat(done + these, rest, valid());
            }
            match value {
                JsonValue::Bool(true) => {
                    proof {
                        assert(these =~= seq![these[0]]);
                        lemma_first_not_single(these[0], valid());
                    }
                    paths.push(path_of(key));
                    proof {
                        assert forall|k: int| 0 <= k < paths@.len() implies path_views(paths@)[k]
                            == visited_paths(done + these)[k] by {
                            if k < before.len() {
                                assert(path_views(paths@)[k] == before[k]);
                            }
                        }
                        assert(before.len() == visited_paths(done).len());
                        assert(path_views(paths@).len() == before.len() + 1);
                        assert(path_views(paths@) =~= visited_paths(done + these));
                    }
                },
                JsonValue::Bool(false) => {
                    assert(done + these =~= done);
                },
                JsonValue::Object(members) => {
                    let mut j: usize = 0;
                    assert(members@.take(0) =~= Seq::<(String, JsonValue)>::empty());
                    assert(done + visits_in_group(key@, members@.take(0)) =~= done);
                    while j < members.len()
                        invariant
                            j <= members.len(),
                            these == visits_in_group(key@, members@),
                            all == visits(fields@),
                            all == (done + these) + rest,
                            first_not(
                                done + visits_in_group(key@, members@.take(j as int)),
                                valid(),
                            ) is None,
                            path_views(paths@) == visited_paths(
                                done + visits_in_group(key@, members@.take(j as int)),
                            ),
                            forall|k: int|
                                0 <= k < paths@.len() ==> (#[trigger] paths@[k])@.len() > 0,
                        decreases members.len() - j,
                    {
                        let inner_key = &members[j].0;
                        let ghost so_far = done + visits_in_group(key@, members@.take(j as int));
                        let ghost this = visit_in_group(key@, members@[j as int]);
                        let ghost later = visits_in_group(key@, members@.skip(j + 1));
                        let ghost had = path_views(paths@);
                        proof {
                            assert(members@.take(j + 1).drop_last() =~= members@.take(j as int));
                            assert(members@.take(j + 1).last() == members@[j as int]);
                            lemma_visits_in_group_split(key@, members@, j + 1);
                            assert(done + visits_in_group(key@, members@.take(j + 1)) =~= so_far
                                + this);
                            assert(all =~= (so_far + this) + (later + rest));
                            lemma_first_not_concat(so_far, this, valid());
                            lemma_first_not_concat(so_far + this, later + rest, valid());
                        }
                        match &members[j].1 {
                            JsonValue::Bool(true) => {
                                proof {
                                    assert(this =~= seq![this[0]]);
                                    lemma_first_not_single(this[0], valid());
                                }
                                paths.push(path_in(key, inner_key));
                                proof {
                                    assert forall|k: int| 0 <= k < paths@.len() implies path_views(
                                        paths@,
                                    )[k] == visited_paths(so_far + this)[k] by {
                                        if k < had.len() {
                                            assert(path_views(paths@)[k] == had[k]);
                                        }
                                    }
                                    assert(had.len() == visited_paths(so_far).len());
                                    assert(path_views(paths@).len() == had.len() + 1);
                                    assert(path_views(paths@) =~= visited_paths(so_far + this));
                                }
                            },
                            JsonValue::Bool(false) => {
                                assert(so_far + this =~= so_far);
                            },
                            _ => {
                                proof {
                                    assert(this =~= seq![this[0]]);
                                    lemma_first_not_single(this[0], valid());
                                }
                                return Err(
                                    StructureError::InvalidStructure(path_in(key, inner_key)),
                                );
                            },
                        }
                        j += 1;
                    }
                    assert(members@.take(members@.len() as int) =~= members@);
                },
                _ => {
                    proof {
                        assert(these =~= seq![these[0]]);
                        lemma_first_not_single(these[0], valid());
                    }
                    return Err(StructureError::InvalidStructure(path_of(key)));
                },
            }
            i += 1;
        }
        assert(fields@.take(fields@.len() as int) =~= fields@);
        Ok(paths)
    }

    /// The structure that a JSON document describes. The document is an
    /// object whose members are `true` for a field to include, `false` for
    /// one to leave out, or a group: an object with such members.
    pub fn from_json(document: &JsonValue) -> (r: Result<Structure, StructureError>)
        ensures
            match *document {
                JsonValue::Object(fields) => match first_not(visits(fields@), valid()) {
                    Some(invalid) => r matches Err(StructureError::InvalidStructure(path))
                        && views(path@) == invalid.path,
                    None => r matches Ok(structure) && structure.wf() && structure.paths()
                        == visited_paths(visits(fields@)),
                },
                _ => r == Err::<Structure, StructureError>(StructureError::NotAnObject),
            },
    {
        match document {
            JsonValue::Object(fields) => match Structure::traverse(fields) {
                Ok(paths) => Ok(Structure { column_count: paths.len(), paths }),
                Err(e) => Err(e),
            },
            _ => Err(StructureError::NotAnObject),
        }
    }

    /// The number of columns that this structure adds.
    pub fn column_count(&self) -> (n: usize)
        ensures
            n == self.paths().len(),
    {
        proof {
            use_type_invariant(self);
        }
        self.column_count
    }

    /// Return all the columns that this structure will add to a CSV file.
    pub fn output_column_names(&self) -> (r: Result<Vec<String>, StructureError>)
        ensures
            r matches Ok(names) && views(names@) == self.column_names(),
    {
        proof {
            use_type_invariant(self);
        }
        let mut columns: Vec<String> = Vec::new();
        let mut i: usize = 0;
        while i < self.paths.len()
            invariant
                i <= self.paths.len(),
                self.consistent(),
                columns@.len() == i,
                forall|k: int| 0 <= k < i ==> (#[trigger] columns@[k])@ == self.column_names()[k],
            decreases self.paths.len() - i,
        {
            let path = &self.paths[i];
            assert(self.paths()[i as int] == views(path@));
            columns.push(path[path.len() - 1].clone());
            i += 1;
        }
        assert(views(columns@) =~= self.column_names());
        Ok(columns)
    }

    /// Extract the fields of `data` that become columns: for each column
    /// its value, in the order of the columns. A field that `data` does
    /// not have gives an empty value. An array or an object in the place of
    /// a value is an error, with the path of the first such field.
    pub fn value_columns_for(&self, data: &JsonValue) -> (r: Result<Vec<String>, StructureError>)
        ensures
            match first_not(self.paths(), has_value(*data)) {
                Some(path) => r matches Err(StructureError::UnexpectedValue(found)) && views(
                    found@,
                ) == path,
                None => r matches Ok(values) && values@.len() == self.paths().len() && forall|
                    i: int,
                |
                    0 <= i < values@.len() ==> Some((#[trigger] values@[i])@) == column_value(
                        *data,
                        self.paths()[i],
                    ),
            },
    {
        let ghost paths = self.paths();
        let mut result: Vec<String> = Vec::new();
        let mut i: usize = 0;
        assert(paths.take(0) =~= Seq::<Seq<Seq<char>>>::empty());
        while i < self.paths.len()
            invariant
                i <= self.paths.len(),
                paths == self.paths(),
                first_not(paths.take(i as int), has_value(*data)) is None,
                result@.len() == i,
                forall|k: int|
                    0 <= k < i ==> Some((#[trigger] result@[k])@) == column_value(*data, paths[k]),
            decreases self.paths.len() - i,
        {
            let path = &self.paths[i];
            proof {
                assert(paths[i as int] == views(path@));
                assert(paths.take(i + 1) =~= paths.take(i as int) + seq![paths[i as int]]);
                lemma_first_not_concat(paths.take(i as int), seq![paths[i as int]], has_value(*data));
                lemma_first_not_single(paths[i as int], has_value(*data));
                assert(paths =~= paths.take(i + 1) + paths.skip(i + 1));
                lemma_first_not_concat(paths.take(i + 1), paths.skip(i + 1), has_value(*data));
            }
            match follow(data, path) {
                None => {
                    // No value present, so push an empty field.
                    result.push(String::new());
                },
                Some(focus) => {
                    match format_value(focus) {
                        Some(formatted) => {
                            result.push(formatted);
                        },
                        None => {
                            return Err(
                                StructureError::UnexpectedValue(
                                    crate::geocoders::clone_strings(path.as_slice()),
                                ),
                            );
                        },
                    }
                },
            }
            i += 1;
        }
        assert(paths.take(paths.len() as int) =~= paths);
        Ok(result)
    }
}

/// The fields at the top of a provider's document that become columns.
pub open spec fn top_names() -> Seq<Seq<char>> {
    seq![
        "addressee"@,
        "delivery_line_1"@,
        "delivery_line_2"@,
        "last_line"@,
        "delivery_point_barcode"@,
    ]
}

/// The fields of the group `components` that become columns.
pub open spec fn component_names() -> Seq<Seq<char>> {
    seq![
        "urbanization"@,
        "primary_number"@,
        "street_name"@,
        "street_predirection"@,
        "street_postdirection"@,
        "street_suffix"@,
        "secondary_number"@,
        "secondary_designator"@,
        "extra_secondary_number"@,
        "extra_secondary_designator"@,
        "pmb_designator"@,
        "pmb_number"@,
        "city_name"@,
        "default_city_name"@,
        "state_abbreviation"@,
        "zipcode"@,
        "plus4_code"@,
        "delivery_point"@,
        "delivery_point_check_digit"@,
    ]
}

/// The fields of the group `metadata` that become columns.
pub open spec fn metadata_names() -> Seq<Seq<char>> {
    seq![
        "record_type"@,
        "zip_type"@,
        "county_fips"@,
        "county_name"@,
        "carrier_route"@,
        "congressional_district"@,
        "building_default_indicator"@,
        "rdi"@,
        "elot_sequence"@,
        "elot_sort"@,
        "latitude"@,
        "longitude"@,
        "precision"@,
        "time_zone"@,
        "utc_offset"@,
        "dst"@,
    ]
}

/// The fields of the group `analysis` that become columns.
pub open spec fn analysis_names() -> Seq<Seq<char>> {
    seq![
        "dpv_match_code"@,
        "dpv_footnotes"@,
        "dpv_cmra"@,
        "dpv_vacant"@,
        "active"@,
        "ews_match"@,
        "footnotes"@,
        "lacslink_code"@,
        "lacslink_indicator"@,
        "suitelink_match"@,
    ]
}

/// The paths of fields at the top of a document.
pub open spec fn top_paths(names: Seq<Seq<char>>) -> Seq<Seq<Seq<char>>> {
    Seq::new(names.len(), |i: int| seq![names[i]])
}

/// The paths of fields in a group.
pub open spec fn group_paths(group: Seq<char>, names: Seq<Seq<char>>) -> Seq<Seq<Seq<char>>> {
    Seq::new(names.len(), |i: int| seq![group, names[i]])
}

/// The paths of all the fields that are normally cared about.
pub open spec fn complete_paths() -> Seq<Seq<Seq<char>>> {
    top_paths(top_names()) + group_paths("components"@, component_names()) + group_paths(
        "metadata"@,
        metadata_names(),
    ) + group_paths("analysis"@, analysis_names())
}

/// Adds the paths of fields at the top of a document.
fn push_top_paths(paths: &mut Vec<Vec<String>>, names: &Vec<&str>)
    requires
        forall|i: int| 0 <= i < old(paths)@.len() ==> (#[trigger] old(paths)@[i])@.len() > 0,
    ensures
        path_views(final(paths)@) == path_views(old(paths)@) + top_paths(str_views(names@)),
        forall|i: int| 0 <= i < final(paths)@.len() ==> (#[trigger] final(paths)@[i])@.len() > 0,
{
    let ghost before = path_views(paths@);
    let mut i: usize = 0;
    assert(path_views(paths@) =~= before + top_paths(str_views(names@).take(0)));
    while i < names.len()
        invariant
            i <= names.len(),
            path_views(paths@) == before + top_paths(str_views(names@).take(i as int)),
            forall|k: int| 0 <= k < paths@.len() ==> (#[trigger] paths@[k])@.len() > 0,
        decreases names.len() - i,
    {
        let ghost had = path_views(paths@);
        let mut path: Vec<String> = Vec::new();
        path.push(names[i].to_owned());
        assert(views(path@) =~= seq![names@[i as int]@]);
        paths.push(path);
        i += 1;
        proof {
            let now = before + top_paths(str_views(names@).take(i as int));
            assert(had.len() == before.len() + (i - 1));
            assert(path_views(paths@).len() == had.len() + 1);
            assert forall|k: int| 0 <= k < paths@.len() implies path_views(paths@)[k] == now[k] by {
                if k < had.len() {
                    assert(path_views(paths@)[k] == had[k]);
                }
            }
            assert(path_views(paths@) =~= now);
        }
    }
    assert(str_views(names@).take(names@.len() as int) =~= str_views(names@));
}

/// Adds the paths of fields in a group.
fn push_group_paths(paths: &mut Vec<Vec<String>>, group: &str, names: &Vec<&str>)
    requires
        forall|i: int| 0 <= i < old(paths)@.len() ==> (#[trigger] old(paths)@[i])@.len() > 0,
    ensures
        path_views(final(paths)@) == path_views(old(paths)@) + group_paths(
            group@,
            str_views(names@),
        ),
        forall|i: int| 0 <= i < final(paths)@.len() ==> (#[trigger] final(paths)@[i])@.len() > 0,
{
    let ghost before = path_views(paths@);
    let mut i: usize = 0;
    assert(path_views(paths@) =~= before + group_paths(group@, str_views(names@).take(0)));
    while i < names.len()
        invariant
            i <= names.len(),
            path_views(paths@) == before + group_paths(group@, str_views(names@).take(i as int)),
            forall|k: int| 0 <= k < paths@.len() ==> (#[trigger] paths@[k])@.len() > 0,
        decreases names.len() - i,
    {
        let ghost had = path_views(paths@);
        let mut path: Vec<String> = Vec::new();
        path.push(group.to_owned());
        path.push(names[i].to_owned());
        assert(views(path@) =~= seq![group@, names@[i as int]@]);
        paths.push(path);
        i += 1;
        proof {
            let now = before + group_paths(group@, str_views(names@).take(i as int));
            assert(had.len() == before.len() + (i - 1));
            assert(path_views(paths@).len() == had.len() + 1);
            assert forall|k: int| 0 <= k < paths@.len() implies path_views(paths@)[k] == now[k] by {
                if k < had.len() {
                    assert(path_views(paths@)[k] == had[k]);
                }
            }
            assert(path_views(paths@) =~= now);
        }
    }
    assert(str_views(names@).take(names@.len() as int) =~= str_views(names@));
}

impl Structure {
    /// A `Structure` including all the fields that are normally cared
    /// about: five at the top of the document, and those of the groups
    /// `components`, `metadata` and `analysis`.
    pub fn complete() -> (r: Result<Structure, StructureError>)
        ensures
            r matches Ok(structure) && structure.wf() && structure.paths() == complete_paths(),
    {
        let top = vec![
            "addressee",
            "delivery_line_1",
            "delivery_line_2",
            "last_line",
            "delivery_point_barcode",
        ];
        assert(str_views(top@) =~= top_names());
        let components = vec![
            "urbanization",
            "primary_number",
            "street_name",
            "street_predirection",
            "street_postdirection",
            "street_suffix",
            "secondary_number",
            "secondary_designator",
            "extra_secondary_number",
            "extra_secondary_designator",
            "pmb_designator",
            "pmb_number",
            "city_name",
            "default_city_name",
            "state_abbreviation",
            "zipcode",
            "plus4_code",
            "delivery_point",
            "delivery_point_check_digit",
        ];
        assert(str_views(components@) =~= component_names());
        let metadata = vec![
            "record_type",
            "zip_type",
            "county_fips",
            "county_name",
            "carrier_route",
            "congressional_district",
            "building_default_indicator",
            "rdi",
            "elot_sequence",
            "elot_sort",
            "latitude",
            "longitude",
            "precision",
            "time_zone",
            "utc_offset",
            "dst",
        ];
        assert(str_views(metadata@) =~= metadata_names());
        let analysis = vec![
            "dpv_match_code",
            "dpv_footnotes",
            "dpv_cmra",
            "dpv_vacant",
            "active",
            "ews_match",
            "footnotes",
            "lacslink_code",
            "lacslink_indicator",
            "suitelink_match",
        ];
        assert(str_views(analysis@) =~= analysis_names());
        let mut paths: Vec<Vec<String>> = Vec::new();
        assert(path_views(paths@) =~= Seq::<Seq<Seq<char>>>::empty());
        push_top_paths(&mut paths, &top);
        push_group_paths(&mut paths, "components", &components);
        push_group_paths(&mut paths, "metadata", &metadata);
        push_group_paths(&mut paths, "analysis", &analysis);
        assert(path_views(paths@) =~= complete_paths());
        Ok(Structure { column_count: paths.len(), paths })
    }
}

} // verus!
