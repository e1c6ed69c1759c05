use vstd::prelude::*;
use crate::text::{byte_len, first_char, holds, is_letter, list_holds, text_byte_len, text_is};

verus! {

/// What the checks read of one record.
#[derive(Debug, Clone)]
pub struct Record {
    /// The record's type, where it names one.
    pub record_type: Option<String>,
    /// The record's id, where it has one.
    pub id: Option<String>,
    /// The description of a header.
    pub description: Option<String>,
    /// The author of a header.
    pub author: Option<String>,
    /// The path of the record's mesh below the mesh directory, where it names one.
    pub mesh: Option<String>,
    /// Whether the built mesh was found on disk.
    pub mesh_found: bool,
    /// The path of the record's icon below the icon directory, where it names one.
    pub icon: Option<String>,
    /// Whether the built icon was found on disk.
    pub icon_found: bool,
}

/// What is wrong with one record taken by itself.
#[derive(Debug, Clone, Copy, PartialEq, Eq, Structural)]
pub enum RecordFault {
    /// The record names no type.
    NoType,
    /// The header has no description.
    NoDescription,
    /// The description of the header takes more than 256 bytes.
    DescriptionTooLong,
    /// The header has no author.
    NoAuthor,
    /// The author of the header takes more than 32 bytes.
    AuthorTooLong,
    /// The record names an empty mesh path and is no character.
    MeshNotDefined,
    /// The mesh that the record names has not been built.
    MeshNotFound,
    /// The record names an empty icon path.
    IconNotDefined,
    /// The icon that the record names has not been built.
    IconNotFound,
}

/// What is wrong with a list of records.
#[derive(Debug, Clone, Copy, PartialEq, Eq, Structural)]
pub enum JsonFault {
    /// The record at `index` names no type.
    NoType { index: usize },
    /// The type of the record at `index` is not one of the known types.
    UnknownType { index: usize },
    /// The record at `index` is faulty by itself.
    Record { index: usize, fault: RecordFault },
    /// The id of the record at `index` is empty.
    EmptyId { index: usize },
    /// The id of the record at `index` does not start with a letter.
    IdNotAlphabetic { index: usize },
    /// The id of the record at `index` is that of an earlier record.
    DuplicateId { index: usize },
}

/// Whether a record is of the type with the given name.
pub open spec fn is_of_type(record: Record, name: Seq<char>) -> bool {
    record.record_type is Some && record.record_type->Some_0@ == name
}

/// What is wrong with a header, if anything: it must have a description of
/// at most 256 bytes and an author of at most 32.
pub open spec fn header_fault(record: Record) -> Option<RecordFault> {
    if record.description is None {
        Some(RecordFault::NoDescription)
    } else if byte_len(record.description->Some_0@) > 256 {
        Some(RecordFault::DescriptionTooLong)
    } else if record.author is None {
        Some(RecordFault::NoAuthor)
    } else if byte_len(record.author->Some_0@) > 32 {
        Some(RecordFault::AuthorTooLong)
    } else {
        None
    }
}

/// What is wrong with a record, if anything; of several faults the first in
/// the order of `RecordFault`. Characters alone may go without a mesh path.
pub open spec fn record_fault(record: Record) -> Option<RecordFault> {
    if record.record_type is None {
        Some(RecordFault::NoType)
    } else if is_of_type(record, "Header"@) && header_fault(record) is Some {
        header_fault(record)
    } else if record.mesh is Some && record.mesh->Some_0@.len() == 0 && !is_of_type(
        record,
        "Npc"@,
    ) {
        Some(RecordFault::MeshNotDefined)
    } else if record.mesh is Some && !record.mesh_found {
        Some(RecordFault::MeshNotFound)
    } else if record.icon is Some && record.icon->Some_0@.len() == 0 {
        Some(RecordFault::IconNotDefined)
    } else if record.icon is Some && !record.icon_found {
        Some(RecordFault::IconNotFound)
    } else {
        None
    }
}

/// Tells whether a record is of the type with the given name.
pub fn record_is(record: &Record, name: &str) -> (same: bool)
    ensures
        same == is_of_type(*record, name@),
{
    match &record.record_type {
        Some(record_type) => text_is(record_type.as_str(), name),
        None => false,
    }
}

/// Checks one record by itself: the length limits of a header, and that a
/// mesh and an icon, where the record names them, are named and built.
pub fn validate_single_record(record: &Record) -> (result: Result<(), RecordFault>)
    ensures
        result == match record_fault(*record) {
            Some(fault) => Err::<(), RecordFault>(fault),
            None => Ok::<(), RecordFault>(()),
        },
{
    if record.record_type.is_none() {
        return Err(RecordFault::NoType);
    }
    if record_is(record, "Header") {
        match &record.description {
            Some(description) => {
                if text_byte_len(description.as_str()) > 256 {
                    return Err(RecordFault::DescriptionTooLong);
                }
            },
            None => {
                return Err(RecordFault::NoDescription);
            },
        }
        match &record.author {
            Some(author) => {
                if text_byte_len(author.as_str()) > 32 {
                    return Err(RecordFault::AuthorTooLong);
                }
            },
            None => {
                return Err(RecordFault::NoAuthor);
            },
        }
    }
    match &record.mesh {
        Some(mesh) => {
            if mesh.as_str().is_empty() && !record_is(record, "Npc") {
                return Err(RecordFault::MeshNotDefined);
            }
            if !record.mesh_found {
                return Err(RecordFault::MeshNotFound);
            }
        },
        None => {},
    }
    match &record.icon {
        Some(icon) => {
            if icon.as_str().is_empty() {
                return Err(RecordFault::IconNotDefined);
            }
            if !record.icon_found {
                return Err(RecordFault::IconNotFound);
            }
        },
        None => {},
    }
    Ok(())
}

/// What the first pass over a list finds wrong with the record at `index`: it
/// must name a type, the type must be known (a dialogue line always is), and
/// the record must be sound by itself.
pub open spec fn type_fault(records: Seq<Record>, record_types: Seq<String>, index: int) -> Option<
    JsonFault,
> {
    let record = records[index];
    if record.record_type is None {
        Some(JsonFault::NoType { index: index as usize })
    } else if !holds(record_types, record.record_type->Some_0@) && !is_of_type(
        record,
        "DialogueInfo"@,
    ) {
        Some(JsonFault::UnknownType { index: index as usize })
    } else {
        match record_fault(record) {
            Some(fault) => Some(JsonFault::Record { index: index as usize, fault }),
            None => None,
        }
    }
}

/// Whether an earlier record than the one at `index` has the same id.
pub open spec fn id_seen_before(records: Seq<Record>, index: int) -> bool {
    exists|earlier: int|
        0 <= earlier < index && (#[trigger] records[earlier]).id is Some
            && records[earlier].id->Some_0@ == records[index].id->Some_0@
}

/// What the second pass over a list finds wrong with the record at `index`: an
/// id must not be empty, must start with a letter unless the record is a
/// dialogue line, and must not be the id of an earlier record.
pub open spec fn id_fault(records: Seq<Record>, index: int) -> Option<JsonFault> {
    let record = records[index];
    if record.id is None {
        None
    } else if record.id->Some_0@.len() == 0 {
        Some(JsonFault::EmptyId { index: index as usize })
    } else if !is_letter(record.id->Some_0@[0]) && !is_of_type(record, "DialogueInfo"@) {
        Some(JsonFault::IdNotAlphabetic { index: index as usize })
    } else if id_seen_before(records, index) {
        Some(JsonFault::DuplicateId { index: index as usize })
    } else {
        None
    }
}

/// The first record at or after `from` with which the first pass finds
/// something wrong; the number of records if there is none.
pub open spec fn first_type_fault(records: Seq<Record>, record_types: Seq<String>, from: int) -> int
    decreases records.len() - from,
{
    if from >= records.len() {
        records.len() as int
    } else if type_fault(records, record_types, from) is Some {
        from
    } else {
        first_type_fault(records, record_types, from + 1)
    }
}

/// The first record at or after `from` with which the second pass finds
/// something wrong; the number of records if there is none.
pub open spec fn first_id_fault(records: Seq<Record>, from: int) -> int
    decreases records.len() - from,
{
    if from >= records.len() {
        records.len() as int
    } else if id_fault(records, from) is Some {
        from
    } else {
        first_id_fault(records, from + 1)
    }
}

/// What is wrong with a list of records, if anything: what the first pass
/// finds with the first record that it objects to, and only if it objects to
/// none, what the second pass finds with the first record that it objects to.
pub open spec fn json_fault(records: Seq<Record>, record_types: Seq<String>) -> Option<JsonFault> {
    let by_type = first_type_fault(records, record_types, 0);
    let by_id = first_id_fault(records, 0);
    if by_type < records.len() {
        type_fault(records, record_types, by_type)
    } else if by_id < records.len() {
        id_fault(records, by_id)
    } else {
        None
    }
}

/// Tells whether an earlier record than the one at `index` has the same id.
fn seen_before(records: &Vec<Record>, index: usize, id: &str) -> (seen: bool)
    requires
        index < records@.len(),
        records@[index as int].id is Some,
        records@[index as int].id->Some_0@ == id@,
    ensures
        seen == id_seen_before(records@, index as int),
{
    let mut earlier: usize = 0;
    while earlier < index
        invariant
            0 <= earlier <= index < records@.len(),
            records@[index as int].id is Some,
            records@[index as int].id->Some_0@ == id@,
            forall|k: int|
                0 <= k < earlier ==> !((#[trigger] records@[k]).id is Some
                    && records@[k].id->Some_0@ == id@),
        decreases index - earlier,
    {
        match &records[earlier].id {
            Some(other) => {
                if text_is(other.as_str(), id) {
                    return true;
                }
            },
            None => {},
        }
        earlier = earlier + 1;
    }
    false
}

/// Checks a list of records as a whole. A first pass makes sure that every
/// record names a known type and is sound by itself; a second pass that every
/// id is a name (not empty, starting with a letter, but for dialogue lines) and
/// is used once. The first fault found ends the work.
pub fn validate_json(records: &Vec<Record>, record_types: &Vec<String>) -> (result: Result<
    (),
    JsonFault,
>)
    ensures
        result == match json_fault(records@, record_types@) {
            Some(fault) => Err::<(), JsonFault>(fault),
            None => Ok::<(), JsonFault>(()),
        },
{
    let mut i: usize = 0;
    while i < records.len()
        invariant
            0 <= i <= records@.len(),
            first_type_fault(records@, record_types@, 0) == first_type_fault(
                records@,
                record_types@,
                i as int,
            ),
        decreases records@.len() - i,
    {
        let record = &records[i];
        match &record.record_type {
            None => {
                return Err(JsonFault::NoType { index: i });
            },
            Some(record_type) => {
                if !list_holds(record_types, record_type.as_str()) && !record_is(
                    record,
                    "DialogueInfo",
                ) {
                    return Err(JsonFault::UnknownType { index: i });
                }
            },
        }
        match validate_single_record(record) {
            Err(fault) => {
                return Err(JsonFault::Record { index: i, fault });
            },
            Ok(()) => {},
        }
        i = i + 1;
    }
    let mut i: usize = 0;
    while i < records.len()
        invariant
            0 <= i <= records@.len(),
            first_type_fault(records@, record_types@, 0) == records@.len(),
            first_id_fault(records@, 0) == first_id_fault(records@, i as int),
        decreases records@.len() - i,
    {
        let record = &records[i];
        match &record.id {
            None => {},
            Some(id) => {
                match first_char(id.as_str()) {
                    None => {
                        return Err(JsonFault::EmptyId { index: i });
                    },
                    Some(first) => {
                        if !first.is_alphabetic() && !record_is(record, "DialogueInfo") {
                            return Err(JsonFault::IdNotAlphabetic { index: i });
                        }
                    },
                }
                if seen_before(records, i, id.as_str()) {
                    return Err(JsonFault::DuplicateId { index: i });
                }
            },
        }
        i = i + 1;
    }
    Ok(())
}

/// What filling in reads of one record.
#[derive(Debug, Clone)]
pub struct Unfilled {
    /// The record's type.
    pub record_type: String,
    /// Whether the record holds a number of objects as text.
    pub has_num_objects: bool,
    /// How many references the record lists, where it holds a list of them.
    pub references: Option<usize>,
    /// The landscape flags of the record, where it holds any.
    pub landscape_flags: Option<String>,
}

/// What has to be written into a record before it is packed.
#[derive(Debug, Clone, Copy, PartialEq, Eq, Structural)]
pub enum FillIn {
    /// Nothing.
    Nothing,
    /// The number of objects of the game.
    NumObjects { count: usize },
    /// For each of `count` references the master index zero and a reference
    /// index: `first_index` for the first, one more for each that follows.
    References { first_index: usize, count: usize },
}

/// Why a record cannot be filled in.
#[derive(Debug, Clone, Copy, PartialEq, Eq, Structural)]
pub enum FillFault {
    /// A cell holds no list of references.
    NoReferences,
    /// A landscape holds no flags.
    NoLandscapeFlags,
    /// A landscape has an empty string of flags.
    EmptyLandscapeFlags,
}

/// What has to be written into a record, or why it cannot be filled in. A
/// header gets the number of records unless it holds one as text; the
/// references of a cell are numbered on from `next_index`; a landscape must
/// have flags.
pub open spec fn fill_in_of(record: Unfilled, record_count: usize, next_index: usize) -> Result<
    FillIn,
    FillFault,
> {
    if record.record_type@ == "Header"@ {
        if record.has_num_objects {
            Ok(FillIn::Nothing)
        } else {
            Ok(FillIn::NumObjects { count: record_count })
        }
    } else if record.record_type@ == "Cell"@ {
        match record.references {
            Some(count) => Ok(FillIn::References { first_index: next_index, count }),
            None => Err(FillFault::NoReferences),
        }
    } else if record.record_type@ == "Landscape"@ {
        match record.landscape_flags {
            None => Err(FillFault::NoLandscapeFlags),
            Some(flags) => if flags@.len() == 0 {
                Err(FillFault::EmptyLandscapeFlags)
            } else {
                Ok(FillIn::Nothing)
            },
        }
    } else {
        Ok(FillIn::Nothing)
    }
}

/// How many reference indices a record uses up.
pub open spec fn references_used(record: Unfilled) -> int {
    if record.record_type@ == "Cell"@ && record.references is Some {
        record.references->Some_0 as int
    } else {
        0
    }
}

/// Says what has to be written into a record that the stored form leaves
/// out, and moves the counter of references past those of the record.
pub fn fill_in_single_record(
    record: &Unfilled,
    record_count: usize,
    last_reference_index: &mut usize,
) -> (result: Result<FillIn, FillFault>)
    requires
        *old(last_reference_index) + references_used(*record) <= usize::MAX,
    ensures
        result == fill_in_of(*record, record_count, *old(last_reference_index)),
        *final(last_reference_index) == *old(last_reference_index) + references_used(*record),
{
    proof {
        reveal_strlit("Header");
        reveal_strlit("Cell");
        reveal_strlit("Landscape");
        assert("Header"@.len() == 6 && "Cell"@.len() == 4 && "Landscape"@.len() == 9);
    }
    if text_is(record.record_type.as_str(), "Header") {
        if record.has_num_objects {
            Ok(FillIn::Nothing)
        } else {
            Ok(FillIn::NumObjects { count: record_count })
        }
    } else if text_is(record.record_type.as_str(), "Cell") {
        match record.references {
            Some(count) => {
                let first_index: usize = *last_reference_index;
                *last_reference_index = first_index + count;
                Ok(FillIn::References { first_index, count })
            },
            None => Err(FillFault::NoReferences),
        }
    } else if text_is(record.record_type.as_str(), "Landscape") {
        match &record.landscape_flags {
            Some(flags) => {
                if flags.as_str().is_empty() {
                    Err(FillFault::EmptyLandscapeFlags)
                } else {
                    Ok(FillIn::Nothing)
                }
            },
            None => Err(FillFault::NoLandscapeFlags),
        }
    } else {
        Ok(FillIn::Nothing)
    }
}

} // verus!
