use vstd::prelude::*;
use crate::text::text_is;

verus! {

/// The place of one line of a dialogue in the chain of its lines: its own
/// number, and the numbers of the lines before and after it, where there are any.
#[derive(Debug, Clone, Copy, PartialEq, Eq, Structural)]
pub struct InfoLinks {
    pub id: i32,
    pub prev_id: Option<i32>,
    pub next_id: Option<i32>,
}

/// The links of line `index` among `count` lines that are numbered from `first`.
pub open spec fn links_of(first: int, count: int, index: int) -> InfoLinks {
    InfoLinks {
        id: (first + index) as i32,
        prev_id: if index == 0 {
            None
        } else {
            Some((first + index - 1) as i32)
        },
        next_id: if index == count - 1 {
            None
        } else {
            Some((first + index + 1) as i32)
        },
    }
}

/// Numbers the lines of one dialogue and chains them: the lines get the
/// numbers that follow the counter, each line points to the one before and
/// the one after it, and the first and the last line point to nothing on
/// their open side. The counter moves past the numbers that were given out.
pub fn link_dialogue_infos(count: usize, dialogue_info_id_counter: &mut i32) -> (links: Vec<
    InfoLinks,
>)
    requires
        *old(dialogue_info_id_counter) + count <= i32::MAX,
    ensures
        links@.len() == count,
        forall|i: int|
            0 <= i < count ==> #[trigger] links@[i] == links_of(
                *old(dialogue_info_id_counter) as int,
                count as int,
                i,
            ),
        *final(dialogue_info_id_counter) == *old(dialogue_info_id_counter) + count,
{
    let ghost first: int = *dialogue_info_id_counter as int;
    let mut links: Vec<InfoLinks> = Vec::new();
    let mut idx: usize = 0;
    while idx < count
        invariant
            0 <= idx <= count,
            i32::MIN <= first,
            first + count <= i32::MAX,
            *dialogue_info_id_counter == first + idx,
            links@.len() == idx,
            forall|i: int| 0 <= i < idx ==> #[trigger] links@[i] == links_of(first, count as int, i),
        decreases count - idx,
    {
        let id: i32 = *dialogue_info_id_counter;
        let prev_id: Option<i32> = if idx == 0 {
            None
        } else {
            Some(id - 1)
        };
        let next_id: Option<i32> = if idx == count - 1 {
            None
        } else {
            Some(id + 1)
        };
        links.push(InfoLinks { id, prev_id, next_id });
        *dialogue_info_id_counter = id + 1;
        idx = idx + 1;
    }
    links
}

/// How unpacking treats a record.
#[derive(Debug, Clone, Copy, PartialEq, Eq, Structural)]
pub enum RecordKind {
    /// A cell: its references lose their indices.
    Cell,
    /// A dialogue: it collects the lines that follow it.
    Dialogue,
    /// A line of a dialogue: it moves into the dialogue before it.
    DialogueInfo,
    /// Any other record: it is kept as it is.
    Other,
}

/// How unpacking treats a record of the type with the given name.
pub open spec fn kind_of(record_type: Seq<char>) -> RecordKind {
    if record_type == "Cell"@ {
        RecordKind::Cell
    } else if record_type == "Dialogue"@ {
        RecordKind::Dialogue
    } else if record_type == "DialogueInfo"@ {
        RecordKind::DialogueInfo
    } else {
        RecordKind::Other
    }
}

/// Says how unpacking treats a record of the type with the given name.
pub fn record_kind(record_type: &str) -> (kind: RecordKind)
    ensures
        kind == kind_of(record_type@),
{
    if text_is(record_type, "Cell") {
        RecordKind::Cell
    } else if text_is(record_type, "Dialogue") {
        RecordKind::Dialogue
    } else if text_is(record_type, "DialogueInfo") {
        RecordKind::DialogueInfo
    } else {
        RecordKind::Other
    }
}

/// The last dialogue among the first `count` records; the first record of
/// the list where there is none among them.
pub open spec fn last_dialogue(kinds: Seq<RecordKind>, count: int) -> int
    decreases count,
{
    if count <= 0 {
        0
    } else if kinds[count - 1] == RecordKind::Dialogue {
        count - 1
    } else {
        last_dialogue(kinds, count - 1)
    }
}

/// Says for every record into which record it moves: a line of a dialogue
/// into the last dialogue before it, every other record nowhere.
pub fn dialogue_owners(kinds: &Vec<RecordKind>) -> (owners: Vec<Option<usize>>)
    ensures
        owners@.len() == kinds@.len(),
        forall|i: int|
            0 <= i < kinds@.len() ==> #[trigger] owners@[i] == if kinds@[i]
                == RecordKind::DialogueInfo {
                Some(last_dialogue(kinds@, i) as usize)
            } else {
                None
            },
{
    let mut owners: Vec<Option<usize>> = Vec::new();
    let mut last: usize = 0;
    let mut idx: usize = 0;
    while idx < kinds.len()
        invariant
            0 <= idx <= kinds@.len(),
            last == last_dialogue(kinds@, idx as int),
            0 <= last <= idx,
            owners@.len() == idx,
            forall|i: int|
                0 <= i < idx ==> #[trigger] owners@[i] == if kinds@[i] == RecordKind::DialogueInfo {
                    Some(last_dialogue(kinds@, i) as usize)
                } else {
                    None
                },
        decreases kinds@.len() - idx,
    {
        match kinds[idx] {
            RecordKind::Dialogue => {
                owners.push(None);
                last = idx;
            },
            RecordKind::DialogueInfo => {
                owners.push(Some(last));
            },
            _ => {
                owners.push(None);
            },
        }
        idx = idx + 1;
    }
    owners
}

} // verus!
