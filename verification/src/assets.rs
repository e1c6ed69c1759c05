use vstd::prelude::*;
use vstd::string::*;
use crate::text::{holds, list_holds, text_is};

verus! {

/// What the build does with a file of the mesh directory.
#[derive(Debug, Clone, Copy, PartialEq, Eq, Structural)]
pub enum MeshAction {
    /// A binary glTF scene: it is converted to a COLLADA document.
    Convert,
    /// A file that the game reads as it is: it is copied.
    Copy,
    /// Any other file: it is left out of the build.
    Skip,
}

/// What the build does with a mesh file of the given extension.
pub open spec fn action_for(extension: Seq<char>) -> MeshAction {
    if extension == "glb"@ {
        MeshAction::Convert
    } else if extension == "dae"@ || extension == "txt"@ || extension == "osgt"@ {
        MeshAction::Copy
    } else {
        MeshAction::Skip
    }
}

/// Says what the build does with a mesh file of the given extension.
pub fn mesh_action(extension: &str) -> (action: MeshAction)
    ensures
        action == action_for(extension@),
{
    if text_is(extension, "glb") {
        MeshAction::Convert
    } else if text_is(extension, "dae") || text_is(extension, "txt") || text_is(extension, "osgt") {
        MeshAction::Copy
    } else {
        MeshAction::Skip
    }
}

/// Tells whether a file of the given extension is a packed game, which is
/// unpacked from a copy with the converter's own extension.
pub fn is_packed_game(extension: &str) -> (packed: bool)
    ensures
        packed == (extension@ == "omwgame"@ || extension@ == "omwaddon"@),
{
    text_is(extension, "omwgame") || text_is(extension, "omwaddon")
}

/// Notes that a file is written to `target`, unless one already is: the
/// answer is whether the target was free.
pub fn claim_target(claimed: &mut Vec<String>, target: &str) -> (free: bool)
    ensures
        free == !holds(old(claimed)@, target@),
        free ==> final(claimed)@.len() == old(claimed)@.len() + 1 && final(claimed)@.last()@
            == target@ && final(claimed)@.drop_last() == old(claimed)@,
        !free ==> final(claimed)@ == old(claimed)@,
{
    if list_holds(claimed, target) {
        false
    } else {
        let ghost before = claimed@;
        claimed.push(String::from_str(target));
        assert(claimed@.drop_last() =~= before);
        true
    }
}

/// A list of texts as the text of one JSON array: the texts in their order,
/// a comma and a line break between each two, in square brackets.
pub open spec fn array_text(texts: Seq<String>) -> Seq<char> {
    "["@ + joined(texts, texts.len() as int) + "]"@
}

/// The first `count` texts of a list with a comma and a line break between
/// each two.
pub open spec fn joined(texts: Seq<String>, count: int) -> Seq<char>
    decreases count,
{
    if count <= 0 {
        Seq::empty()
    } else if count == 1 {
        texts[0]@
    } else {
        joined(texts, count - 1) + ",\n"@ + texts[count - 1]@
    }
}

/// Writes a list of texts, each the text of one JSON value, as the text of
/// one JSON array.
pub fn json_array(texts: &Vec<String>) -> (json: String)
    ensures
        json@ == array_text(texts@),
{
    let mut json: String = String::from_str("[");
    let mut index: usize = 0;
    while index < texts.len()
        invariant
            0 <= index <= texts@.len(),
            json@ == "["@ + joined(texts@, index as int),
        decreases texts@.len() - index,
    {
        if index != 0 {
            json.append(",\n");
        }
        json.append(texts[index].as_str());
        index = index + 1;
        assert(json@ =~= "["@ + joined(texts@, index as int));
    }
    json.append("]");
    json
}

} // verus!
