use vstd::prelude::*;
use vstd::string::*;
use crate::text::{holds, list_holds, text_is};

verus! {

/// The character of a decimal digit.
pub open spec fn digit_char(digit: nat) -> char {
    if digit == 0 {
        '0'
    } else if digit == 1 {
        '1'
    } else if digit == 2 {
        '2'
    } else if digit == 3 {
        '3'
    } else if digit == 4 {
        '4'
    } else if digit == 5 {
        '5'
    } else if digit == 6 {
        '6'
    } else if digit == 7 {
        '7'
    } else if digit == 8 {
        '8'
    } else {
        '9'
    }
}

/// A number written in decimal digits, without leading zeros.
pub open spec fn decimal(number: nat) -> Seq<char>
    decreases number,
{
    if number < 10 {
        seq![digit_char(number)]
    } else {
        decimal(number / 10) + seq![digit_char(number % 10)]
    }
}

fn digit_text(digit: u8) -> (text: &'static str)
    requires
        digit < 10,
    ensures
        text@ == seq![digit_char(digit as nat)],
{
    proof {
        reveal_strlit("0");
        reveal_strlit("1");
        reveal_strlit("2");
        reveal_strlit("3");
        reveal_strlit("4");
        reveal_strlit("5");
        reveal_strlit("6");
        reveal_strlit("7");
        reveal_strlit("8");
        reveal_strlit("9");
    }
    let text: &'static str = match digit {
        0 => "0",
        1 => "1",
        2 => "2",
        3 => "3",
        4 => "4",
        5 => "5",
        6 => "6",
        7 => "7",
        8 => "8",
        _ => "9",
    };
    assert(text@ =~= seq![digit_char(digit as nat)]);
    text
}

/// Writes a number in decimal digits.
pub fn decimal_text(number: u128) -> (text: String)
    ensures
        text@ == decimal(number as nat),
    decreases number,
{
    if number < 10 {
        String::from_str(digit_text(number as u8))
    } else {
        let mut text: String = decimal_text(number / 10);
        text.append(digit_text((number % 10) as u8));
        text
    }
}

/// What naming reads of one record.
#[derive(Debug, Clone)]
pub struct Named {
    /// The record's type.
    pub record_type: String,
    /// The record's id, where it has one.
    pub id: Option<String>,
    /// The record's name, where it has one.
    pub name: Option<String>,
}

/// Where naming stands between two records: the running number, and the
/// names given so far.
pub struct Naming {
    pub counter: nat,
    pub taken: Seq<Seq<char>>,
}

/// Whether a record gets a file of its own: lines of dialogue do not.
pub open spec fn gets_file(record: Named) -> bool {
    record.record_type@ != "DialogueInfo"@
}

/// The name that a record asks for: its id; without an id its name, unless
/// that is empty; and else the running number.
pub open spec fn wanted_name(record: Named, counter: nat) -> Seq<char> {
    if record.id is Some {
        record.id->Some_0@
    } else if record.name is Some && record.name->Some_0@.len() > 0 {
        record.name->Some_0@
    } else {
        decimal(counter)
    }
}

/// The running number after a record has asked for its name: a record that
/// was named by the number uses it up.
pub open spec fn counter_after_wish(record: Named, counter: nat) -> nat {
    if record.id is Some || (record.name is Some && record.name->Some_0@.len() > 0) {
        counter
    } else {
        counter + 1
    }
}

/// Whether a name is among those given so far.
pub open spec fn is_taken(taken: Seq<Seq<char>>, name: Seq<char>) -> bool {
    exists|k: int| 0 <= k < taken.len() && #[trigger] taken[k] == name
}

/// The name that a record gets: the one it asks for, and where that is taken,
/// the same with an underscore and the running number behind it.
pub open spec fn given_name(record: Named, state: Naming) -> Seq<char> {
    let wanted = wanted_name(record, state.counter);
    if is_taken(state.taken, wanted) {
        wanted + seq!['_'] + decimal(counter_after_wish(record, state.counter))
    } else {
        wanted
    }
}

/// Where naming stands after a record: a line of dialogue changes nothing; any
/// other record adds its name to those given, and uses up the running number
/// each time it was written into a name.
pub open spec fn naming_after(record: Named, state: Naming) -> Naming {
    if !gets_file(record) {
        state
    } else {
        let counter = counter_after_wish(record, state.counter);
        Naming {
            counter: if is_taken(state.taken, wanted_name(record, state.counter)) {
                counter + 1
            } else {
                counter
            },
            taken: state.taken.push(given_name(record, state)),
        }
    }
}

/// Where naming stands after the first `count` records of a list.
pub open spec fn naming_upto(records: Seq<Named>, count: int) -> Naming
    decreases count,
{
    if count <= 0 {
        Naming { counter: 0, taken: Seq::empty() }
    } else {
        naming_after(records[count - 1], naming_upto(records, count - 1))
    }
}

/// The file name of record `index` of a list, if it gets a file: the name it
/// is given after the records before it, with `.json` behind.
pub open spec fn file_name_of(records: Seq<Named>, index: int) -> Option<Seq<char>> {
    if gets_file(records[index]) {
        Some(given_name(records[index], naming_upto(records, index)) + ".json"@)
    } else {
        None
    }
}

spec fn views_of(names: Seq<String>) -> Seq<Seq<char>> {
    Seq::new(names.len(), |k: int| names[k]@)
}

/// Gives every record that is written to a file of its own the name of that
/// file. A record is named by its id, else by its name, else by a running
/// number; a name that an earlier record has got is told apart by an
/// underscore and the running number. Lines of dialogue get no file.
pub fn file_names(records: &Vec<Named>) -> (names: Vec<Option<String>>)
    ensures
        names@.len() == records@.len(),
        forall|i: int|
            0 <= i < records@.len() ==> match #[trigger] names@[i] {
                Some(name) => file_name_of(records@, i) == Some(name@),
                None => file_name_of(records@, i) is None,
            },
{
    let mut names: Vec<Option<String>> = Vec::new();
    let mut all_file_names: Vec<String> = Vec::new();
    let mut counter: u128 = 0;
    let mut idx: usize = 0;
    while idx < records.len()
        invariant
            0 <= idx <= records@.len(),
            counter <= 2 * idx,
            naming_upto(records@, idx as int).counter == counter,
            naming_upto(records@, idx as int).taken == views_of(all_file_names@),
            names@.len() == idx,
            forall|i: int|
                0 <= i < idx ==> match #[trigger] names@[i] {
                    Some(name) => file_name_of(records@, i) == Some(name@),
                    None => file_name_of(records@, i) is None,
                },
        decreases records@.len() - idx,
    {
        let record = &records[idx];
        let ghost state = naming_upto(records@, idx as int);
        if text_is(record.record_type.as_str(), "DialogueInfo") {
            names.push(None);
        } else {
            let mut file_name: String = decimal_text(counter);
            match &record.id {
                Some(id) => {
                    file_name = id.clone();
                },
                None => {
                    match &record.name {
                        Some(name) => {
                            if !name.as_str().is_empty() {
                                file_name = name.clone();
                            } else {
                                counter = counter + 1;
                            }
                        },
                        None => {
                            counter = counter + 1;
                        },
                    }
                },
            }
            assert(file_name@ == wanted_name(*record, state.counter));
            assert(counter == counter_after_wish(*record, state.counter));
            proof {
                let taken = views_of(all_file_names@);
                if holds(all_file_names@, file_name@) {
                    let k = choose|k: int|
                        0 <= k < all_file_names@.len() && (#[trigger] all_file_names@[k])@
                            == file_name@;
                    assert(taken[k] == file_name@);
                }
                if is_taken(taken, file_name@) {
                    let k = choose|k: int| 0 <= k < taken.len() && #[trigger] taken[k] == file_name@;
                    assert(all_file_names@[k]@ == file_name@);
                }
            }
            if list_holds(&all_file_names, file_name.as_str()) {
                file_name.append("_");
                file_name.append(decimal_text(counter).as_str());
                counter = counter + 1;
                proof {
                    reveal_strlit("_");
                    assert("_"@ =~= seq!['_']);
                }
            }
            assert(file_name@ == given_name(*record, state));
            let ghost before = all_file_names@;
            all_file_names.push(file_name.clone());
            assert(views_of(all_file_names@) =~= views_of(before).push(file_name@));
            file_name.append(".json");
            names.push(Some(file_name));
        }
        idx = idx + 1;
    }
    names
}

} // verus!
