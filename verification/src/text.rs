use vstd::prelude::*;
use vstd::string::*;

verus! {

/// Whether a character is alphabetic in the sense of the Unicode standard.
pub uninterp spec fn is_letter(c: char) -> bool;

/// `char::is_alphabetic` of the standard library, which tells whether a
/// character has the Unicode property `Alphabetic`. Nothing is proved of it:
/// the contract only gives its answer the name `is_letter`.
pub assume_specification[ char::is_alphabetic ](c: char) -> (alphabetic: bool)
    ensures
        alphabetic == is_letter(c),
;

/// The number of bytes that a text takes in UTF-8.
pub open spec fn byte_len(text: Seq<char>) -> nat {
    vstd::utf8::encode_utf8(text).len()
}

/// Tells whether a text is a given word.
pub fn text_is(text: &str, word: &str) -> (same: bool)
    ensures
        same == (text@ == word@),
{
    let left: String = String::from_str(text);
    let right: String = String::from_str(word);
    left == right
}

/// The number of bytes that a text takes in UTF-8.
pub fn text_byte_len(text: &str) -> (len: usize)
    ensures
        len == byte_len(text@),
{
    text.as_bytes().len()
}

/// The first character of a text, if it has one.
pub fn first_char(text: &str) -> (first: Option<char>)
    ensures
        first == if text@.len() == 0 {
            None
        } else {
            Some(text@[0])
        },
{
    let mut chars = text.chars();
    chars.next()
}

/// Tells whether a list of texts holds a given text.
pub fn list_holds(list: &Vec<String>, text: &str) -> (found: bool)
    ensures
        found == holds(list@, text@),
{
    let mut i: usize = 0;
    while i < list.len()
        invariant
            0 <= i <= list@.len(),
            forall|k: int| 0 <= k < i ==> (#[trigger] list@[k])@ != text@,
        decreases list@.len() - i,
    {
        if text_is(list[i].as_str(), text) {
            return true;
        }
        i = i + 1;
    }
    false
}

/// Whether a list of texts holds a given text.
pub open spec fn holds(list: Seq<String>, text: Seq<char>) -> bool {
    exists|k: int| 0 <= k < list.len() && (#[trigger] list[k])@ == text
}

} // verus!
