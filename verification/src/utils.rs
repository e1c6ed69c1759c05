use vstd::prelude::*;
use vstd::string::*;

verus! {

/// A file to be written: the directory below the working directory, the
/// file's name in it, and the bytes it is to hold.
#[derive(Debug, Clone)]
pub struct FileToWrite {
    pub subpath: String,
    pub file: String,
    pub content: Vec<u8>,
}

/// Describes a text file to be written at a given subpath: the same place and
/// name, and the text's UTF-8 bytes as its content.
pub fn create_text_file(subpath: &str, file: &str, content: &str) -> (request: FileToWrite)
    ensures
        request.subpath@ == subpath@,
        request.file@ == file@,
        request.content@ == content.spec_bytes(),
{
    FileToWrite {
        subpath: String::from_str(subpath),
        file: String::from_str(file),
        content: content.as_bytes_vec(),
    }
}

} // verus!
