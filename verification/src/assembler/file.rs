//! A source file, read by line.
use crate::text::{chars_of, line_at, source_line, string_of};
use vstd::prelude::*;

verus! {

pub struct AsmFile {
    pub file: String,
}

impl AsmFile {
    /// A file with the given text.
    pub fn new(file: String) -> (f: AsmFile)
        ensures
            f.file@ == file@,
    {
        AsmFile { file: file }
    }

    /// Line `line_num` of the file, counting from one, without its line
    /// ending. Empty when the file has no such line.
    pub fn get_line(&self, line_num: usize) -> (line: String)
        ensures
            line@ == source_line(self.file@, line_num as int),
    {
        let chars = chars_of(self.file.as_str());
        let line = line_at(&chars, line_num);
        string_of(&line)
    }
}

} // verus!
