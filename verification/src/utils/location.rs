use crate::lexing::chars::{is_whitespace, whitespace_char};
use crate::utils::text::{chars_of, concat, dec, lines_of, split_lines, usize_to_string};
use vstd::prelude::*;
use vstd::string::*;

verus! {

/// A position in a source file: a line, a column and the file's name.
#[derive(Debug, PartialEq)]
pub struct Location {
    pub line: usize,
    pub col: usize,
    pub file: String,
}

/// How a location is written in messages: `li = <line>, co = <column>`.
pub open spec fn location_text(v: (usize, usize, Seq<char>)) -> Seq<char> {
    "li = "@ + dec(v.0 as nat) + ", co = "@ + dec(v.1 as nat)
}

/// Whether a line holds nothing but white space.
pub open spec fn blank(l: Seq<char>) -> bool {
    forall|i: int| 0 <= i < l.len() ==> whitespace_char(#[trigger] l[i])
}

/// The first index at or after `from` of a line of `lines` that is not blank, if any.
pub open spec fn first_nonblank(lines: Seq<Seq<char>>, from: int) -> Option<int>
    decreases lines.len() - from,
{
    if from < 0 || from >= lines.len() {
        None
    } else if !blank(lines[from]) {
        Some(from)
    } else {
        first_nonblank(lines, from + 1)
    }
}

/// The line (counted from 1) that an error found at line `line` (counted from 0) is
/// reported at: the first line from there on that is not blank, or the next line when
/// there is none or the file could not be read.
pub open spec fn corrected_line_v(contents: Option<Seq<char>>, line: usize) -> int {
    match contents {
        None => line + 1,
        Some(c) => match first_nonblank(lines_of(c), line as int) {
            Some(j) => j + 1,
            None => line + 1,
        },
    }
}

/// Whether a string holds nothing but white space.
fn is_blank(s: &str) -> (res: bool)
    ensures
        res == blank(s@),
{
    let v = chars_of(s);
    let mut i: usize = 0;
    while i < v.len()
        invariant
            0 <= i <= v@.len(),
            v@ == s@,
            forall|j: int| 0 <= j < i ==> whitespace_char(#[trigger] v@[j]),
        decreases v.len() - i,
    {
        if !is_whitespace(v[i]) {
            return false;
        }
        i = i + 1;
    }
    true
}

/// The line (counted from 1) that an error found at line `line` (counted from 0) is
/// reported at, given the contents of its file if they could be read: the first line from
/// there on that is not blank, or the next line.
pub fn error_correct_line(contents: Option<&str>, line: usize) -> (res: usize)
    requires
        line < usize::MAX,
    ensures
        res == corrected_line_v(
            match contents {
                Some(c) => Some(c@),
                None => None,
            },
            line,
        ),
{
    let text = match contents {
        Some(c) => c,
        None => return line + 1,
    };
    let lines = split_lines(text);
    let ghost lv = lines@.map_values(|l: String| l@);
    let mut j = line;
    if j >= lines.len() {
        return line + 1;
    }
    while j < lines.len()
        invariant
            line <= j <= lines@.len(),
            lv == lines@.map_values(|l: String| l@),
            lv == lines_of(text@),
            contents == Some(text),
            first_nonblank(lv, line as int) == first_nonblank(lv, j as int),
        decreases lines.len() - j,
    {
        assert(lv[j as int] == lines@[j as int]@);
        if !is_blank(lines[j].as_str()) {
            assert(lv.len() == lines@.len());
            assert(first_nonblank(lv, j as int) == Some(j as int));
            return j + 1;
        }
        j = j + 1;
    }
    line + 1
}

impl Location {
    /// The value of a location: its line, its column and the characters of its file's name.
    pub open spec fn view(&self) -> (usize, usize, Seq<char>) {
        (self.line, self.col, self.file@)
    }

    /// A location at `line` and `col` in the file named `file`, taken as given.
    pub fn new(line: usize, col: usize, file: &str) -> (res: Location)
        ensures
            res.view() == (line, col, file@),
    {
        Location { line, col, file: String::from_str(file) }
    }

    /// A location at column `col` of the file `file`, its line corrected as
    /// `error_correct_line` does with the file's contents, if they could be read.
    pub fn new_with_file(line: usize, col: usize, file: &str, contents: Option<&str>) -> (res: Location)
        requires
            line < usize::MAX,
        ensures
            res.line == corrected_line_v(
                match contents {
                    Some(c) => Some(c@),
                    None => None,
                },
                line,
            ),
            res.col == col,
            res.file@ == file@,
    {
        Location { line: error_correct_line(contents, line), col, file: String::from_str(file) }
    }

    /// A copy of this location, equal to it.
    pub fn duplicate_same(&self) -> (res: Location)
        ensures
            res == *self,
    {
        Location { line: self.line, col: self.col, file: self.file.clone() }
    }

    /// A copy of this location.
    pub fn duplicate(&self) -> (res: Location)
        ensures
            res.view() == self.view(),
    {
        Location { line: self.line, col: self.col, file: self.file.clone() }
    }

    /// How this location is written in messages: `li = <line>, co = <column>`.
    pub fn to_text(&self) -> (res: String)
        ensures
            res@ == location_text(self.view()),
    {
        let line = usize_to_string(self.line);
        let col = usize_to_string(self.col);
        let a = concat("li = ", line.as_str());
        let b = concat(a.as_str(), ", co = ");
        concat(b.as_str(), col.as_str())
    }
}

} // verus!
