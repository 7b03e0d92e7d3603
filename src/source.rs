use core::ops::Range;
use vstd::prelude::*;
use crate::database::{length_in, line_index_at, line_range_at, line_start_at, starts_in, Database};
use crate::file_id::FileId;

verus! {

/// Anything that holds the names and texts of source files and answers the
/// line queries on them. A query may memoize what it computes, so it takes
/// `&mut self`; it never changes an input.
pub trait SourceDatabase {
    /// The state is consistent: every query below may be asked.
    spec fn valid(&self) -> bool;

    /// The name given to `file`, if any.
    spec fn input_name(&self, file: FileId) -> Option<Seq<char>>;

    /// The source text given to `file`, if any.
    spec fn input_text(&self, file: FileId) -> Option<Seq<char>>;

    /// The name of `file`.
    fn file_name(&self, file: FileId) -> (r: Option<String>)
        requires
            self.valid(),
        ensures
            match r {
                Some(n) => self.input_name(file) == Some(n@),
                None => self.input_name(file) is None,
            },
    ;

    /// The source text of `file`.
    fn source_text(&self, file: FileId) -> (r: Option<String>)
        requires
            self.valid(),
        ensures
            match r {
                Some(t) => self.input_text(file) == Some(t@),
                None => self.input_text(file) is None,
            },
    ;

    /// The length in bytes of the source text of `file`.
    fn source_length(&mut self, file: FileId) -> (r: Option<usize>)
        requires
            old(self).valid(),
        ensures
            final(self).valid(),
            forall|g: FileId| final(self).input_text(g) == old(self).input_text(g)
                && final(self).input_name(g) == old(self).input_name(g),
            r == length_in(old(self).input_text(file)),
    ;

    /// The offset of every line start of the source text of `file`.
    fn line_starts(&mut self, file: FileId) -> (r: Option<Vec<usize>>)
        requires
            old(self).valid(),
        ensures
            final(self).valid(),
            forall|g: FileId| final(self).input_text(g) == old(self).input_text(g)
                && final(self).input_name(g) == old(self).input_name(g),
            match r {
                Some(v) => starts_in(old(self).input_text(file)) == Some(v@),
                None => starts_in(old(self).input_text(file)) is None,
            },
    ;

    /// The offset at which line `line_index` of `file` starts.
    fn line_start(&mut self, file: FileId, line_index: usize) -> (r: Option<usize>)
        requires
            old(self).valid(),
        ensures
            final(self).valid(),
            forall|g: FileId| final(self).input_text(g) == old(self).input_text(g)
                && final(self).input_name(g) == old(self).input_name(g),
            r == line_start_at(old(self).input_text(file), line_index as int),
    ;

    /// The line of `file` on which `byte_index` falls.
    fn line_index(&mut self, file: FileId, byte_index: usize) -> (r: Option<usize>)
        requires
            old(self).valid(),
        ensures
            final(self).valid(),
            forall|g: FileId| final(self).input_text(g) == old(self).input_text(g)
                && final(self).input_name(g) == old(self).input_name(g),
            r == line_index_at(old(self).input_text(file), byte_index),
    ;

    /// The byte range of line `line_index` of `file`.
    fn line_range(&mut self, file: FileId, line_index: usize) -> (r: Option<Range<usize>>)
        requires
            old(self).valid(),
        ensures
            final(self).valid(),
            forall|g: FileId| final(self).input_text(g) == old(self).input_text(g)
                && final(self).input_name(g) == old(self).input_name(g),
            r == line_range_at(old(self).input_text(file), line_index as int),
    ;
}

/// The first line of the stretch that a parse flags.
pub const FLAGGED_FIRST_LINE: usize = 14;

/// The last line of the stretch that a parse flags.
pub const FLAGGED_LAST_LINE: usize = 20;

/// The byte range that a parse of a text flags: from the start of its
/// first flagged line to just before the end of its last flagged line; none
/// if the text is absent or lacks those lines.
pub open spec fn flagged_span(text: Option<Seq<char>>) -> Option<Range<usize>> {
    match (
        line_range_at(text, FLAGGED_FIRST_LINE as int),
        line_range_at(text, FLAGGED_LAST_LINE as int),
    ) {
        (Some(a), Some(b)) => if b.end >= 1 {
            Some(Range { start: a.start, end: (b.end - 1) as usize })
        } else {
            None
        },
        _ => None,
    }
}

/// A source database that can also parse its files.
pub trait ParseDatabase: SourceDatabase {
    /// Parses `file` and returns the byte range of the diagnostic that the
    /// parse reports.
    fn parse(&mut self, file: FileId) -> (r: Option<Range<usize>>)
        requires
            old(self).valid(),
        ensures
            final(self).valid(),
            forall|g: FileId| final(self).input_text(g) == old(self).input_text(g)
                && final(self).input_name(g) == old(self).input_name(g),
            r == flagged_span(old(self).input_text(file)),
    ;
}

impl ParseDatabase for Database {
    fn parse(&mut self, file: FileId) -> (r: Option<Range<usize>>) {
        let first = match Database::line_range(self, file, FLAGGED_FIRST_LINE) {
            Some(range) => range,
            None => {
                return None;
            },
        };
        let last = match Database::line_range(self, file, FLAGGED_LAST_LINE) {
            Some(range) => range,
            None => {
                return None;
            },
        };
        if last.end >= 1 {
            Some(first.start..last.end - 1)
        } else {
            None
        }
    }
}

impl SourceDatabase for Database {
    open spec fn valid(&self) -> bool {
        self.wf()
    }

    open spec fn input_name(&self, file: FileId) -> Option<Seq<char>> {
        self.name_of(file)
    }

    open spec fn input_text(&self, file: FileId) -> Option<Seq<char>> {
        self.text_of(file)
    }

    fn file_name(&self, file: FileId) -> (r: Option<String>) {
        Database::file_name(self, file)
    }

    fn source_text(&self, file: FileId) -> (r: Option<String>) {
        Database::source_text(self, file)
    }

    fn source_length(&mut self, file: FileId) -> (r: Option<usize>) {
        Database::source_length(self, file)
    }

    fn line_starts(&mut self, file: FileId) -> (r: Option<Vec<usize>>) {
        Database::line_starts(self, file)
    }

    fn line_start(&mut self, file: FileId, line_index: usize) -> (r: Option<usize>) {
        Database::line_start(self, file, line_index)
    }

    fn line_index(&mut self, file: FileId, byte_index: usize) -> (r: Option<usize>) {
        Database::line_index(self, file, byte_index)
    }

    fn line_range(&mut self, file: FileId, line_index: usize) -> (r: Option<Range<usize>>) {
        Database::line_range(self, file, line_index)
    }
}

} // verus!
