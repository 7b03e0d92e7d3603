use core::ops::Range;
use vstd::prelude::*;
use crate::database::{line_index_at, line_range_at};
use crate::database::Database;
use crate::file_id::FileId;
use crate::source::SourceDatabase;

verus! {

/// Hands out a reference to the source database that a value holds.
pub trait Upcast<T> {
    /// The database that `upcast` hands out.
    spec fn upcast_view(&self) -> T;

    fn upcast(&mut self) -> (r: &mut T)
        ensures
            *r == old(self).upcast_view(),
    ;
}

impl Upcast<Database> for Database {
    /// A database hands out itself.
    open spec fn upcast_view(&self) -> Database {
        *self
    }

    fn upcast(&mut self) -> (r: &mut Database) {
        self
    }
}

/// A read-only view of a source database in the shape that a diagnostics
/// renderer asks for: names, texts and line lookups by file. Each call goes
/// to the database, whose queries memoize what they compute.
pub struct FileCache<'a, D: SourceDatabase> {
    source: &'a mut D,
}

impl<'a, D: SourceDatabase> FileCache<'a, D> {
    /// The database that the view reads.
    pub closed spec fn db(&self) -> D {
        *self.source
    }

    /// A view of `source`.
    pub fn new(source: &'a mut D) -> (r: Self)
        ensures
            r.db() == *old(source),
    {
        FileCache { source }
    }

    /// A view of the source database that `source` hands out.
    pub fn upcast<T: Upcast<D>>(source: &'a mut T) -> (r: Self)
        ensures
            r.db() == old(source).upcast_view(),
    {
        Self::new(source.upcast())
    }

    /// The name of `file`.
    pub fn name(&self, file: FileId) -> (r: Option<String>)
        requires
            self.db().valid(),
        ensures
            match r {
                Some(n) => self.db().input_name(file) == Some(n@),
                None => self.db().input_name(file) is None,
            },
    {
        self.source.file_name(file)
    }

    /// The source text of `file`.
    pub fn source(&self, file: FileId) -> (r: Option<String>)
        requires
            self.db().valid(),
        ensures
            match r {
                Some(t) => self.db().input_text(file) == Some(t@),
                None => self.db().input_text(file) is None,
            },
    {
        self.source.source_text(file)
    }

    /// The line of `file` on which `byte_index` falls.
    pub fn line_index(&mut self, file: FileId, byte_index: usize) -> (r: Option<usize>)
        requires
            old(self).db().valid(),
        ensures
            final(self).db().valid(),
            forall|g: FileId| final(self).db().input_text(g) == old(self).db().input_text(g)
                && final(self).db().input_name(g) == old(self).db().input_name(g),
            r == line_index_at(old(self).db().input_text(file), byte_index),
    {
        self.source.line_index(file, byte_index)
    }

    /// The byte range of line `line_index` of `file`.
    pub fn line_range(&mut self, file: FileId, line_index: usize) -> (r: Option<Range<usize>>)
        requires
            old(self).db().valid(),
        ensures
            final(self).db().valid(),
            forall|g: FileId| final(self).db().input_text(g) == old(self).db().input_text(g)
                && final(self).db().input_name(g) == old(self).db().input_name(g),
            r == line_range_at(old(self).db().input_text(file), line_index as int),
    {
        self.source.line_range(file, line_index)
    }
}

} // verus!
