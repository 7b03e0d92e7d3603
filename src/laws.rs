use vstd::prelude::*;
use crate::database::{text_bytes, Database};
use crate::file_id::FileId;
use crate::line_index::{
    lemma_line_starts_wf, lemma_round_trip, line_starts_of, spec_line_index, spec_line_range,
    spec_line_start,
};

verus! {

/// Two reads in a row of a derived value of `file` (`a` to `b`, then `b` to
/// `c`, each as the queries of `Database` promise) give the same value, and
/// the second read computes nothing.
pub proof fn lemma_memoization(a: Database, b: Database, c: Database, file: FileId)
    requires
        b.after_read(a, file),
        b.starts_memoized(file) == (a.text_of(file) is Some),
        a.text_of(file) is None ==> b == a,
        c.after_read(b, file),
        b.starts_memoized(file) ==> c.spec_computations() == b.spec_computations(),
        b.text_of(file) is None ==> c == b,
    ensures
        c.derived_length(file) == b.derived_length(file),
        c.derived_starts(file) == b.derived_starts(file),
        b.derived_starts(file) == a.derived_starts(file),
        forall|i: int| c.derived_line_start(file, i) == b.derived_line_start(file, i),
        forall|i: int| c.derived_line_range(file, i) == b.derived_line_range(file, i),
        forall|x: usize| c.derived_line_index(file, x) == b.derived_line_index(file, x),
        c.spec_computations() == b.spec_computations(),
{
    assert(c.text_of(file) == b.text_of(file));
    assert(b.text_of(file) == a.text_of(file));
}

/// Two reads in a row of the range of line `line_index` of `file` give the
/// same range, and the second read computes nothing.
pub proof fn lemma_keyed_memoization(
    a: Database,
    b: Database,
    c: Database,
    file: FileId,
    line_index: usize,
)
    requires
        b.after_read(a, file),
        b.line_range_memoized(file, line_index) == (a.text_of(file) is Some),
        a.text_of(file) is None ==> b == a,
        c.after_read(b, file),
        b.line_range_memoized(file, line_index) ==> c.spec_computations() == b.spec_computations(),
        b.text_of(file) is None ==> c == b,
    ensures
        c.derived_line_range(file, line_index as int) == b.derived_line_range(
            file,
            line_index as int,
        ),
        b.derived_line_range(file, line_index as int) == a.derived_line_range(
            file,
            line_index as int,
        ),
        c.spec_computations() == b.spec_computations(),
{
    assert(c.text_of(file) == b.text_of(file));
    assert(b.text_of(file) == a.text_of(file));
}

/// Once the text of `file` is `t`, every derived value of `file` is that of
/// `t`, whatever text came before.
pub proof fn lemma_invalidation(db: Database, file: FileId, t: Seq<char>)
    requires
        db.text_of(file) == Some(t),
    ensures
        db.derived_length(file) == Some(text_bytes(t).len() as usize),
        db.derived_starts(file) == Some(line_starts_of(text_bytes(t))),
        forall|i: int|
            db.derived_line_start(file, i) == spec_line_start(
                line_starts_of(text_bytes(t)),
                text_bytes(t).len() as usize,
                i,
            ),
        forall|i: int|
            db.derived_line_range(file, i) == spec_line_range(
                line_starts_of(text_bytes(t)),
                text_bytes(t).len() as usize,
                i,
            ),
        forall|x: usize|
            db.derived_line_index(file, x) == Some(
                spec_line_index(line_starts_of(text_bytes(t)), x) as usize,
            ),
{
}

/// The start of every line of `file` falls on that line.
pub proof fn lemma_file_round_trip(db: Database, file: FileId, line_index: int)
    requires
        db.text_of(file) is Some,
        text_bytes(db.text_of(file)->0).len() <= usize::MAX,
        0 <= line_index < db.derived_starts(file)->0.len(),
    ensures
        db.derived_line_start(file, line_index) is Some,
        db.derived_line_index(file, db.derived_line_start(file, line_index)->0) == Some(
            line_index as usize,
        ),
{
    let b = text_bytes(db.text_of(file)->0);
    lemma_line_starts_wf(b);
    lemma_round_trip(line_starts_of(b), b.len() as usize, line_index);
}

/// The range of the last line of `file` ends at the length of its text.
pub proof fn lemma_file_range_end(db: Database, file: FileId)
    requires
        db.text_of(file) is Some,
        text_bytes(db.text_of(file)->0).len() <= usize::MAX,
    ensures
        db.derived_line_range(file, db.derived_starts(file)->0.len() - 1) is Some,
        db.derived_line_range(file, db.derived_starts(file)->0.len() - 1)->0.end
            == db.derived_length(file)->0,
{
    let b = text_bytes(db.text_of(file)->0);
    lemma_line_starts_wf(b);
}

/// The line one past the last line of `file` starts at the length of its
/// text; no line past that starts at all.
pub proof fn lemma_file_line_start_out_of_range(db: Database, file: FileId, line_index: int)
    requires
        db.text_of(file) is Some,
        line_index >= db.derived_starts(file)->0.len(),
    ensures
        line_index == db.derived_starts(file)->0.len() ==> db.derived_line_start(file, line_index)
            == db.derived_length(file),
        line_index > db.derived_starts(file)->0.len() ==> db.derived_line_start(
            file,
            line_index,
        ) is None,
{
}

} // verus!
