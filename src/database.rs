use core::ops::Range;
use vstd::prelude::*;
use vstd::string::StringSliceAdditionalSpecFns;
use vstd::utf8::encode_utf8;
use crate::file_id::FileId;
use crate::line_index::{
    compute_line_starts, line_index_in, line_range_in, line_start_in, line_starts_of,
    spec_line_index, spec_line_range, spec_line_start, starts_wf,
};

verus! {

/// The bytes of a text: its UTF-8 encoding.
pub open spec fn text_bytes(t: Seq<char>) -> Seq<u8> {
    encode_utf8(t)
}

/// The length in bytes of a text that may be absent.
pub open spec fn length_in(text: Option<Seq<char>>) -> Option<usize> {
    match text {
        Some(t) => Some(text_bytes(t).len() as usize),
        None => None,
    }
}

/// The line-start table of a text that may be absent.
pub open spec fn starts_in(text: Option<Seq<char>>) -> Option<Seq<usize>> {
    match text {
        Some(t) => Some(line_starts_of(text_bytes(t))),
        None => None,
    }
}

/// Where line `line_index` of a text that may be absent starts.
pub open spec fn line_start_at(text: Option<Seq<char>>, line_index: int) -> Option<usize> {
    match text {
        Some(t) => spec_line_start(line_starts_of(text_bytes(t)), text_bytes(t).len() as usize, line_index),
        None => None,
    }
}

/// The line on which `byte_index` falls in a text that may be absent.
pub open spec fn line_index_at(text: Option<Seq<char>>, byte_index: usize) -> Option<usize> {
    match text {
        Some(t) => Some(spec_line_index(line_starts_of(text_bytes(t)), byte_index) as usize),
        None => None,
    }
}

/// The byte range of line `line_index` of a text that may be absent.
pub open spec fn line_range_at(text: Option<Seq<char>>, line_index: int) -> Option<Range<usize>> {
    match text {
        Some(t) => spec_line_range(line_starts_of(text_bytes(t)), text_bytes(t).len() as usize, line_index),
        None => None,
    }
}

/// The inputs of one file and the derived values memoized for it.
struct FileSlot {
    file: FileId,
    name: Option<String>,
    text: Option<String>,
    length: Option<usize>,
    starts: Option<Vec<usize>>,
    start_memo: Vec<(usize, Option<usize>)>,
    index_memo: Vec<(usize, Option<usize>)>,
    range_memo: Vec<(usize, Option<(usize, usize)>)>,
}

/// Holds the inputs of every file (its name and its source text) and
/// computes the derived values on demand, memoizing each one until the text
/// it was derived from is replaced.
pub struct Database {
    slots: Vec<FileSlot>,
    revision: u64,
    computations: u64,
}

/// A byte range as a pair of its ends.
pub open spec fn range_pair(r: Option<Range<usize>>) -> Option<(usize, usize)> {
    match r {
        Some(range) => Some((range.start, range.end)),
        None => None,
    }
}

impl FileSlot {
    /// The text of the slot as characters, if set.
    spec fn text_view(&self) -> Option<Seq<char>> {
        match self.text {
            Some(t) => Some(t@),
            None => None,
        }
    }

    /// Memos exist only for a set text, and each one holds what that text
    /// gives for its key.
    spec fn wf(&self) -> bool {
        &&& (self.text is None ==> self.start_memo@.len() == 0 && self.index_memo@.len() == 0
            && self.range_memo@.len() == 0)
        &&& forall|i: int| 0 <= i < self.start_memo@.len() ==> #[trigger] self.start_memo@[i].1
            == line_start_at(self.text_view(), self.start_memo@[i].0 as int)
        &&& forall|i: int| 0 <= i < self.index_memo@.len() ==> #[trigger] self.index_memo@[i].1
            == line_index_at(self.text_view(), self.index_memo@[i].0)
        &&& forall|i: int| 0 <= i < self.range_memo@.len() ==> #[trigger] self.range_memo@[i].1
            == range_pair(line_range_at(self.text_view(), self.range_memo@[i].0 as int))
        &&& (self.length is Some ==> self.text is Some && self.length->0 as int
            == text_bytes(self.text->0@).len())
        &&& (self.starts is Some ==> self.text is Some && self.starts->0@ == line_starts_of(
            text_bytes(self.text->0@),
        ) && starts_wf(self.starts->0@))
    }
}

impl Database {
    /// Each file has at most one slot, and every memoized value agrees with
    /// the current text of its file.
    pub closed spec fn wf(&self) -> bool {
        &&& forall|i: int, j: int|
            0 <= i < j < self.slots@.len() ==> self.slots@[i].file != self.slots@[j].file
        &&& forall|i: int| 0 <= i < self.slots@.len() ==> (#[trigger] self.slots@[i]).wf()
    }

    spec fn has_slot(&self, file: FileId) -> bool {
        exists|i: int| 0 <= i < self.slots@.len() && self.slots@[i].file == file
    }

    spec fn slot(&self, file: FileId) -> FileSlot {
        self.slots@[choose|i: int| 0 <= i < self.slots@.len() && self.slots@[i].file == file]
    }

    /// The name last given to `file`, if any.
    pub closed spec fn name_of(&self, file: FileId) -> Option<Seq<char>> {
        if self.has_slot(file) && self.slot(file).name is Some {
            Some(self.slot(file).name->0@)
        } else {
            None
        }
    }

    /// The source text last given to `file`, if any.
    pub closed spec fn text_of(&self, file: FileId) -> Option<Seq<char>> {
        if self.has_slot(file) && self.slot(file).text is Some {
            Some(self.slot(file).text->0@)
        } else {
            None
        }
    }

    /// Whether the length of `file` is memoized.
    pub closed spec fn length_memoized(&self, file: FileId) -> bool {
        self.has_slot(file) && self.slot(file).length is Some
    }

    /// Whether the line-start table of `file` is memoized.
    pub closed spec fn starts_memoized(&self, file: FileId) -> bool {
        self.has_slot(file) && self.slot(file).starts is Some
    }

    /// Whether the start of line `line_index` of `file` is memoized.
    pub closed spec fn line_start_memoized(&self, file: FileId, line_index: usize) -> bool {
        self.has_slot(file) && exists|i: int|
            0 <= i < self.slot(file).start_memo@.len() && self.slot(file).start_memo@[i].0
                == line_index
    }

    /// Whether the line of byte `byte_index` of `file` is memoized.
    pub closed spec fn line_index_memoized(&self, file: FileId, byte_index: usize) -> bool {
        self.has_slot(file) && exists|i: int|
            0 <= i < self.slot(file).index_memo@.len() && self.slot(file).index_memo@[i].0
                == byte_index
    }

    /// Whether the range of line `line_index` of `file` is memoized.
    pub closed spec fn line_range_memoized(&self, file: FileId, line_index: usize) -> bool {
        self.has_slot(file) && exists|i: int|
            0 <= i < self.slot(file).range_memo@.len() && self.slot(file).range_memo@[i].0
                == line_index
    }

    /// How many writes of an input have been made (saturating).
    pub closed spec fn spec_revision(&self) -> u64 {
        self.revision
    }

    /// How many times a derived value has been computed rather than taken
    /// from the memo (saturating).
    pub closed spec fn spec_computations(&self) -> u64 {
        self.computations
    }

    /// Both databases hold the same inputs.
    pub open spec fn same_inputs(self, other: Database) -> bool {
        forall|g: FileId| self.text_of(g) == other.text_of(g) && self.name_of(g) == other.name_of(g)
    }

    /// `self` follows `before` by a read of derived values of `file`: the
    /// inputs, the revision and the memos of other files stay as they were,
    /// and the count of computations does not go down.
    pub open spec fn after_read(self, before: Database, file: FileId) -> bool {
        &&& self.same_inputs(before)
        &&& self.spec_revision() == before.spec_revision()
        &&& self.spec_computations() >= before.spec_computations()
        &&& forall|g: FileId| g != file ==> self.same_memos(before, g)
    }

    /// Every derived value of `file` is memoized in `self` just when it is in
    /// `other`.
    pub open spec fn same_memos(self, other: Database, file: FileId) -> bool {
        &&& self.length_memoized(file) == other.length_memoized(file)
        &&& self.starts_memoized(file) == other.starts_memoized(file)
        &&& forall|x: usize| self.line_start_memoized(file, x) == other.line_start_memoized(file, x)
        &&& forall|x: usize| self.line_index_memoized(file, x) == other.line_index_memoized(file, x)
        &&& forall|x: usize| self.line_range_memoized(file, x) == other.line_range_memoized(file, x)
    }

    /// The length of the text of `file`, in bytes.
    pub open spec fn derived_length(&self, file: FileId) -> Option<usize> {
        length_in(self.text_of(file))
    }

    /// The line-start table of the text of `file`.
    pub open spec fn derived_starts(&self, file: FileId) -> Option<Seq<usize>> {
        starts_in(self.text_of(file))
    }

    /// Where line `line_index` of `file` starts.
    pub open spec fn derived_line_start(&self, file: FileId, line_index: int) -> Option<usize> {
        line_start_at(self.text_of(file), line_index)
    }

    /// The line of `file` on which `byte_index` falls.
    pub open spec fn derived_line_index(&self, file: FileId, byte_index: usize) -> Option<usize> {
        line_index_at(self.text_of(file), byte_index)
    }

    /// The byte range of line `line_index` of `file`.
    pub open spec fn derived_line_range(&self, file: FileId, line_index: int) -> Option<Range<usize>> {
        line_range_at(self.text_of(file), line_index)
    }

    proof fn lemma_slot_at(&self, k: int)
        requires
            self.wf(),
            0 <= k < self.slots@.len(),
        ensures
            self.has_slot(self.slots@[k].file),
            self.slot(self.slots@[k].file) == self.slots@[k],
    {
        let f = self.slots@[k].file;
        assert(0 <= k < self.slots@.len() && self.slots@[k].file == f);
        let j = choose|i: int| 0 <= i < self.slots@.len() && self.slots@[i].file == f;
        if j != k {
            if j < k {
                assert(self.slots@[j].file != self.slots@[k].file);
            } else {
                assert(self.slots@[k].file != self.slots@[j].file);
            }
        }
    }

    /// A database that holds no input.
    pub fn new() -> (r: Database)
        ensures
            r.wf(),
            forall|g: FileId| r.text_of(g) is None && r.name_of(g) is None,
            r.spec_revision() == 0,
            r.spec_computations() == 0,
    {
        Database { slots: Vec::new(), revision: 0, computations: 0 }
    }

    /// How many writes of an input have been made (saturating).
    pub fn revision(&self) -> (r: u64)
        ensures
            r == self.spec_revision(),
    {
        self.revision
    }

    /// How many times a derived value has been computed rather than taken
    /// from the memo (saturating).
    pub fn computations(&self) -> (r: u64)
        ensures
            r == self.spec_computations(),
    {
        self.computations
    }

    /// The index of the slot of `file`, if it has one.
    fn find(&self, file: FileId) -> (r: Option<usize>)
        requires
            self.wf(),
        ensures
            match r {
                Some(k) => k < self.slots@.len() && self.slots@[k as int].file == file,
                None => !self.has_slot(file),
            },
    {
        let mut i: usize = 0;
        while i < self.slots.len()
            invariant
                i <= self.slots@.len(),
                forall|j: int| 0 <= j < i ==> self.slots@[j].file != file,
            decreases self.slots@.len() - i,
        {
            if self.slots[i].file == file {
                return Some(i);
            }
            i = i + 1;
        }
        None
    }
    proof fn lemma_update(a: &Database, b: &Database, k: int)
        requires
            a.wf(),
            b.wf(),
            0 <= k < a.slots@.len(),
            b.slots@ == a.slots@.update(k, b.slots@[k]),
            b.slots@[k].file == a.slots@[k].file,
        ensures
            b.has_slot(a.slots@[k].file),
            b.slot(a.slots@[k].file) == b.slots@[k],
            forall|g: FileId|
                g != a.slots@[k].file ==> (b.has_slot(g) == a.has_slot(g) && (a.has_slot(g)
                    ==> b.slot(g) == a.slot(g))),
    {
        b.lemma_slot_at(k);
        assert forall|g: FileId| g != a.slots@[k].file implies (b.has_slot(g) == a.has_slot(g) && (
        a.has_slot(g) ==> b.slot(g) == a.slot(g))) by {
            if a.has_slot(g) {
                let i = choose|i: int| 0 <= i < a.slots@.len() && a.slots@[i].file == g;
                a.lemma_slot_at(i);
                b.lemma_slot_at(i);
            }
            if b.has_slot(g) {
                let i = choose|i: int| 0 <= i < b.slots@.len() && b.slots@[i].file == g;
                a.lemma_slot_at(i);
            }
        }
    }

    proof fn lemma_push(a: &Database, b: &Database)
        requires
            a.wf(),
            b.wf(),
            b.slots@ == a.slots@.push(b.slots@.last()),
            !a.has_slot(b.slots@.last().file),
        ensures
            b.has_slot(b.slots@.last().file),
            b.slot(b.slots@.last().file) == b.slots@.last(),
            forall|g: FileId|
                g != b.slots@.last().file ==> (b.has_slot(g) == a.has_slot(g) && (a.has_slot(g)
                    ==> b.slot(g) == a.slot(g))),
    {
        b.lemma_slot_at(a.slots@.len() as int);
        assert forall|g: FileId| g != b.slots@.last().file implies (b.has_slot(g) == a.has_slot(g)
            && (a.has_slot(g) ==> b.slot(g) == a.slot(g))) by {
            if a.has_slot(g) {
                let i = choose|i: int| 0 <= i < a.slots@.len() && a.slots@[i].file == g;
                a.lemma_slot_at(i);
                b.lemma_slot_at(i);
            }
            if b.has_slot(g) {
                let i = choose|i: int| 0 <= i < b.slots@.len() && b.slots@[i].file == g;
                a.lemma_slot_at(i);
            }
        }
    }

    /// Sets the name of `file`. Nothing derived reads the name, so no memo is
    /// dropped.
    pub fn set_file_name(&mut self, file: FileId, name: String)
        requires
            old(self).wf(),
        ensures
            final(self).wf(),
            final(self).name_of(file) == Some(name@),
            final(self).text_of(file) == old(self).text_of(file),
            forall|g: FileId| g != file ==> final(self).name_of(g) == old(self).name_of(g)
                && final(self).text_of(g) == old(self).text_of(g),
            forall|g: FileId| final(self).same_memos(*old(self), g),
            final(self).spec_revision() == if old(self).spec_revision() < u64::MAX {
                (old(self).spec_revision() + 1) as u64
            } else {
                old(self).spec_revision()
            },
            final(self).spec_computations() == old(self).spec_computations(),
    {
        let ghost a = *self;
        match self.find(file) {
            Some(k) => {
                proof {
                    a.lemma_slot_at(k as int);
                }
                self.slots[k].name = Some(name);
                proof {
                    Database::lemma_update(&a, self, k as int);
                }
            },
            None => {
                self.slots.push(
                    FileSlot {
                        file,
                        name: Some(name),
                        text: None,
                        length: None,
                        starts: None,
                        start_memo: Vec::new(),
                        index_memo: Vec::new(),
                        range_memo: Vec::new(),
                    },
                );
                proof {
                    Database::lemma_push(&a, self);
                }
            },
        }
        if self.revision < u64::MAX {
            self.revision = self.revision + 1;
        }
    }

    /// Replaces the source text of `file`, dropping every value derived from
    /// its previous text.
    pub fn set_source_text(&mut self, file: FileId, text: String)
        requires
            old(self).wf(),
        ensures
            final(self).wf(),
            final(self).text_of(file) == Some(text@),
            final(self).name_of(file) == old(self).name_of(file),
            !final(self).length_memoized(file),
            !final(self).starts_memoized(file),
            forall|x: usize| !final(self).line_start_memoized(file, x),
            forall|x: usize| !final(self).line_index_memoized(file, x),
            forall|x: usize| !final(self).line_range_memoized(file, x),
            forall|g: FileId| g != file ==> final(self).name_of(g) == old(self).name_of(g)
                && final(self).text_of(g) == old(self).text_of(g)
                && final(self).same_memos(*old(self), g),
            final(self).spec_revision() == if old(self).spec_revision() < u64::MAX {
                (old(self).spec_revision() + 1) as u64
            } else {
                old(self).spec_revision()
            },
            final(self).spec_computations() == old(self).spec_computations(),
    {
        let ghost a = *self;
        match self.find(file) {
            Some(k) => {
                proof {
                    a.lemma_slot_at(k as int);
                }
                self.slots[k].text = Some(text);
                self.slots[k].length = None;
                self.slots[k].starts = None;
                self.slots[k].start_memo = Vec::new();
                self.slots[k].index_memo = Vec::new();
                self.slots[k].range_memo = Vec::new();
                proof {
                    assert(self.slots@ =~= a.slots@.update(k as int, self.slots@[k as int]));
                    Database::lemma_update(&a, self, k as int);
                }
            },
            None => {
                self.slots.push(
                    FileSlot {
                        file,
                        name: None,
                        text: Some(text),
                        length: None,
                        starts: None,
                        start_memo: Vec::new(),
                        index_memo: Vec::new(),
                        range_memo: Vec::new(),
                    },
                );
                proof {
                    Database::lemma_push(&a, self);
                }
            },
        }
        if self.revision < u64::MAX {
            self.revision = self.revision + 1;
        }
    }

    /// The name of `file`, if one was set.
    pub fn file_name(&self, file: FileId) -> (r: Option<String>)
        requires
            self.wf(),
        ensures
            match r {
                Some(n) => self.name_of(file) == Some(n@),
                None => self.name_of(file) is None,
            },
    {
        match self.find(file) {
            Some(k) => {
                proof {
                    self.lemma_slot_at(k as int);
                }
                match &self.slots[k].name {
                    Some(n) => Some(n.clone()),
                    None => None,
                }
            },
            None => None,
        }
    }

    /// The source text of `file`, if one was set.
    pub fn source_text(&self, file: FileId) -> (r: Option<String>)
        requires
            self.wf(),
        ensures
            match r {
                Some(t) => self.text_of(file) == Some(t@),
                None => self.text_of(file) is None,
            },
    {
        match self.find(file) {
            Some(k) => {
                proof {
                    self.lemma_slot_at(k as int);
                }
                match &self.slots[k].text {
                    Some(t) => Some(t.clone()),
                    None => None,
                }
            },
            None => None,
        }
    }
    /// Memoizes the length of `file` if its text is set, and returns its slot.
    fn memo_length(&mut self, file: FileId) -> (r: Option<usize>)
        requires
            old(self).wf(),
        ensures
            final(self).wf(),
            final(self).revision == old(self).revision,
            final(self).computations >= old(self).computations,
            r is Some <==> old(self).text_of(file) is Some,
            match r {
                Some(k) => {
                    &&& k < old(self).slots@.len()
                    &&& final(self).slots@ == old(self).slots@.update(k as int, final(self).slots@[k as int])
                    &&& old(self).slots@[k as int].file == file
                    &&& final(self).slots@[k as int] == (FileSlot { length: final(self).slots@[k as int].length, ..old(self).slots@[k as int] })
                    &&& final(self).slots@[k as int].length is Some
                    &&& (old(self).slots@[k as int].length is Some ==> final(self).computations == old(self).computations)
                },
                None => *final(self) == *old(self),
            },
    {
        match self.find(file) {
            None => None,
            Some(k) => {
                proof {
                    self.lemma_slot_at(k as int);
                }
                if self.slots[k].length.is_some() {
                    return Some(k);
                }
                let ghost a = *self;
                let n = match &self.slots[k].text {
                    Some(t) => {
                        let b = t.as_str().as_bytes();
                        assert(b@ == text_bytes(t@));
                        b.len()
                    },
                    None => {
                        return None;
                    },
                };
                self.slots[k].length = Some(n);
                assert(self.slots@[k as int].wf());
                assert forall|i: int| 0 <= i < self.slots@.len() implies (
                #[trigger] self.slots@[i]).wf() by {
                    if i != k {
                        assert(self.slots@[i] == a.slots@[i]);
                    }
                }
                if self.computations < u64::MAX {
                    self.computations = self.computations + 1;
                }
                Some(k)
            },
        }
    }

    /// Memoizes the line-start table of `file` if its text is set, and
    /// returns its slot.
    fn memo_starts(&mut self, file: FileId) -> (r: Option<usize>)
        requires
            old(self).wf(),
        ensures
            final(self).wf(),
            final(self).revision == old(self).revision,
            final(self).computations >= old(self).computations,
            r is Some <==> old(self).text_of(file) is Some,
            match r {
                Some(k) => {
                    &&& k < old(self).slots@.len()
                    &&& final(self).slots@ == old(self).slots@.update(k as int, final(self).slots@[k as int])
                    &&& old(self).slots@[k as int].file == file
                    &&& final(self).slots@[k as int] == (FileSlot { starts: final(self).slots@[k as int].starts, ..old(self).slots@[k as int] })
                    &&& final(self).slots@[k as int].starts is Some
                    &&& (old(self).slots@[k as int].starts is Some ==> final(self).computations == old(self).computations)
                },
                None => *final(self) == *old(self),
            },
    {
        match self.find(file) {
            None => None,
            Some(k) => {
                proof {
                    self.lemma_slot_at(k as int);
                }
                if self.slots[k].starts.is_some() {
                    return Some(k);
                }
                let ghost a = *self;
                let v = match &self.slots[k].text {
                    Some(t) => {
                        let s = t.as_str();
                        assert(s.spec_bytes() == text_bytes(t@));
                        compute_line_starts(s)
                    },
                    None => {
                        return None;
                    },
                };
                self.slots[k].starts = Some(v);
                assert(self.slots@[k as int].wf());
                assert forall|i: int| 0 <= i < self.slots@.len() implies (
                #[trigger] self.slots@[i]).wf() by {
                    if i != k {
                        assert(self.slots@[i] == a.slots@[i]);
                    }
                }
                if self.computations < u64::MAX {
                    self.computations = self.computations + 1;
                }
                Some(k)
            },
        }
    }
    /// Memoizes both the length and the line-start table of `file` if its
    /// text is set, and returns its slot.
    fn memo_both(&mut self, file: FileId) -> (r: Option<usize>)
        requires
            old(self).wf(),
        ensures
            final(self).wf(),
            final(self).revision == old(self).revision,
            final(self).computations >= old(self).computations,
            r is Some <==> old(self).text_of(file) is Some,
            match r {
                Some(k) => {
                    &&& k < old(self).slots@.len()
                    &&& final(self).slots@ == old(self).slots@.update(k as int, final(self).slots@[k as int])
                    &&& old(self).slots@[k as int].file == file
                    &&& final(self).slots@[k as int] == (FileSlot {
                        length: final(self).slots@[k as int].length,
                        starts: final(self).slots@[k as int].starts,
                        ..old(self).slots@[k as int]
                    })
                    &&& final(self).slots@[k as int].length is Some
                    &&& final(self).slots@[k as int].starts is Some
                    &&& (old(self).slots@[k as int].length is Some && old(self).slots@[k as int].starts is Some
                        ==> final(self).computations == old(self).computations)
                },
                None => *final(self) == *old(self),
            },
    {
        let ghost a = *self;
        match self.memo_length(file) {
            None => None,
            Some(k) => {
                let ghost b = *self;
                let k2 = self.memo_starts(file);
                proof {
                    if k2 is Some {
                        let j = k2->0 as int;
                        if j < k {
                            assert(b.slots@[j].file != b.slots@[k as int].file);
                        } else if k < j {
                            assert(b.slots@[k as int].file != b.slots@[j].file);
                        }
                    }
                    assert(self.slots@ =~= a.slots@.update(k as int, self.slots@[k as int]));
                }
                Some(k)
            },
        }
    }

    proof fn lemma_read_step(a: &Database, b: &Database, k: int, file: FileId)
        requires
            a.wf(),
            b.wf(),
            0 <= k < a.slots@.len(),
            a.slots@[k].file == file,
            b.slots@ == a.slots@.update(k, b.slots@[k]),
            b.slots@[k].file == file,
            b.slots@[k].name == a.slots@[k].name,
            b.slots@[k].text == a.slots@[k].text,
            b.revision == a.revision,
            b.computations >= a.computations,
        ensures
            b.after_read(*a, file),
            a.has_slot(file),
            b.has_slot(file),
            a.slot(file) == a.slots@[k],
            b.slot(file) == b.slots@[k],
    {
        a.lemma_slot_at(k);
        Database::lemma_update(a, b, k);
    }

    proof fn lemma_no_text(&self, file: FileId)
        requires
            self.wf(),
            self.text_of(file) is None,
        ensures
            !self.length_memoized(file),
            !self.starts_memoized(file),
            forall|x: usize| !self.line_start_memoized(file, x),
            forall|x: usize| !self.line_index_memoized(file, x),
            forall|x: usize| !self.line_range_memoized(file, x),
    {
        if self.has_slot(file) {
            let i = choose|i: int| 0 <= i < self.slots@.len() && self.slots@[i].file == file;
            assert(self.slots@[i].wf());
        }
    }

    /// The index of the slot of `file`, if its text is set.
    fn text_slot(&self, file: FileId) -> (r: Option<usize>)
        requires
            self.wf(),
        ensures
            r is Some <==> self.text_of(file) is Some,
            match r {
                Some(k) => {
                    &&& k < self.slots@.len()
                    &&& self.slots@[k as int].file == file
                    &&& self.slots@[k as int].text is Some
                    &&& self.has_slot(file)
                    &&& self.slot(file) == self.slots@[k as int]
                    &&& self.slots@[k as int].wf()
                },
                None => {
                    &&& forall|x: usize| !self.line_start_memoized(file, x)
                    &&& forall|x: usize| !self.line_index_memoized(file, x)
                    &&& forall|x: usize| !self.line_range_memoized(file, x)
                },
            },
    {
        match self.find(file) {
            Some(k) => {
                proof {
                    self.lemma_slot_at(k as int);
                    assert(self.slots@[k as int].wf());
                }
                if self.slots[k].text.is_none() {
                    proof {
                        self.lemma_no_text(file);
                    }
                    None
                } else {
                    Some(k)
                }
            },
            None => {
                proof {
                    self.lemma_no_text(file);
                }
                None
            },
        }
    }

    /// The length in bytes of the source text of `file`; none if no text was
    /// set. Memoized until the text is replaced.
    pub fn source_length(&mut self, file: FileId) -> (r: Option<usize>)
        requires
            old(self).wf(),
        ensures
            final(self).wf(),
            final(self).after_read(*old(self), file),
            old(self).text_of(file) is None ==> *final(self) == *old(self),
            r == old(self).derived_length(file),
            final(self).length_memoized(file) == (old(self).text_of(file) is Some),
            old(self).length_memoized(file) ==> final(self).spec_computations()
                == old(self).spec_computations(),
    {
        let ghost a = *self;
        match self.memo_length(file) {
            Some(k) => {
                proof {
                    Database::lemma_read_step(&a, self, k as int, file);
                    assert(a.slots@[k as int].wf());
                }
                self.slots[k].length
            },
            None => {
                proof {
                    a.lemma_no_text(file);
                }
                None
            },
        }
    }

    /// The line-start table of the source text of `file`; none if no text
    /// was set. Memoized until the text is replaced.
    pub fn line_starts(&mut self, file: FileId) -> (r: Option<Vec<usize>>)
        requires
            old(self).wf(),
        ensures
            final(self).wf(),
            final(self).after_read(*old(self), file),
            old(self).text_of(file) is None ==> *final(self) == *old(self),
            match r {
                Some(v) => old(self).derived_starts(file) == Some(v@),
                None => old(self).derived_starts(file) is None,
            },
            final(self).starts_memoized(file) == (old(self).text_of(file) is Some),
            old(self).starts_memoized(file) ==> final(self).spec_computations()
                == old(self).spec_computations(),
    {
        let ghost a = *self;
        match self.memo_starts(file) {
            Some(k) => {
                proof {
                    Database::lemma_read_step(&a, self, k as int, file);
                    assert(self.slots@[k as int].wf());
                }
                match &self.slots[k].starts {
                    Some(v) => {
                        let c = v.clone();
                        assert(c@ =~= v@);
                        Some(c)
                    },
                    None => None,
                }
            },
            None => {
                proof {
                    a.lemma_no_text(file);
                }
                None
            },
        }
    }

    /// Where line `line_index` of `file` starts: for the line one past the
    /// last, the end of the text; none beyond that or if no text was set.
    /// Memoized for each line index until the text is replaced.
    pub fn line_start(&mut self, file: FileId, line_index: usize) -> (r: Option<usize>)
        requires
            old(self).wf(),
        ensures
            final(self).wf(),
            final(self).after_read(*old(self), file),
            old(self).text_of(file) is None ==> *final(self) == *old(self),
            r == old(self).derived_line_start(file, line_index as int),
            final(self).line_start_memoized(file, line_index) == (old(self).text_of(file) is Some),
            old(self).line_start_memoized(file, line_index) ==> final(self).spec_computations()
                == old(self).spec_computations(),
    {
        let ghost a = *self;
        let k = match self.text_slot(file) {
            Some(k) => k,
            None => {
                return None;
            },
        };
        match lookup(&self.slots[k].start_memo, line_index) {
            Some(v) => {
                proof {
                    let i = choose|i: int|
                        0 <= i < self.slots@[k as int].start_memo@.len()
                            && self.slots@[k as int].start_memo@[i] == (line_index, v);
                    assert(self.slots@[k as int].start_memo@[i].1 == v);
                }
                return v;
            },
            None => {},
        }
        let _ = self.memo_both(file);
        let v = match (&self.slots[k].starts, self.slots[k].length) {
            (Some(starts), Some(n)) => line_start_in(starts, n, line_index),
            _ => None,
        };
        let ghost b = *self;
        self.slots[k].start_memo.push((line_index, v));
        proof {
            assert(b.slots@[k as int].wf());
            assert(self.slots@[k as int].start_memo@.last() == (line_index, v));
            assert(self.slots@[k as int].wf());
            assert(self.slots@ =~= a.slots@.update(k as int, self.slots@[k as int]));
        }
        if self.computations < u64::MAX {
            self.computations = self.computations + 1;
        }
        proof {
            Database::lemma_read_step(&a, self, k as int, file);
        }
        v
    }

    /// The line of `file` on which `byte_index` falls: the last line that
    /// starts at or before it, so a byte index past the end of the text
    /// falls on the last line. None if no text was set. Memoized for each
    /// byte index until the text is replaced.
    pub fn line_index(&mut self, file: FileId, byte_index: usize) -> (r: Option<usize>)
        requires
            old(self).wf(),
        ensures
            final(self).wf(),
            final(self).after_read(*old(self), file),
            old(self).text_of(file) is None ==> *final(self) == *old(self),
            r == old(self).derived_line_index(file, byte_index),
            final(self).line_index_memoized(file, byte_index) == (old(self).text_of(file) is Some),
            old(self).line_index_memoized(file, byte_index) ==> final(self).spec_computations()
                == old(self).spec_computations(),
    {
        let ghost a = *self;
        let k = match self.text_slot(file) {
            Some(k) => k,
            None => {
                return None;
            },
        };
        match lookup(&self.slots[k].index_memo, byte_index) {
            Some(v) => {
                proof {
                    let i = choose|i: int|
                        0 <= i < self.slots@[k as int].index_memo@.len()
                            && self.slots@[k as int].index_memo@[i] == (byte_index, v);
                    assert(self.slots@[k as int].index_memo@[i].1 == v);
                }
                return v;
            },
            None => {},
        }
        let _ = self.memo_starts(file);
        let v = match &self.slots[k].starts {
            Some(starts) => line_index_in(starts, byte_index),
            None => None,
        };
        let ghost b = *self;
        self.slots[k].index_memo.push((byte_index, v));
        proof {
            assert(b.slots@[k as int].wf());
            assert(self.slots@[k as int].index_memo@.last() == (byte_index, v));
            assert(self.slots@[k as int].wf());
            assert(self.slots@ =~= a.slots@.update(k as int, self.slots@[k as int]));
        }
        if self.computations < u64::MAX {
            self.computations = self.computations + 1;
        }
        proof {
            Database::lemma_read_step(&a, self, k as int, file);
        }
        v
    }

    /// The byte range of line `line_index` of `file`, from its start to the
    /// start of the next line (the end of the text for the last line); none
    /// past the last line or if no text was set. Memoized for each line
    /// index until the text is replaced.
    pub fn line_range(&mut self, file: FileId, line_index: usize) -> (r: Option<Range<usize>>)
        requires
            old(self).wf(),
        ensures
            final(self).wf(),
            final(self).after_read(*old(self), file),
            old(self).text_of(file) is None ==> *final(self) == *old(self),
            r == old(self).derived_line_range(file, line_index as int),
            final(self).line_range_memoized(file, line_index) == (old(self).text_of(file) is Some),
            old(self).line_range_memoized(file, line_index) ==> final(self).spec_computations()
                == old(self).spec_computations(),
    {
        let ghost a = *self;
        let k = match self.text_slot(file) {
            Some(k) => k,
            None => {
                return None;
            },
        };
        match lookup(&self.slots[k].range_memo, line_index) {
            Some(p) => {
                proof {
                    let i = choose|i: int|
                        0 <= i < self.slots@[k as int].range_memo@.len()
                            && self.slots@[k as int].range_memo@[i] == (line_index, p);
                    assert(self.slots@[k as int].range_memo@[i].1 == p);
                }
                return match p {
                    Some((start, end)) => Some(start..end),
                    None => None,
                };
            },
            None => {},
        }
        let _ = self.memo_both(file);
        let v = match (&self.slots[k].starts, self.slots[k].length) {
            (Some(starts), Some(n)) => line_range_in(starts, n, line_index),
            _ => None,
        };
        let pair = match &v {
            Some(range) => Some((range.start, range.end)),
            None => None,
        };
        let ghost b = *self;
        self.slots[k].range_memo.push((line_index, pair));
        proof {
            assert(b.slots@[k as int].wf());
            assert(self.slots@[k as int].range_memo@.last() == (line_index, pair));
            assert(self.slots@[k as int].wf());
            assert(self.slots@ =~= a.slots@.update(k as int, self.slots@[k as int]));
        }
        if self.computations < u64::MAX {
            self.computations = self.computations + 1;
        }
        proof {
            Database::lemma_read_step(&a, self, k as int, file);
        }
        v
    }
}

/// The value stored under `key` in a memo table, if any.
fn lookup<V: Copy>(table: &Vec<(usize, V)>, key: usize) -> (r: Option<V>)
    ensures
        match r {
            Some(v) => exists|i: int| 0 <= i < table@.len() && table@[i] == (key, v),
            None => forall|i: int| 0 <= i < table@.len() ==> table@[i].0 != key,
        },
{
    let mut i: usize = 0;
    while i < table.len()
        invariant
            i <= table@.len(),
            forall|j: int| 0 <= j < i ==> table@[j].0 != key,
        decreases table@.len() - i,
    {
        if table[i].0 == key {
            return Some(table[i].1);
        }
        i = i + 1;
    }
    None
}

impl Default for Database {
    /// A database that holds no input.
    fn default() -> (r: Database)
        ensures
            r.wf(),
            forall|g: FileId| r.text_of(g) is None && r.name_of(g) is None,
            r.spec_revision() == 0,
            r.spec_computations() == 0,
    {
        Database::new()
    }
}

} // verus!
