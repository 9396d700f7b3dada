//! Source files and source locations.
//!
//! A `File` pairs a path with the full text of one compilation unit. Files
//! live in a `Files` store and are addressed by a stable `FileId`. A
//! `Location` names a sub-range of one file's text together with the 1-based
//! line on which the range starts; offsets count characters of the text.

use vstd::prelude::*;

use slotmap::Key;

verus! {

/// Stable identifier of a registered source file.
#[derive(Debug, Clone, Copy, PartialEq, Eq, Structural)]
pub struct FileId(u64);

impl View for FileId {
    type V = u64;

    closed spec fn view(&self) -> u64 {
        self.0
    }
}

/// A half-open offset range `[start, end)` within one file's text.
#[derive(Debug, Clone, Copy, PartialEq, Eq, Structural)]
pub struct Span {
    pub start: usize,
    pub end: usize,
}

/// Where a token or AST node originated: a file, the 1-based line on which it
/// starts, and the offset range it covers within that file's text.
#[derive(Debug, Clone, Copy, PartialEq, Eq, Structural)]
pub struct Location {
    pub file: FileId,
    pub line: usize,
    pub span: Span,
}

impl Location {
    /// A location's span is ordered.
    pub open spec fn wf(self) -> bool {
        self.span.start <= self.span.end
    }

    /// `self` covers `other`: same file, `self` starts on an earlier or equal
    /// line and offset, and ends at an equal or later offset.
    pub open spec fn contains(self, other: Location) -> bool {
        &&& self.file == other.file
        &&& self.line <= other.line
        &&& self.span.start <= other.span.start
        &&& other.span.end <= self.span.end
    }

    /// Grow `self` up to the end of `other`. For two locations of the same
    /// file this yields exactly the span `[self.span.start, other.span.end)`
    /// on `self`'s line; combining across different files is the identity on
    /// `self`. The ordering preconditions hold whenever `other` starts at or
    /// after `self` in the same file; violating them is a caller bug, never a
    /// recoverable condition, so they are preconditions rather than errors.
    pub fn combine(&self, other: &Self) -> (r: Self)
        requires
            self.wf(),
            other.wf(),
            self.file == other.file ==> {
                &&& self.line <= other.line
                &&& self.span.start <= other.span.start
            },
        ensures
            self.file == other.file ==> r == (Location {
                file: self.file,
                line: self.line,
                span: Span { start: self.span.start, end: other.span.end },
            }),
            self.file != other.file ==> r == *self,
            self.span.end <= other.span.end ==> r.wf() && r.contains(*self),
            self.file != other.file ==> r.wf(),
    {
        if self.file != other.file {
            return *self;
        }
        Location { file: self.file, line: self.line, span: Span { start: self.span.start, end: other.span.end } }
    }
}

/// Covering is transitive: a location that covers another covers everything
/// the other covers.
pub proof fn lemma_contains_transitive(a: Location, b: Location, c: Location)
    requires
        a.contains(b),
        b.contains(c),
    ensures
        a.contains(c),
{
}

/// One source file: its file-system path and its full text.
#[derive(Debug)]
pub struct File {
    pub file_path: String,
    pub source: String,
}

/// The store of registered source files, backed by a `slotmap::SlotMap`
/// whose generation-checked keys the `FileId` values carry in integer form.
/// Entries are append-only for the lifetime of a compilation: files are
/// registered once and then only read. The verifier does not look inside the
/// slot map; the store's methods are specified over `files_contents`.
#[verifier::external_body]
pub struct Files {
    table: slotmap::SlotMap<slotmap::DefaultKey, File>,
}

/// The entries a file store holds, keyed by the integer form of the slot key
/// under which each file was inserted.
pub uninterp spec fn files_contents(f: Files) -> Map<u64, File>;

impl Files {
    /// The registered files, keyed by the integer form of their identifiers.
    pub open spec fn contents(self) -> Map<u64, File> {
        files_contents(self)
    }

    /// An empty store. Relies on `slotmap::SlotMap::new`: the new map holds
    /// no entries.
    #[verifier::external_body]
    pub fn new() -> (r: Files)
        ensures
            files_contents(r).dom() == Set::<u64>::empty(),
    {
        Files { table: slotmap::SlotMap::new() }
    }

    /// Register a file and receive its stable identifier, fresh among all
    /// identifiers this store has handed out. Relies on
    /// `slotmap::SlotMap::insert`: it stores the value under a key distinct
    /// from every live key and returns that key, here carried as its
    /// `KeyData::as_ffi` integer, which `from_ffi` maps back to the same
    /// key. `insert` panics when the map already holds 2^32 - 2 entries; the
    /// precondition keeps that unreachable.
    #[verifier::external_body]
    pub fn register(&mut self, file: File) -> (r: FileId)
        requires
            files_contents(*old(self)).dom().len() < 0xffff_fffe,
        ensures
            !files_contents(*old(self)).contains_key(r@),
            files_contents(*final(self)) == files_contents(*old(self)).insert(r@, file),
    {
        FileId(self.table.insert(file).data().as_ffi())
    }

    /// Look up a registered file by its identifier. Relies on
    /// `slotmap::SlotMap::get` together with `KeyData::from_ffi`: a key that
    /// `register` returned, rebuilt from its integer form, reaches exactly
    /// the entry stored under it.
    #[verifier::external_body]
    pub fn get(&self, id: FileId) -> (r: Option<&File>)
        requires
            files_contents(*self).contains_key(id@),
        ensures
            r is Some,
            r matches Some(file) ==> *file == files_contents(*self)[id@],
    {
        self.table.get(slotmap::KeyData::from_ffi(id.0).into())
    }
}

} // verus!
