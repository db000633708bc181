//! The numbers of source files and the editions that they are read in.

use vstd::prelude::*;

verus! {

/// An edition of the language.
#[derive(Debug, Clone, Copy, PartialEq, Eq, Structural)]
pub enum SourceEdition {
    Edition2015,
    Edition2018,
    Edition2021,
    Edition2024,
}

impl SourceEdition {
    /// The edition that files of no known crate are read in.
    pub open spec fn newest() -> SourceEdition {
        SourceEdition::Edition2024
    }

    /// How many editions came before it.
    pub open spec fn rank(self) -> u32 {
        match self {
            SourceEdition::Edition2015 => 0,
            SourceEdition::Edition2018 => 1,
            SourceEdition::Edition2021 => 2,
            SourceEdition::Edition2024 => 3,
        }
    }

    /// The edition that files of no known crate are read in.
    pub fn current() -> (r: SourceEdition)
        ensures
            r == SourceEdition::newest(),
    {
        SourceEdition::Edition2024
    }

    /// How many editions came before it.
    fn rank_of(self) -> (r: u32)
        ensures
            r == self.rank(),
            r <= 3,
    {
        match self {
            SourceEdition::Edition2015 => 0,
            SourceEdition::Edition2018 => 1,
            SourceEdition::Edition2021 => 2,
            SourceEdition::Edition2024 => 3,
        }
    }
}

/// The largest number of a file.
pub const MAX_FILE: u32 = 0x007f_ffff;

/// A source file by its number and the edition it is read in.
#[derive(Debug, Clone, Copy, PartialEq, Eq, Structural)]
pub struct EditionedFileId {
    file: u32,
    edition: SourceEdition,
}

impl EditionedFileId {
    /// The number of the file.
    pub closed spec fn file(self) -> u32 {
        self.file
    }

    /// The edition the file is read in.
    pub closed spec fn read_in(self) -> SourceEdition {
        self.edition
    }

    /// File and edition in one number: the file in the low bits, the edition
    /// above the bits that a file's number can take.
    pub open spec fn number(self) -> u32 {
        self.file() | (self.read_in().rank() << 23)
    }

    /// A file in an edition.
    pub closed spec fn of(file: u32, edition: SourceEdition) -> EditionedFileId {
        EditionedFileId { file, edition }
    }

    /// The same file, read in the current edition.
    pub open spec fn renewed(self) -> EditionedFileId {
        EditionedFileId::of(self.file(), SourceEdition::newest())
    }

    /// A file in an edition.
    pub fn new(file: u32, edition: SourceEdition) -> (r: EditionedFileId)
        requires
            file <= MAX_FILE,
        ensures
            r == EditionedFileId::of(file, edition),
            r.file() == file,
            r.read_in() == edition,
    {
        EditionedFileId { file, edition }
    }

    /// A file in the current edition.
    pub fn current_edition(file: u32) -> (r: EditionedFileId)
        requires
            file <= MAX_FILE,
        ensures
            r == EditionedFileId::of(file, SourceEdition::newest()),
            r.file() == file,
            r.read_in() == SourceEdition::newest(),
    {
        EditionedFileId { file, edition: SourceEdition::current() }
    }

    /// The same file, read in the current edition.
    pub fn in_current_edition(&self) -> (r: EditionedFileId)
        ensures
            r == self.renewed(),
            r.file() == self.file(),
            r.read_in() == SourceEdition::newest(),
    {
        EditionedFileId { file: self.file, edition: SourceEdition::current() }
    }

    /// The edition the file is read in.
    pub fn edition(&self) -> (r: SourceEdition)
        ensures
            r == self.read_in(),
    {
        self.edition
    }

    /// File and edition in one number.
    pub fn as_u32(&self) -> (r: u32)
        ensures
            r == self.number(),
    {
        self.file | (self.edition.rank_of() << 23)
    }
}

/// The number tells files and editions apart.
pub proof fn law_numbers_tell_files_apart(a: EditionedFileId, b: EditionedFileId)
    requires
        a.file() <= MAX_FILE,
        b.file() <= MAX_FILE,
        a.number() == b.number(),
    ensures
        a == b,
{
    let (x, y) = (a.file(), b.file());
    let (m, n) = (a.read_in().rank(), b.read_in().rank());
    assert(x == y && m == n) by (bit_vector)
        requires
            x <= 0x007f_ffff,
            y <= 0x007f_ffff,
            m <= 3,
            n <= 3,
            (x | (m << 23)) == (y | (n << 23)),
    ;
}

} // verus!
