//! Catalogs in the layout of the Gaia Sky data sets: a manifest, and a directory of binary
//! particle files.

use crate::utils::bytes::{be_value, read_u16, read_u32, read_u64};
use crate::utils::text::{after_first, ends_with, is_prefix, is_suffix, split_after, starts_with};
use std::path::PathBuf;
use vstd::prelude::*;

verus! {

/// One group of files of a data set, with the loader that reads them.
#[derive(Debug)]
pub struct Data {
    pub loader: String,
    pub files: Vec<String>,
    pub epoch: u64,
}

/// The description of a data set.
#[derive(Debug)]
pub struct Manifest {
    pub key: String,
    pub name: String,
    pub version: u64,
    pub ty: String,
    pub min_gs_version: u64,
    pub description: String,
    pub release_notes: String,
    pub link: String,
    pub size: u64,
    pub num_objects: u64,
    pub check: String,
    pub files: Vec<String>,
    pub data: Vec<Data>,
}

/// What the name of the directory of particle files ends with.
pub const PARTICLES_SUFFIX: &'static str = "/particles/";

/// What stands for the data set's own directory at the start of a file's name.
pub const DATA_PREFIX: &'static str = "$data/";

/// The directory that `file` names, relative to the data set's directory: the name has to begin
/// with `$data/`; what follows up to the next `/` names the data set and is left out.
pub open spec fn relative_directory(file: Seq<char>) -> Option<Seq<char>> {
    if is_prefix(DATA_PREFIX@, file) {
        after_first(file.skip(DATA_PREFIX@.len() as int), '/')
    } else {
        None
    }
}

impl Manifest {
    /// The name of file `j` of group `i`.
    pub open spec fn file(&self, i: int, j: int) -> Seq<char> {
        self.data@[i].files@[j]@
    }

    /// Group `i` has a file `j`.
    pub open spec fn has_file(&self, i: int, j: int) -> bool {
        0 <= i < self.data@.len() && 0 <= j < self.data@[i].files@.len()
    }

    /// File `j` of group `i` is the first, by group and then by file, whose name ends with
    /// `/particles/`.
    pub open spec fn is_particles_file(&self, i: int, j: int) -> bool {
        &&& self.has_file(i, j)
        &&& is_suffix(PARTICLES_SUFFIX@, self.file(i, j))
        &&& forall|k: int, l: int|
            self.has_file(k, l) && (k < i || (k == i && l < j)) ==> !is_suffix(
                PARTICLES_SUFFIX@,
                #[trigger] self.file(k, l),
            )
    }

    /// The name of the first file that ends with `/particles/`, if there is one.
    pub open spec fn particles_file(&self) -> Option<Seq<char>> {
        if exists|i: int, j: int| self.is_particles_file(i, j) {
            let (i, j) = choose|i: int, j: int| self.is_particles_file(i, j);
            Some(self.file(i, j))
        } else {
            None
        }
    }

    /// There is one first file at most.
    pub proof fn lemma_particles_file_is_unique(&self, i: int, j: int)
        requires
            self.is_particles_file(i, j),
        ensures
            self.particles_file() == Some(self.file(i, j)),
    {
        // Of two first files neither stands before the other.
        let (k, l) = choose|k: int, l: int| self.is_particles_file(k, l);
        if k < i || (k == i && l < j) {
            assert(!is_suffix(PARTICLES_SUFFIX@, self.file(k, l)));
        } else if i < k || (i == k && j < l) {
            assert(!is_suffix(PARTICLES_SUFFIX@, self.file(i, j)));
        }
    }

    /// Finds the first file whose name ends with `/particles/`.
    pub fn find_particles_file(&self) -> (found: Option<&String>)
        ensures
            match found {
                Some(file) => self.particles_file() == Some(file@),
                None => self.particles_file() is None,
            },
    {
        let mut i: usize = 0;
        while i < self.data.len()
            invariant
                i <= self.data@.len(),
                forall|k: int, l: int|
                    self.has_file(k, l) && k < i ==> !is_suffix(
                        PARTICLES_SUFFIX@,
                        #[trigger] self.file(k, l),
                    ),
            decreases self.data@.len() - i,
        {
            let files = &self.data[i].files;
            let mut j: usize = 0;
            while j < files.len()
                invariant
                    i < self.data@.len(),
                    *files == self.data@[i as int].files,
                    j <= files@.len(),
                    forall|k: int, l: int|
                        self.has_file(k, l) && (k < i || (k == i && l < j)) ==> !is_suffix(
                            PARTICLES_SUFFIX@,
                            #[trigger] self.file(k, l),
                        ),
                decreases files@.len() - j,
            {
                if ends_with(files[j].as_str(), PARTICLES_SUFFIX) {
                    proof {
                        self.lemma_particles_file_is_unique(i as int, j as int);
                    }
                    return Some(&files[j]);
                }
                j = j + 1;
            }
            i = i + 1;
        }
        None
    }
}

/// A data set on disk: its directory and its manifest.
pub struct DataSet {
    path: PathBuf,
    manifest: Manifest,
}

impl DataSet {
    /// The directory of the data set.
    pub closed spec fn spec_path(&self) -> PathBuf {
        self.path
    }

    /// The manifest of the data set.
    pub closed spec fn spec_manifest(&self) -> Manifest {
        self.manifest
    }

    /// The data set in the directory `path` whose manifest reads `manifest`.
    pub fn open(path: PathBuf, manifest: Manifest) -> (data_set: Self)
        ensures
            data_set.spec_path() == path,
            data_set.spec_manifest() == manifest,
    {
        DataSet { path, manifest }
    }

    /// The directory of the data set.
    pub fn path(&self) -> (path: &PathBuf)
        ensures
            *path == self.spec_path(),
    {
        &self.path
    }

    /// The manifest of the data set.
    pub fn manifest(&self) -> (manifest: &Manifest)
        ensures
            *manifest == self.spec_manifest(),
    {
        &self.manifest
    }

    /// The directory of the particle files, relative to the data set's directory: that of the
    /// first file of the manifest whose name ends with `/particles/`. `None` where no file
    /// ends so, or where that file's name does not begin with `$data/`.
    pub fn particles(&self) -> (directory: Option<String>)
        ensures
            match directory {
                Some(directory) => self.spec_manifest().particles_file() matches Some(file)
                    && relative_directory(file) == Some(directory@),
                None => self.spec_manifest().particles_file() matches Some(file)
                    ==> relative_directory(file) is None,
            },
    {
        let file = match self.manifest.find_particles_file() {
            Some(file) => file.as_str(),
            None => {
                return None;
            },
        };
        if !starts_with(file, DATA_PREFIX) {
            return None;
        }
        let rest = file.substring_char(DATA_PREFIX.unicode_len(), file.unicode_len());
        match split_after(rest, '/') {
            Some(directory) => Some(directory.to_owned()),
            None => None,
        }
    }
}

/// A colour in three bytes.
#[derive(Copy, Clone, Debug)]
pub struct Color {
    pub r: u8,
    pub g: u8,
    pub b: u8,
}

/// Three coordinates.
#[derive(Copy, Clone, Debug)]
pub struct Vector3<T> {
    pub x: T,
    pub y: T,
    pub z: T,
}

impl Color {
    /// The colour that the bit pattern of a packed colour holds: red in the lowest byte, then
    /// green, then blue. The highest byte is not part of the colour.
    pub open spec fn of_bits(bits: u32) -> Color {
        Color {
            r: (bits % 256) as u8,
            g: (bits / 0x100 % 256) as u8,
            b: (bits / 0x1_0000 % 256) as u8,
        }
    }

    /// Unpacks a colour from its bit pattern.
    pub fn from_bits(bits: u32) -> (color: Color)
        ensures
            color == Color::of_bits(bits),
    {
        Color {
            r: (bits % 256) as u8,
            g: (bits / 0x100 % 256) as u8,
            b: (bits / 0x1_0000 % 256) as u8,
        }
    }
}

/// Why the bytes of a particle file are not what the format asks for.
#[derive(Clone, Copy, Debug, PartialEq, Eq, Structural)]
pub enum FormatError {
    /// There are fewer bytes than the format asks for.
    UnexpectedEof,
    /// The file does not begin with the tag -1.
    InvalidTag,
    /// The file is of another version than 2.
    UnsupportedVersion,
    /// A name holds a code unit that is half of a surrogate pair.
    InvalidName,
}

/// The number of bytes before the particles of a file: tag, version and number of particles.
pub const HEADER_SIZE: usize = 12;

/// The number of bytes of a particle before its names.
pub const PARTICLE_SIZE: usize = 80;

/// The code unit that stands between two names.
pub const NAME_SEPARATOR: u16 = 0x7c;

/// The number of particles that a file with this beginning holds. The tag is read first, then
/// the version, then the number, each from four bytes, and the first that fails decides.
pub open spec fn header_of(header: Seq<u8>) -> Result<u32, FormatError> {
    if header.len() < 4 {
        Err(FormatError::UnexpectedEof)
    } else if be_value(header.subrange(0, 4)) != 0xffff_ffff {
        Err(FormatError::InvalidTag)
    } else if header.len() < 8 {
        Err(FormatError::UnexpectedEof)
    } else if be_value(header.subrange(4, 8)) != 2 {
        Err(FormatError::UnsupportedVersion)
    } else if header.len() < 12 {
        Err(FormatError::UnexpectedEof)
    } else {
        Ok(be_value(header.subrange(8, 12)) as u32)
    }
}

/// The first `count` code units of `bytes`, two bytes each.
pub open spec fn code_units(bytes: Seq<u8>, count: nat) -> Seq<u16> {
    Seq::new(count, |i: int| be_value(bytes.subrange(2 * i, 2 * i + 2)) as u16)
}

/// A code unit that is no character by itself.
pub open spec fn is_surrogate(unit: u16) -> bool {
    0xd800 <= unit <= 0xdfff
}

/// Every code unit is a character.
pub open spec fn are_characters(units: Seq<u16>) -> bool {
    forall|i: int| 0 <= i < units.len() ==> !is_surrogate(#[trigger] units[i])
}

/// The names that are complete after `units`, and the beginning of the next one.
pub open spec fn names_within(units: Seq<u16>) -> (Seq<Seq<char>>, Seq<char>)
    decreases units.len(),
{
    if units.len() == 0 {
        (Seq::empty(), Seq::empty())
    } else {
        let (names, name) = names_within(units.drop_last());
        if units.last() == NAME_SEPARATOR {
            (
                if name.len() > 0 {
                    names.push(name)
                } else {
                    names
                },
                Seq::empty(),
            )
        } else {
            (names, name.push(units.last() as char))
        }
    }
}

/// The names that `units` hold: the runs of code units between separators, without the empty
/// ones.
pub open spec fn names_of(units: Seq<u16>) -> Seq<Seq<char>> {
    let (names, name) = names_within(units);
    if name.len() > 0 {
        names.push(name)
    } else {
        names
    }
}

/// No name is empty.
pub proof fn lemma_names_are_not_empty(units: Seq<u16>, i: int)
    requires
        0 <= i < names_of(units).len(),
    ensures
        names_of(units)[i].len() > 0,
{
    lemma_names_within(units);
}

/// No name that is complete is empty.
proof fn lemma_names_within(units: Seq<u16>)
    ensures
        forall|i: int|
            0 <= i < names_within(units).0.len() ==> (#[trigger] names_within(units).0[i]).len()
                > 0,
    decreases units.len(),
{
    if units.len() > 0 {
        lemma_names_within(units.drop_last());
        // Each name was complete before, or is the one that the last separator completes.
        let (names, name) = names_within(units.drop_last());
        assert forall|i: int| 0 <= i < names_within(units).0.len() implies (
        #[trigger] names_within(units).0[i]).len() > 0 by {
            if i < names.len() {
                assert(names_within(units).0[i] == names[i]);
            } else {
                assert(names_within(units).0[i] == name);
            }
        }
    }
}

/// A particle as its file holds it. The floating-point fields are carried as their bit
/// patterns: `position` as those of 64-bit numbers, the others as those of 32-bit numbers.
#[derive(Debug)]
pub struct Particle {
    pub position: Vector3<u64>,
    pub proper_motion: Vector3<u32>,
    pub mu_alpha: u32,
    pub mu_delta: u32,
    pub radial_velocity: u32,
    pub apparent_magnitude: u32,
    pub absolute_magnitude: u32,
    pub color: Color,
    pub size: u32,
    pub hip: u32,
    pub source_id: u64,
    pub names: Vec<String>,
}

/// The number of code units of names that follow the 80 bytes `fixed` of a particle.
pub open spec fn names_length(fixed: Seq<u8>) -> nat {
    be_value(fixed.subrange(76, 80))
}

impl Particle {
    /// The particle is the one that the 80 bytes `fixed` and the names' bytes `names` write.
    pub open spec fn is_written_as(&self, fixed: Seq<u8>, names: Seq<u8>) -> bool {
        &&& self.position.x == be_value(fixed.subrange(0, 8))
        &&& self.position.y == be_value(fixed.subrange(8, 16))
        &&& self.position.z == be_value(fixed.subrange(16, 24))
        &&& self.proper_motion.x == be_value(fixed.subrange(24, 28))
        &&& self.proper_motion.y == be_value(fixed.subrange(28, 32))
        &&& self.proper_motion.z == be_value(fixed.subrange(32, 36))
        &&& self.mu_alpha == be_value(fixed.subrange(36, 40))
        &&& self.mu_delta == be_value(fixed.subrange(40, 44))
        &&& self.radial_velocity == be_value(fixed.subrange(44, 48))
        &&& self.apparent_magnitude == be_value(fixed.subrange(48, 52))
        &&& self.absolute_magnitude == be_value(fixed.subrange(52, 56))
        &&& self.color == Color::of_bits(be_value(fixed.subrange(56, 60)) as u32)
        &&& self.size == be_value(fixed.subrange(60, 64))
        &&& self.hip == be_value(fixed.subrange(64, 68))
        &&& self.source_id == be_value(fixed.subrange(68, 76))
        &&& self.names.deep_view() == names_of(code_units(names, names_length(fixed)))
    }
}

/// `String::push` appends the character to the text.
pub assume_specification[ String::push ](text: &mut String, c: char)
    ensures
        final(text)@ == old(text)@.push(c),
;

/// `char::from_u32` gives the character with that scalar value; there is none for a half of a
/// surrogate pair, nor above `0x10ffff`.
pub assume_specification[ char::from_u32 ](i: u32) -> (c: Option<char>)
    ensures
        c == if i <= 0xd7ff || 0xe000 <= i <= 0x10_ffff {
            Some(i as char)
        } else {
            None
        },
;

/// What reading the names in the first `count` code units of `bytes` gives: they have to be
/// there, and each of them has to be a character.
pub open spec fn names_in(bytes: Seq<u8>, count: nat) -> Result<Seq<Seq<char>>, FormatError> {
    if bytes.len() < 2 * count {
        Err(FormatError::UnexpectedEof)
    } else if !are_characters(code_units(bytes, count)) {
        Err(FormatError::InvalidName)
    } else {
        Ok(names_of(code_units(bytes, count)))
    }
}

/// Reads the names that the first `count` code units of `bytes` hold.
pub fn read_names(bytes: &[u8], count: u32) -> (names: Result<Vec<String>, FormatError>)
    ensures
        match names {
            Ok(names) => names_in(bytes@, count as nat) == Ok::<Seq<Seq<char>>, FormatError>(
                names.deep_view(),
            ),
            Err(error) => names_in(bytes@, count as nat) == Err::<Seq<Seq<char>>, FormatError>(
                error,
            ),
        },
{
    let ghost units = code_units(bytes@, count as nat);
    let length = bytes.len();
    if (length as u64) < 2 * (count as u64) {
        return Err(FormatError::UnexpectedEof);
    }
    let mut names: Vec<String> = Vec::new();
    let mut name = String::new();
    let mut at: usize = 0;
    while at < count as usize
        invariant
            at <= count,
            2 * count <= length == bytes@.len(),
            units == code_units(bytes@, count as nat),
            are_characters(units.take(at as int)),
            names.deep_view() == names_within(units.take(at as int)).0,
            name@ == names_within(units.take(at as int)).1,
        decreases count - at,
    {
        let unit = read_u16(bytes, 2 * at);
        proof {
            assert(unit == units[at as int]);
            assert(units.take(at + 1).drop_last() =~= units.take(at as int));
        }
        if unit == NAME_SEPARATOR {
            if !name.as_str().is_empty() {
                names.push(name);
            }
            name = String::new();
        } else {
            match char::from_u32(unit as u32) {
                Some(c) => {
                    name.push(c);
                },
                None => {
                    return Err(FormatError::InvalidName);
                },
            }
        }
        assert(are_characters(units.take(at + 1)));
        at = at + 1;
    }
    assert(units.take(at as int) =~= units);
    if !name.as_str().is_empty() {
        let ghost before = names.deep_view();
        names.push(name);
        assert(names.deep_view() =~= before.push(names_within(units).1));
    }
    Ok(names)
}

/// The place within one particle file: how many particles it holds and how many were read.
#[derive(Debug)]
pub struct ParticleFileReader {
    num_read: u32,
    num_particles: u32,
}

impl ParticleFileReader {
    /// How many particles were read.
    pub closed spec fn spec_num_read(&self) -> u32 {
        self.num_read
    }

    /// How many particles the file holds.
    pub closed spec fn spec_num_particles(&self) -> u32 {
        self.num_particles
    }

    /// What reading the particle written as `fixed` and `names` gives, and how many particles
    /// were read after it.
    ///
    /// With every particle read there is nothing more. Else `fixed` has to hold 80 bytes and
    /// `names` the code units that `fixed` announces, each of them a character.
    pub open spec fn particle_of(&self, fixed: Seq<u8>, names: Seq<u8>) -> Result<
        Option<u32>,
        FormatError,
    > {
        if self.spec_num_read() >= self.spec_num_particles() {
            Ok(None)
        } else if fixed.len() < PARTICLE_SIZE {
            Err(FormatError::UnexpectedEof)
        } else {
            match names_in(names, names_length(fixed)) {
                Ok(_) => Ok(Some((self.spec_num_read() + 1) as u32)),
                Err(error) => Err(error),
            }
        }
    }

    /// Starts on a file that begins with the bytes `header`.
    pub fn new(header: &[u8]) -> (reader: Result<Self, FormatError>)
        ensures
            match reader {
                Ok(reader) => header_of(header@) == Ok::<u32, FormatError>(
                    reader.spec_num_particles(),
                ) && reader.spec_num_read() == 0,
                Err(error) => header_of(header@) == Err::<u32, FormatError>(error),
            },
    {
        if header.len() < 4 {
            return Err(FormatError::UnexpectedEof);
        }
        if read_u32(header, 0) != 0xffff_ffff {
            return Err(FormatError::InvalidTag);
        }
        if header.len() < 8 {
            return Err(FormatError::UnexpectedEof);
        }
        if read_u32(header, 4) != 2 {
            return Err(FormatError::UnsupportedVersion);
        }
        if header.len() < 12 {
            return Err(FormatError::UnexpectedEof);
        }
        Ok(ParticleFileReader { num_read: 0, num_particles: read_u32(header, 8) })
    }

    /// How many particles were read.
    pub fn num_read(&self) -> (n: u32)
        ensures
            n == self.spec_num_read(),
    {
        self.num_read
    }

    /// How many particles the file holds.
    pub fn num_particles(&self) -> (n: u32)
        ensures
            n == self.spec_num_particles(),
    {
        self.num_particles
    }

    /// The number of bytes of names that follow the fixed part `fixed` of a particle; `None`
    /// where `fixed` is shorter than a fixed part.
    pub fn names_size(fixed: &[u8]) -> (size: Option<u64>)
        ensures
            size == if fixed@.len() < PARTICLE_SIZE {
                None
            } else {
                Some((2 * names_length(fixed@)) as u64)
            },
    {
        if fixed.len() < PARTICLE_SIZE {
            None
        } else {
            Some(2 * (read_u32(fixed, 76) as u64))
        }
    }

    /// Reads the next particle from its bytes: the `PARTICLE_SIZE` bytes `fixed`, and the
    /// bytes `names` that follow them. `Ok(None)` says that every particle of the file was
    /// read already. An error leaves the reader where it was.
    pub fn read_particle(&mut self, fixed: &[u8], names: &[u8]) -> (particle: Result<
        Option<Particle>,
        FormatError,
    >)
        ensures
            final(self).spec_num_particles() == old(self).spec_num_particles(),
            match particle {
                Ok(Some(particle)) => old(self).particle_of(fixed@, names@) == Ok::<
                    Option<u32>,
                    FormatError,
                >(Some(final(self).spec_num_read())) && particle.is_written_as(fixed@, names@),
                Ok(None) => old(self).particle_of(fixed@, names@) == Ok::<
                    Option<u32>,
                    FormatError,
                >(None) && final(self).spec_num_read() == old(self).spec_num_read(),
                Err(error) => old(self).particle_of(fixed@, names@) == Err::<
                    Option<u32>,
                    FormatError,
                >(error) && final(self).spec_num_read() == old(self).spec_num_read(),
            },
    {
        if self.num_read >= self.num_particles {
            return Ok(None);
        }
        if fixed.len() < PARTICLE_SIZE {
            return Err(FormatError::UnexpectedEof);
        }
        let names = match read_names(names, read_u32(fixed, 76)) {
            Ok(names) => names,
            Err(error) => {
                return Err(error);
            },
        };
        let particle = Particle {
            position: Vector3 {
                x: read_u64(fixed, 0),
                y: read_u64(fixed, 8),
                z: read_u64(fixed, 16),
            },
            proper_motion: Vector3 {
                x: read_u32(fixed, 24),
                y: read_u32(fixed, 28),
                z: read_u32(fixed, 32),
            },
            mu_alpha: read_u32(fixed, 36),
            mu_delta: read_u32(fixed, 40),
            radial_velocity: read_u32(fixed, 44),
            apparent_magnitude: read_u32(fixed, 48),
            absolute_magnitude: read_u32(fixed, 52),
            color: Color::from_bits(read_u32(fixed, 56)),
            size: read_u32(fixed, 60),
            hip: read_u32(fixed, 64),
            source_id: read_u64(fixed, 68),
            names,
        };
        self.num_read = self.num_read + 1;
        Ok(Some(particle))
    }
}

/// The place within a directory of particle files: the file that is being read, if any.
#[derive(Debug)]
pub struct ParticleDirReader {
    file_reader: Option<ParticleFileReader>,
}

impl View for ParticleDirReader {
    type V = Option<ParticleFileReader>;

    closed spec fn view(&self) -> Option<ParticleFileReader> {
        self.file_reader
    }
}

impl ParticleDirReader {
    /// Before the first file.
    pub fn new() -> (reader: Self)
        ensures
            reader@ is None,
    {
        ParticleDirReader { file_reader: None }
    }

    /// Says whether the next file of the directory has to be opened before a particle can be
    /// read: no file is open, or every particle of the open one was read.
    pub fn needs_file(&self) -> (needed: bool)
        ensures
            needed == match self@ {
                Some(file) => file.spec_num_read() >= file.spec_num_particles(),
                None => true,
            },
    {
        match &self.file_reader {
            Some(file) => file.num_read() >= file.num_particles(),
            None => true,
        }
    }

    /// Goes on to the next file, which begins with the bytes `header`. Where they are no
    /// header, no file is open afterwards.
    pub fn open_file(&mut self, header: &[u8]) -> (opened: Result<(), FormatError>)
        ensures
            match opened {
                Ok(()) => final(self)@ matches Some(file) && file.spec_num_read() == 0
                    && header_of(header@) == Ok::<u32, FormatError>(file.spec_num_particles()),
                Err(error) => final(self)@ is None && header_of(header@) == Err::<
                    u32,
                    FormatError,
                >(error),
            },
    {
        match ParticleFileReader::new(header) {
            Ok(file) => {
                self.file_reader = Some(file);
                Ok(())
            },
            Err(error) => {
                self.file_reader = None;
                Err(error)
            },
        }
    }

    /// Reads the next particle of the open file from its bytes. `Ok(None)` says that there is
    /// none: no file is open, or the open one is at its end and is closed by this call.
    pub fn read_particle(&mut self, fixed: &[u8], names: &[u8]) -> (particle: Result<
        Option<Particle>,
        FormatError,
    >)
        ensures
            match old(self)@ {
                None => particle matches Ok(None) && final(self)@ is None,
                Some(file) => match particle {
                    Ok(Some(particle)) => final(self)@ matches Some(after)
                        && after.spec_num_particles() == file.spec_num_particles()
                        && file.particle_of(fixed@, names@) == Ok::<Option<u32>, FormatError>(
                        Some(after.spec_num_read()),
                    ) && particle.is_written_as(fixed@, names@),
                    Ok(None) => final(self)@ is None && file.particle_of(fixed@, names@) == Ok::<
                        Option<u32>,
                        FormatError,
                    >(None),
                    Err(error) => final(self)@ == Some(file) && file.particle_of(fixed@, names@)
                        == Err::<Option<u32>, FormatError>(error),
                },
            },
    {
        let mut file = match self.file_reader.take() {
            Some(file) => file,
            None => {
                return Ok(None);
            },
        };
        let particle = file.read_particle(fixed, names);
        match &particle {
            Ok(None) => {},
            _ => {
                self.file_reader = Some(file);
            },
        }
        particle
    }
}

} // verus!
