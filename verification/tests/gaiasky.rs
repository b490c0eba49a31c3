use std::path::PathBuf;

use via_tool::gaiasky::{
    Color, Data, DataSet, FormatError, Manifest, Particle, ParticleDirReader, ParticleFileReader,
    read_names, HEADER_SIZE, PARTICLE_SIZE,
};

fn manifest(data: Vec<Vec<&str>>) -> Manifest {
    Manifest {
        key: "catalog-gaia".to_string(),
        name: "Gaia".to_string(),
        version: 3,
        ty: "catalog-gaia".to_string(),
        min_gs_version: 30200,
        description: "stars".to_string(),
        release_notes: String::new(),
        link: "https://example.org".to_string(),
        size: 1024,
        num_objects: 17,
        check: "sha256:00".to_string(),
        files: vec!["$data/catalog".to_string()],
        data: data
            .into_iter()
            .map(|files| Data {
                loader: "loader".to_string(),
                files: files.into_iter().map(str::to_string).collect(),
                epoch: 2016,
            })
            .collect(),
    }
}

fn particles(data: Vec<Vec<&str>>) -> Option<String> {
    DataSet::open(PathBuf::from("/sets/gaia"), manifest(data)).particles()
}

#[test]
fn data_set_keeps_path_and_manifest() {
    let data_set = DataSet::open(PathBuf::from("/sets/gaia"), manifest(vec![vec!["a", "b"]]));
    assert_eq!(data_set.path(), &PathBuf::from("/sets/gaia"));
    let manifest = data_set.manifest();
    assert_eq!(manifest.key, "catalog-gaia");
    assert_eq!(manifest.version, 3);
    assert_eq!(manifest.num_objects, 17);
    assert_eq!(manifest.data.len(), 1);
    assert_eq!(manifest.data[0].files, vec!["a".to_string(), "b".to_string()]);
    assert_eq!(manifest.data[0].epoch, 2016);
}

#[test]
fn particles_directory_is_found() {
    assert_eq!(
        particles(vec![vec!["$data/catalog-gaia/metadata.bin", "$data/catalog-gaia/particles/"]]),
        Some("particles/".to_string())
    );
    assert_eq!(
        particles(vec![vec!["x"], vec![], vec!["$data/a/b/particles/", "$data/c/particles/"]]),
        Some("b/particles/".to_string())
    );
    assert_eq!(particles(vec![vec!["$data/particles/"]]), Some(String::new()));
    assert_eq!(particles(vec![vec!["$data//particles/"]]), Some("particles/".to_string()));
}

#[test]
fn particles_directory_is_missing() {
    assert_eq!(particles(vec![]), None);
    assert_eq!(particles(vec![vec![], vec![]]), None);
    assert_eq!(particles(vec![vec!["$data/catalog/particles", "$data/catalog/particle/"]]), None);
    // The first file that ends so decides, also where its beginning is wrong.
    assert_eq!(particles(vec![vec!["data/a/particles/"], vec!["$data/b/particles/"]]), None);
    assert_eq!(particles(vec![vec!["/particles/"]]), None);
}

#[test]
fn first_particles_file_is_found() {
    let manifest = manifest(vec![vec!["a/particles/x"], vec!["b/particles/", "c/particles/"]]);
    assert_eq!(manifest.find_particles_file(), Some(&"b/particles/".to_string()));
}

#[test]
fn colour_is_unpacked_from_its_bits() {
    let color = Color::from_bits(0xaa33_2211);
    assert_eq!((color.r, color.g, color.b), (0x11, 0x22, 0x33));
    let color = Color::from_bits(f32::from_bits(0xfe00_80ff).to_bits());
    assert_eq!((color.r, color.g, color.b), (0xff, 0x80, 0x00));
    let color = Color::from_bits(0);
    assert_eq!((color.r, color.g, color.b), (0, 0, 0));
    let color = Color::from_bits(u32::MAX);
    assert_eq!((color.r, color.g, color.b), (255, 255, 255));
}

fn header(tag: i32, version: i32, num_particles: u32) -> Vec<u8> {
    let mut bytes = Vec::new();
    bytes.extend_from_slice(&tag.to_be_bytes());
    bytes.extend_from_slice(&version.to_be_bytes());
    bytes.extend_from_slice(&num_particles.to_be_bytes());
    bytes
}

#[test]
fn header_gives_the_number_of_particles() {
    let reader = ParticleFileReader::new(&header(-1, 2, 0x0102_0304)).unwrap();
    assert_eq!(reader.num_particles(), 0x0102_0304);
    assert_eq!(reader.num_read(), 0);
    let mut longer = header(-1, 2, 7);
    longer.push(99);
    assert_eq!(ParticleFileReader::new(&longer).unwrap().num_particles(), 7);
    assert_eq!(HEADER_SIZE, 12);
}

#[test]
fn header_is_refused() {
    let error = |bytes: &[u8]| ParticleFileReader::new(bytes).unwrap_err();
    assert_eq!(error(&header(-2, 2, 1)), FormatError::InvalidTag);
    assert_eq!(error(&header(1, 2, 1)), FormatError::InvalidTag);
    assert_eq!(error(&header(-1, 1, 1)), FormatError::UnsupportedVersion);
    assert_eq!(error(&header(-1, 3, 1)), FormatError::UnsupportedVersion);
    assert_eq!(error(&header(-1, -2, 1)), FormatError::UnsupportedVersion);
    // The tag is looked at before the version.
    assert_eq!(error(&header(0, 3, 1)), FormatError::InvalidTag);
    assert_eq!(error(&[]), FormatError::UnexpectedEof);
    assert_eq!(error(&[255, 255, 255]), FormatError::UnexpectedEof);
    assert_eq!(error(&[255, 255, 255, 254]), FormatError::InvalidTag);
    assert_eq!(error(&[255, 255, 255, 255]), FormatError::UnexpectedEof);
    assert_eq!(error(&[255, 255, 255, 255, 0, 0, 0]), FormatError::UnexpectedEof);
    assert_eq!(error(&[255, 255, 255, 255, 0, 0, 0, 1]), FormatError::UnsupportedVersion);
    assert_eq!(error(&[255, 255, 255, 255, 0, 0, 0, 2]), FormatError::UnexpectedEof);
    assert_eq!(error(&[255, 255, 255, 255, 0, 0, 0, 2, 0, 0, 0]), FormatError::UnexpectedEof);
}

fn units(text: &str) -> Vec<u8> {
    text.encode_utf16().flat_map(u16::to_be_bytes).collect()
}

/// The bytes of a particle whose floating-point fields are 1.5, 2.5 and so on.
fn particle(color: u32, hip: u32, source_id: u64, names: &str) -> (Vec<u8>, Vec<u8>) {
    let mut fixed = Vec::new();
    for value in [1.5f64, -2.5, 3.5] {
        fixed.extend_from_slice(&value.to_be_bytes());
    }
    for value in [4.5f32, 5.5, 6.5, 7.5, 8.5, 9.5, 10.5, 11.5] {
        fixed.extend_from_slice(&value.to_be_bytes());
    }
    fixed.extend_from_slice(&color.to_be_bytes());
    fixed.extend_from_slice(&12.5f32.to_be_bytes());
    fixed.extend_from_slice(&hip.to_be_bytes());
    fixed.extend_from_slice(&source_id.to_be_bytes());
    let names = units(names);
    fixed.extend_from_slice(&(names.len() as u32 / 2).to_be_bytes());
    assert_eq!(fixed.len(), PARTICLE_SIZE);
    (fixed, names)
}

fn check_particle(particle: &Particle, hip: u32, source_id: u64, names: &[&str]) {
    assert_eq!(f64::from_bits(particle.position.x), 1.5);
    assert_eq!(f64::from_bits(particle.position.y), -2.5);
    assert_eq!(f64::from_bits(particle.position.z), 3.5);
    assert_eq!(f32::from_bits(particle.proper_motion.x), 4.5);
    assert_eq!(f32::from_bits(particle.proper_motion.y), 5.5);
    assert_eq!(f32::from_bits(particle.proper_motion.z), 6.5);
    assert_eq!(f32::from_bits(particle.mu_alpha), 7.5);
    assert_eq!(f32::from_bits(particle.mu_delta), 8.5);
    assert_eq!(f32::from_bits(particle.radial_velocity), 9.5);
    assert_eq!(f32::from_bits(particle.apparent_magnitude), 10.5);
    assert_eq!(f32::from_bits(particle.absolute_magnitude), 11.5);
    assert_eq!(f32::from_bits(particle.size), 12.5);
    assert_eq!(particle.hip, hip);
    assert_eq!(particle.source_id, source_id);
    assert_eq!(particle.names, names);
}

#[test]
fn particle_is_read_from_its_bytes() {
    let mut reader = ParticleFileReader::new(&header(-1, 2, 2)).unwrap();
    let (fixed, names) = particle(0xfe03_0201, 71683, 147182172683187712, "Rigil|alf Cen");
    assert_eq!(ParticleFileReader::names_size(&fixed), Some(26));
    let particle = reader.read_particle(&fixed, &names).unwrap().unwrap();
    check_particle(&particle, 71683, 147182172683187712, &["Rigil", "alf Cen"]);
    assert_eq!((particle.color.r, particle.color.g, particle.color.b), (1, 2, 3));
    assert_eq!(reader.num_read(), 1);
    assert_eq!(reader.num_particles(), 2);
}

#[test]
fn particles_are_counted() {
    let mut reader = ParticleFileReader::new(&header(-1, 2, 2)).unwrap();
    let (fixed, names) = particle(0, 1, 2, "");
    assert!(reader.read_particle(&fixed, &names).unwrap().is_some());
    assert_eq!(reader.num_read(), 1);
    assert!(reader.read_particle(&fixed, &names).unwrap().is_some());
    assert_eq!(reader.num_read(), 2);
    assert!(reader.read_particle(&fixed, &names).unwrap().is_none());
    assert!(reader.read_particle(&[], &[]).unwrap().is_none());
    assert_eq!(reader.num_read(), 2);
    let mut empty = ParticleFileReader::new(&header(-1, 2, 0)).unwrap();
    assert!(empty.read_particle(&fixed, &names).unwrap().is_none());
    assert_eq!(empty.num_read(), 0);
}

#[test]
fn particle_with_too_few_bytes_is_refused() {
    let mut reader = ParticleFileReader::new(&header(-1, 2, 1)).unwrap();
    let (fixed, names) = particle(0, 1, 2, "ab|c");
    assert_eq!(reader.read_particle(&fixed[..79], &names).unwrap_err(), FormatError::UnexpectedEof);
    assert_eq!(reader.read_particle(&fixed, &names[..7]).unwrap_err(), FormatError::UnexpectedEof);
    assert_eq!(reader.read_particle(&fixed, &[]).unwrap_err(), FormatError::UnexpectedEof);
    assert_eq!(reader.num_read(), 0);
    assert_eq!(ParticleFileReader::names_size(&fixed[..79]), None);
    assert_eq!(ParticleFileReader::names_size(&fixed), Some(8));
    // Bytes after the names are not looked at.
    let mut longer = names.clone();
    longer.extend_from_slice(&[0xd8, 0x00]);
    let particle = reader.read_particle(&fixed, &longer).unwrap().unwrap();
    assert_eq!(particle.names, ["ab", "c"]);
    assert_eq!(reader.num_read(), 1);
}

#[test]
fn names_length_may_be_large() {
    let (mut fixed, _) = particle(0, 1, 2, "");
    fixed[76..80].copy_from_slice(&[0xff, 0xff, 0xff, 0xff]);
    assert_eq!(ParticleFileReader::names_size(&fixed), Some(2 * 0xffff_ffffu64));
    let mut reader = ParticleFileReader::new(&header(-1, 2, 1)).unwrap();
    assert_eq!(reader.read_particle(&fixed, &[0; 64]).unwrap_err(), FormatError::UnexpectedEof);
}

#[test]
fn names_are_split_at_the_separator() {
    let names = |text: &str| {
        let bytes = units(text);
        read_names(&bytes, bytes.len() as u32 / 2).unwrap()
    };
    assert_eq!(names("Sirius|alf CMa|HIP 32349"), ["Sirius", "alf CMa", "HIP 32349"]);
    assert_eq!(names("Sirius"), ["Sirius"]);
    assert_eq!(names("|Sirius||Dog Star|"), ["Sirius", "Dog Star"]);
    assert_eq!(names("a|b"), ["a", "b"]);
    assert_eq!(names("\u{3b1} Cen|\u{4e2d}"), ["\u{3b1} Cen", "\u{4e2d}"]);
    assert!(names("").is_empty());
    assert!(names("|").is_empty());
    assert!(names("|||").is_empty());
    // Only as many code units as are counted are read.
    assert_eq!(read_names(&units("ab|cd"), 4).unwrap(), ["ab", "c"]);
    assert!(read_names(&units("ab|cd"), 0).unwrap().is_empty());
}

#[test]
fn half_a_surrogate_pair_is_no_name() {
    assert_eq!(read_names(&[0x00, 0x41, 0xd8, 0x00], 2).unwrap_err(), FormatError::InvalidName);
    assert_eq!(read_names(&[0xdf, 0xff], 1).unwrap_err(), FormatError::InvalidName);
    assert_eq!(read_names(&[0xd7, 0xff], 1).unwrap(), ["\u{d7ff}"]);
    assert_eq!(read_names(&[0xe0, 0x00], 1).unwrap(), ["\u{e000}"]);
    assert_eq!(read_names(&[0xff, 0xff], 1).unwrap(), ["\u{ffff}"]);
    // A pair of surrogates is refused as each half is.
    assert_eq!(read_names(&units("\u{1f600}"), 2).unwrap_err(), FormatError::InvalidName);
    let mut reader = ParticleFileReader::new(&header(-1, 2, 1)).unwrap();
    let (fixed, names) = particle(0, 1, 2, "a\u{1f600}");
    assert_eq!(reader.read_particle(&fixed, &names).unwrap_err(), FormatError::InvalidName);
    assert_eq!(reader.num_read(), 0);
}

#[test]
fn directory_is_read_file_after_file() {
    let mut reader = ParticleDirReader::new();
    assert!(reader.needs_file());
    let (fixed, names) = particle(0, 5, 6, "x");
    assert!(reader.read_particle(&fixed, &names).unwrap().is_none());
    reader.open_file(&header(-1, 2, 1)).unwrap();
    assert!(!reader.needs_file());
    let particle = reader.read_particle(&fixed, &names).unwrap().unwrap();
    check_particle(&particle, 5, 6, &["x"]);
    assert!(reader.needs_file());
    assert!(reader.read_particle(&fixed, &names).unwrap().is_none());
    assert!(reader.needs_file());
    reader.open_file(&header(-1, 2, 0)).unwrap();
    assert!(reader.needs_file());
    reader.open_file(&header(-1, 2, 2)).unwrap();
    assert!(!reader.needs_file());
    assert_eq!(reader.read_particle(&fixed[..10], &names).unwrap_err(), FormatError::UnexpectedEof);
    assert!(!reader.needs_file());
    assert!(reader.read_particle(&fixed, &names).unwrap().is_some());
    assert!(!reader.needs_file());
    assert_eq!(reader.open_file(&header(-1, 7, 2)).unwrap_err(), FormatError::UnsupportedVersion);
    assert!(reader.needs_file());
    assert_eq!(reader.open_file(&header(5, 2, 2)).unwrap_err(), FormatError::InvalidTag);
    assert!(reader.read_particle(&fixed, &names).unwrap().is_none());
}
