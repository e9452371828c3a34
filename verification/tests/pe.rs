use findshlibs::windows::{SectionHeader, Segment, SharedLibrary};
use findshlibs::{Avma, SharedLibraryId, Svma};

const GUID: [u8; 16] = [
    0x10, 0x11, 0x12, 0x13, 0x24, 0x25, 0x36, 0x37, 0x48, 0x49, 0x5a, 0x5b, 0x6c, 0x6d, 0x7e,
    0x7f,
];

const NT: usize = 0x80;
const OPT: usize = NT + 24;
const TIMESTAMP: u32 = 0x5ead_beef;
const SIZE_OF_IMAGE: u32 = 0x9000;
const PDB_AGE: u32 = 3;

fn write(image: &mut [u8], offset: usize, bytes: &[u8]) {
    image[offset..offset + bytes.len()].copy_from_slice(bytes);
}

fn section(image: &mut [u8], offset: usize, name: &[u8], vsize: u32, vaddr: u32, chars: u32) {
    let mut field = [0u8; 8];
    field[..name.len()].copy_from_slice(name);
    write(image, offset, &field);
    write(image, offset + 8, &vsize.to_le_bytes());
    write(image, offset + 12, &vaddr.to_le_bytes());
    write(image, offset + 36, &chars.to_le_bytes());
}

fn sample_image() -> Vec<u8> {
    let mut image = vec![0u8; 0x500];
    // DOS header: magic and the offset of the NT headers.
    write(&mut image, 0, b"MZ");
    write(&mut image, 60, &(NT as u32).to_le_bytes());
    // NT headers: signature, then the file header.
    write(&mut image, NT, b"PE\0\0");
    write(&mut image, NT + 6, &2u16.to_le_bytes()); // NumberOfSections
    write(&mut image, NT + 8, &TIMESTAMP.to_le_bytes());
    write(&mut image, NT + 20, &240u16.to_le_bytes()); // SizeOfOptionalHeader
    // Optional header: 64-bit magic, image size, directory count, and the
    // debug directory entry.
    write(&mut image, OPT, &0x20bu16.to_le_bytes());
    write(&mut image, OPT + 56, &SIZE_OF_IMAGE.to_le_bytes());
    write(&mut image, OPT + 108, &16u32.to_le_bytes()); // NumberOfRvaAndSizes
    write(&mut image, OPT + 112 + 48, &0x300u32.to_le_bytes()); // debug VA
    write(&mut image, OPT + 112 + 52, &28u32.to_le_bytes()); // debug size
    // Section headers follow the optional header.
    let sections = OPT + 240;
    section(&mut image, sections, b".text", 0x1000, 0x1000, 0x6000_0020);
    section(&mut image, sections + 40, b".data", 0x200, 0x2000, 0xc000_0040);
    // One debug directory entry of CodeView type.
    write(&mut image, 0x300 + 12, &2u32.to_le_bytes());
    write(&mut image, 0x300 + 16, &0x30u32.to_le_bytes());
    write(&mut image, 0x300 + 20, &0x400u32.to_le_bytes());
    // The CodeView record: signature, GUID, age, and the PDB name.
    write(&mut image, 0x400, b"RSDS");
    write(&mut image, 0x400 + 4, &GUID);
    write(&mut image, 0x400 + 20, &PDB_AGE.to_le_bytes());
    write(&mut image, 0x400 + 24, b"sample.pdb\0");
    image
}

fn sample_library() -> SharedLibrary {
    SharedLibrary::new(b"sample.dll".to_vec(), 0x0018_0000, sample_image())
}

#[test]
fn nt_headers_need_both_signatures() {
    let lib = sample_library();
    assert_eq!(lib.nt_headers(), Some(NT));

    let mut bad_dos = sample_image();
    bad_dos[0] = b'X';
    let lib = SharedLibrary::new(b"x.dll".to_vec(), 0, bad_dos);
    assert_eq!(lib.nt_headers(), None);
    assert_eq!(lib.segments().len(), 0);
    assert!(lib.id().is_none());

    let mut bad_nt = sample_image();
    bad_nt[NT] = b'Q';
    let lib = SharedLibrary::new(b"x.dll".to_vec(), 0, bad_nt);
    assert_eq!(lib.nt_headers(), None);
    assert_eq!(lib.segments().len(), 0);
    assert!(lib.id().is_none());
}

#[test]
fn sections_parse_in_table_order() {
    let lib = sample_library();
    let segments = lib.segments();
    assert_eq!(segments.len(), 2);
    assert_eq!(segments[0].name(), b".text".to_vec());
    assert_eq!(segments[1].name(), b".data".to_vec());
    assert!(segments[0].is_code());
    assert!(segments[0].is_load());
    assert!(!segments[1].is_code());
    assert_eq!(segments[0].stated_virtual_memory_address(), Svma(0x1000));
    assert_eq!(segments[0].len(), 0x1000);
    assert_eq!(segments[0].actual_virtual_memory_address(&lib), Avma(0x0018_1000));
}

#[test]
fn have_code() {
    let lib = sample_library();
    let mut found_code = false;
    for seg in lib.segments() {
        if seg.is_code() {
            found_code = true;
        }
    }
    assert!(found_code);
}

#[test]
fn module_id_is_the_pe_signature() {
    let lib = sample_library();
    assert_eq!(lib.id(), Some(SharedLibraryId::PeSignature(TIMESTAMP, SIZE_OF_IMAGE)));
}

#[test]
fn debug_id_and_name_come_from_the_codeview_record() {
    let lib = sample_library();
    assert_eq!(lib.debug_id(), Some(SharedLibraryId::PdbSignature(GUID, PDB_AGE)));
    assert_eq!(lib.debug_name(), Some(b"sample.pdb".to_vec()));
    let record = lib.codeview_record70().unwrap();
    assert_eq!(record.pdb_signature, GUID);
    assert_eq!(record.pdb_age, PDB_AGE);
    assert_eq!(record.pdb_filename, b"sample.pdb".to_vec());
}

#[test]
fn debug_directories_are_listed() {
    let lib = sample_library();
    let dirs = lib.debug_directories();
    assert_eq!(dirs.len(), 1);
    assert_eq!(dirs[0].dd_type, 2);
    assert_eq!(dirs[0].data_size, 0x30);
    assert_eq!(dirs[0].address_of_raw_data, 0x400);
}

#[test]
fn codeview_without_signature_is_passed_over() {
    let mut image = sample_image();
    write(&mut image, 0x400, b"XXXX");
    let lib = SharedLibrary::new(b"x.dll".to_vec(), 0, image);
    assert!(lib.codeview_record70().is_none());
    assert!(lib.debug_id().is_none());
    assert!(lib.debug_name().is_none());
    // The module's own identity does not depend on the debug data.
    assert!(lib.id().is_some());
}

#[test]
fn ill_sized_debug_directory_is_ignored() {
    let mut image = sample_image();
    write(&mut image, OPT + 112 + 52, &27u32.to_le_bytes());
    let lib = SharedLibrary::new(b"x.dll".to_vec(), 0, image);
    assert_eq!(lib.debug_directories().len(), 0);
    assert!(lib.debug_id().is_none());
}

#[test]
fn section_name_trims_only_trailing_nuls() {
    let segment = Segment {
        section: SectionHeader {
            name: b".rsrc\0\0\0".to_vec(),
            virtual_size: 1,
            virtual_address: 2,
            characteristics: 0,
        },
    };
    assert_eq!(segment.name(), b".rsrc".to_vec());

    let segment = Segment {
        section: SectionHeader {
            name: b"\0\0\0\0\0\0\0\0".to_vec(),
            virtual_size: 0,
            virtual_address: 0,
            characteristics: 0,
        },
    };
    assert_eq!(segment.name(), Vec::<u8>::new());
}

#[test]
fn dos_header_reports_the_nt_offset() {
    let lib = sample_library();
    assert_eq!(lib.dos_header(), Some(NT as u32));
}

#[test]
fn load_addresses_and_len_follow_the_code_section() {
    let lib = sample_library();
    assert_eq!(lib.stated_load_addr(), Svma(0x1000));
    assert_eq!(lib.actual_load_addr(), Avma(0x0018_1000));
    assert_eq!(lib.len(), 0x1000);
    assert_eq!(lib.avma_to_svma(lib.actual_load_addr()), lib.stated_load_addr());
}

#[test]
fn containment_and_bias_round_trip() {
    let lib = sample_library();
    let segments = lib.segments();
    let text = &segments[0];
    assert!(text.contains_svma(Svma(0x1000)));
    assert!(!text.contains_svma(Svma(0x2000)));
    assert!(text.contains_avma(&lib, Avma(0x0018_1fff)));
    assert!(!text.contains_avma(&lib, Avma(0x0018_2000)));
    let avma = text.actual_virtual_memory_address(&lib);
    assert_eq!(lib.avma_to_svma(avma), text.stated_virtual_memory_address());
}
