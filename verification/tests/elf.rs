use findshlibs::linux::{choose_name, try_split_at, Phdr, Segment, SharedLibrary};
use findshlibs::{Avma, SharedLibraryId, Svma};

/// A program header with no captured contents.
fn phdr(p_type: u32, p_flags: u32, p_vaddr: u64, p_memsz: u64) -> Phdr {
    Phdr { p_type, p_flags, p_vaddr, p_memsz, p_align: 8, contents: Vec::new() }
}

/// One note record: header, name padded to `align`, descriptor padded to
/// `align`.
fn note_bytes(n_type: u32, name: &[u8], desc: &[u8], align: usize) -> Vec<u8> {
    let mut out = Vec::new();
    out.extend_from_slice(&(name.len() as u32).to_le_bytes());
    out.extend_from_slice(&(desc.len() as u32).to_le_bytes());
    out.extend_from_slice(&n_type.to_le_bytes());
    out.extend_from_slice(name);
    while out.len() % align != 0 {
        out.push(0);
    }
    out.extend_from_slice(desc);
    while out.len() % align != 0 {
        out.push(0);
    }
    out
}

fn note_phdr(contents: Vec<u8>, p_align: u64) -> Phdr {
    Phdr {
        p_type: 4,
        p_flags: 4,
        p_vaddr: 0x200,
        p_memsz: contents.len() as u64,
        p_align,
        contents,
    }
}

#[test]
fn segment_names() {
    let lib = SharedLibrary::new(b"lib".to_vec(), 0, vec![
        phdr(1, 5, 0, 0x1000),
        phdr(4, 4, 0x200, 0x20),
        phdr(2, 6, 0x300, 0x40),
    ]);
    let segments = lib.segments();
    let names: Vec<&str> = segments.iter().map(|s| s.name()).collect();
    assert_eq!(names, vec!["LOAD", "NOTE", "DYNAMIC"]);
}

#[test]
fn unknown_segment_type_yields_sentinel() {
    let header = phdr(0x1234_5678, 0, 0, 0);
    let segment = Segment::new(&header);
    assert_eq!(segment.name(), "(unknown segment type)");
}

#[test]
fn is_code_needs_load_and_execute() {
    let exec_load = phdr(1, 0x5, 0, 0x1000);
    let plain_load = phdr(1, 0x4, 0, 0x1000);
    let exec_note = phdr(4, 0x5, 0, 0x10);
    assert!(Segment::new(&exec_load).is_code());
    assert!(Segment::new(&exec_load).is_load());
    assert!(!Segment::new(&plain_load).is_code());
    assert!(Segment::new(&plain_load).is_load());
    assert!(!Segment::new(&exec_note).is_code());
    assert!(!Segment::new(&exec_note).is_load());
}

#[test]
fn containment_is_half_open() {
    let header = phdr(1, 5, 0x1000, 0x200);
    let segment = Segment::new(&header);
    assert!(segment.contains_svma(Svma(0x1000)));
    assert!(segment.contains_svma(Svma(0x11ff)));
    assert!(!segment.contains_svma(Svma(0x1200)));
    assert!(!segment.contains_svma(Svma(0xfff)));

    let lib = SharedLibrary::new(b"lib".to_vec(), 0x7000_0000, vec![header.clone()]);
    let segment = Segment::new(&header);
    assert!(segment.contains_avma(&lib, Avma(0x7000_1000)));
    assert!(segment.contains_avma(&lib, Avma(0x7000_11ff)));
    assert!(!segment.contains_avma(&lib, Avma(0x7000_1200)));
    assert!(!segment.contains_avma(&lib, Avma(0x7000_0fff)));
}

#[test]
fn empty_segment_contains_nothing() {
    let header = phdr(1, 5, 0x1000, 0);
    let segment = Segment::new(&header);
    assert!(!segment.contains_svma(Svma(0x1000)));
}

#[test]
fn try_split_at_splits_or_refuses() {
    let data = [1u8, 2, 3, 4, 5];
    let (head, tail) = try_split_at(&data, 2).unwrap();
    assert_eq!(head, &[1, 2]);
    assert_eq!(tail, &[3, 4, 5]);
    let (head, tail) = try_split_at(&data, 5).unwrap();
    assert_eq!(head, &[1, 2, 3, 4, 5]);
    assert_eq!(tail, &[] as &[u8]);
    assert!(try_split_at(&data, 6).is_none());
}

#[test]
fn build_id_note_is_found() {
    let contents = note_bytes(3, b"GNU\0", &[0xde, 0xad, 0xbe, 0xef, 0x01, 0x02], 4);
    let lib = SharedLibrary::new(b"lib".to_vec(), 0, vec![
        phdr(1, 5, 0, 0x1000),
        note_phdr(contents, 4),
    ]);
    let id = lib.id().expect("build id should be found");
    assert_eq!(id.as_bytes(), &[0xde, 0xad, 0xbe, 0xef, 0x01, 0x02]);
    assert_eq!(id.to_hex_bytes(), b"deadbeef0102".to_vec());
    assert_eq!(id, SharedLibraryId::GnuBuildId(vec![0xde, 0xad, 0xbe, 0xef, 0x01, 0x02]));
    let debug_id = lib.debug_id().expect("debug id follows the build id");
    assert_eq!(debug_id, id);
    assert!(lib.debug_name().is_none());
}

#[test]
fn first_build_id_wins() {
    let mut contents = note_bytes(3, b"GNU\0", &[0x01], 4);
    contents.extend_from_slice(&note_bytes(3, b"GNU\0", &[0x02], 4));
    let lib = SharedLibrary::new(b"lib".to_vec(), 0, vec![note_phdr(contents, 4)]);
    assert_eq!(lib.id().unwrap().as_bytes(), &[0x01]);
}

#[test]
fn non_gnu_notes_are_skipped() {
    let mut contents = note_bytes(3, b"XYZ\0", &[0x01], 4);
    contents.extend_from_slice(&note_bytes(1, b"GNU\0", &[0x02], 4));
    contents.extend_from_slice(&note_bytes(3, b"GNU\0", &[0x03], 4));
    let lib = SharedLibrary::new(b"lib".to_vec(), 0, vec![note_phdr(contents, 4)]);
    assert_eq!(lib.id().unwrap().as_bytes(), &[0x03]);
}

#[test]
fn truncated_note_yields_no_id() {
    let mut contents = note_bytes(3, b"GNU\0", &[0x01, 0x02, 0x03], 4);
    contents.truncate(contents.len() - 2);
    let lib = SharedLibrary::new(b"lib".to_vec(), 0, vec![note_phdr(contents, 4)]);
    assert!(lib.id().is_none());
}

#[test]
fn oversized_alignment_yields_no_notes() {
    let contents = note_bytes(3, b"GNU\0", &[0x01], 4);
    let lib = SharedLibrary::new(b"lib".to_vec(), 0, vec![note_phdr(contents, 16)]);
    assert!(lib.id().is_none());
}

#[test]
fn eight_byte_alignment_is_honored() {
    let contents = note_bytes(3, b"GNU\0", &[0x0a, 0x0b], 8);
    let lib = SharedLibrary::new(b"lib".to_vec(), 0, vec![note_phdr(contents, 8)]);
    assert_eq!(lib.id().unwrap().as_bytes(), &[0x0a, 0x0b]);
}

#[test]
fn notes_parses_records_in_order() {
    let mut contents = note_bytes(7, b"AB\0", &[0x10], 4);
    contents.extend_from_slice(&note_bytes(3, b"GNU\0", &[0x20, 0x21], 4));
    let header = note_phdr(contents, 4);
    let segment = Segment::new(&header);
    let notes = segment.notes();
    assert_eq!(notes.len(), 2);
    assert_eq!(notes[0].n_type, 7);
    assert_eq!(notes[0].name, b"AB\0".to_vec());
    assert_eq!(notes[0].desc, vec![0x10]);
    assert_eq!(notes[1].n_type, 3);
    assert_eq!(notes[1].name, b"GNU\0".to_vec());
    assert_eq!(notes[1].desc, vec![0x20, 0x21]);
}

#[test]
fn have_load_segment() {
    let lib = SharedLibrary::new(b"lib".to_vec(), 0x1000, vec![
        phdr(6, 4, 0x40, 0x1c0),
        phdr(1, 5, 0, 0x1000),
        phdr(4, 4, 0x200, 0x20),
    ]);
    let mut found_load = false;
    for seg in lib.segments() {
        found_load |= seg.name() == "LOAD";
    }
    assert!(found_load);
}

#[test]
fn test_load_address_bias() {
    let bias = 0x5555_0000usize;
    let lib = SharedLibrary::new(b"lib".to_vec(), bias, vec![
        phdr(6, 4, 0x40, 0x1c0),
        phdr(1, 5, 0x1000, 0x2000),
        phdr(1, 4, 0x4000, 0x800),
    ]);
    let svma = lib.stated_load_addr();
    let avma = lib.actual_load_addr();
    assert_eq!(svma, Svma(0x1000));
    assert_eq!(avma, Avma(bias + 0x1000));
    assert_eq!(lib.avma_to_svma(avma), svma);
}

#[test]
fn image_len_spans_load_segments() {
    let bias = 0x10_0000usize;
    let lib = SharedLibrary::new(b"lib".to_vec(), bias, vec![
        phdr(1, 5, 0x1000, 0x2000),
        phdr(4, 4, 0x9000, 0x20),
        phdr(1, 4, 0x4000, 0x800),
    ]);
    // from the first load segment's biased start to the largest load end
    assert_eq!(lib.len(), 0x4800 - 0x1000);
}

#[test]
fn image_without_load_segments_has_len_zero() {
    let lib = SharedLibrary::new(b"lib".to_vec(), 0x1000, vec![phdr(4, 4, 0x200, 0x20)]);
    assert_eq!(lib.len(), 0);
}

#[test]
fn choose_name_prefers_the_reported_name() {
    assert_eq!(
        choose_name(b"/usr/lib/libc.so".to_vec(), false, None, Some(b"other".to_vec())),
        b"/usr/lib/libc.so".to_vec()
    );
    assert_eq!(
        choose_name(Vec::new(), true, Some(b"/bin/app".to_vec()), None),
        b"/bin/app".to_vec()
    );
    assert_eq!(
        choose_name(Vec::new(), false, Some(b"/bin/app".to_vec()), Some(b"/lib/x.so".to_vec())),
        b"/lib/x.so".to_vec()
    );
    assert_eq!(choose_name(Vec::new(), false, None, None), Vec::<u8>::new());
}
