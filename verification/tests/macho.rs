use findshlibs::macos::{MachHeader, MachType, Segment, SegmentCommand64, SharedLibrary};
use findshlibs::{Avma, SharedLibraryId, Svma};

fn segname_field(name: &[u8]) -> [u8; 16] {
    let mut field = [0u8; 16];
    field[..name.len()].copy_from_slice(name);
    field
}

fn segment_command_64(name: &[u8], vmaddr: u64, vmsize: u64) -> Vec<u8> {
    let mut out = Vec::new();
    out.extend_from_slice(&0x19u32.to_le_bytes());
    out.extend_from_slice(&72u32.to_le_bytes());
    out.extend_from_slice(&segname_field(name));
    out.extend_from_slice(&vmaddr.to_le_bytes());
    out.extend_from_slice(&vmsize.to_le_bytes());
    out.extend_from_slice(&[0u8; 32]);
    out
}

fn segment_command_32(name: &[u8], vmaddr: u32, vmsize: u32) -> Vec<u8> {
    let mut out = Vec::new();
    out.extend_from_slice(&1u32.to_le_bytes());
    out.extend_from_slice(&56u32.to_le_bytes());
    out.extend_from_slice(&segname_field(name));
    out.extend_from_slice(&vmaddr.to_le_bytes());
    out.extend_from_slice(&vmsize.to_le_bytes());
    out.extend_from_slice(&[0u8; 24]);
    out
}

fn uuid_command(uuid: &[u8; 16]) -> Vec<u8> {
    let mut out = Vec::new();
    out.extend_from_slice(&27u32.to_le_bytes());
    out.extend_from_slice(&24u32.to_le_bytes());
    out.extend_from_slice(uuid);
    out
}

fn other_command() -> Vec<u8> {
    let mut out = Vec::new();
    out.extend_from_slice(&0x22u32.to_le_bytes());
    out.extend_from_slice(&16u32.to_le_bytes());
    out.extend_from_slice(&[0u8; 8]);
    out
}

const UUID: [u8; 16] = [
    0xaa, 0xbb, 0xcc, 0xdd, 0x01, 0x02, 0x03, 0x04, 0x05, 0x06, 0x07, 0x08, 0x09, 0x0a, 0x0b,
    0x0c,
];

fn sample_library() -> SharedLibrary {
    let mut commands = Vec::new();
    commands.extend_from_slice(&segment_command_64(b"__PAGEZERO", 0, 0x1000));
    commands.extend_from_slice(&other_command());
    commands.extend_from_slice(&segment_command_64(b"__TEXT", 0x1000, 0x2000));
    commands.extend_from_slice(&uuid_command(&UUID));
    SharedLibrary::new(MachHeader::Header64(4), commands, 0x5000, b"libsample.dylib".to_vec())
}

#[test]
fn mach_types_come_from_the_magic_number() {
    assert_eq!(MachType::from_magic(0xfeedface), Some(MachType::Mach32));
    assert_eq!(MachType::from_magic(0xfeedfacf), Some(MachType::Mach64));
    assert_eq!(MachType::from_magic(0x1234), None);
    assert_eq!(MachHeader::from_magic(0xfeedface, 7), Some(MachHeader::Header32(7)));
    assert_eq!(MachHeader::from_magic(0xfeedfacf, 7), Some(MachHeader::Header64(7)));
    assert_eq!(MachHeader::from_magic(0, 7), None);
}

#[test]
fn walker_yields_segments_in_command_order() {
    let lib = sample_library();
    let segments = lib.segments();
    assert_eq!(segments.len(), 2);
    assert_eq!(segments[0].name(), b"__PAGEZERO".to_vec());
    assert_eq!(segments[1].name(), b"__TEXT".to_vec());
    assert!(!segments[0].is_code());
    assert!(segments[1].is_code());
    assert_eq!(segments[1].stated_virtual_memory_address(), Svma(0x1000));
    assert_eq!(segments[1].len(), 0x2000);
    assert_eq!(segments[1].actual_virtual_memory_address(&lib), Avma(0x6000));
}

#[test]
fn have_text_or_pagezero() {
    let lib = sample_library();
    let mut found_text_or_pagezero = false;
    for seg in lib.segments() {
        found_text_or_pagezero |= seg.name() == b"__TEXT".to_vec();
        found_text_or_pagezero |= seg.name() == b"__PAGEZERO".to_vec();
    }
    assert!(found_text_or_pagezero);
}

#[test]
fn uuid_is_found() {
    let lib = sample_library();
    let id = lib.id().expect("uuid should be found");
    assert_eq!(id, SharedLibraryId::Uuid(UUID));
    assert_eq!(id.as_bytes(), &UUID[..]);
    assert_eq!(lib.debug_id(), Some(SharedLibraryId::Uuid(UUID)));
    assert!(lib.debug_name().is_none());
}

#[test]
fn missing_uuid_yields_none() {
    let mut commands = Vec::new();
    commands.extend_from_slice(&segment_command_64(b"__TEXT", 0, 0x1000));
    let lib = SharedLibrary::new(MachHeader::Header64(1), commands, 0, b"lib".to_vec());
    assert!(lib.id().is_none());
}

#[test]
fn zero_cmdsize_stops_the_walk() {
    let mut commands = Vec::new();
    commands.extend_from_slice(&segment_command_64(b"__TEXT", 0, 0x1000));
    // A corrupt command whose size field is zero would loop forever if it
    // were trusted.
    commands.extend_from_slice(&1u32.to_le_bytes());
    commands.extend_from_slice(&0u32.to_le_bytes());
    commands.extend_from_slice(&[0u8; 48]);
    let lib = SharedLibrary::new(MachHeader::Header64(3), commands, 0, b"lib".to_vec());
    assert_eq!(lib.segments().len(), 1);
}

#[test]
fn oversized_cmdsize_stops_the_walk() {
    let mut commands = Vec::new();
    commands.extend_from_slice(&segment_command_64(b"__TEXT", 0, 0x1000));
    commands.extend_from_slice(&1u32.to_le_bytes());
    commands.extend_from_slice(&0xffffu32.to_le_bytes());
    commands.extend_from_slice(&[0u8; 48]);
    let lib = SharedLibrary::new(MachHeader::Header64(2), commands, 0, b"lib".to_vec());
    assert_eq!(lib.segments().len(), 1);
    assert!(lib.id().is_none());
}

#[test]
fn command_count_bounds_the_walk() {
    let mut commands = Vec::new();
    commands.extend_from_slice(&segment_command_64(b"__TEXT", 0, 0x1000));
    commands.extend_from_slice(&uuid_command(&UUID));
    // The header admits only the first command, so the UUID is never seen.
    let lib = SharedLibrary::new(MachHeader::Header64(1), commands, 0, b"lib".to_vec());
    assert_eq!(lib.segments().len(), 1);
    assert!(lib.id().is_none());
}

#[test]
fn both_segment_widths_are_recognized() {
    let mut commands = Vec::new();
    commands.extend_from_slice(&segment_command_32(b"__TEXT", 0x100, 0x200));
    commands.extend_from_slice(&segment_command_64(b"__DATA", 0x4000, 0x300));
    let lib = SharedLibrary::new(MachHeader::Header32(2), commands, 0x10, b"lib".to_vec());
    let segments = lib.segments();
    assert_eq!(segments.len(), 2);
    assert!(matches!(segments[0], Segment::Segment32(_)));
    assert!(matches!(segments[1], Segment::Segment64(_)));
    assert_eq!(segments[0].stated_virtual_memory_address(), Svma(0x100));
    assert_eq!(segments[0].len(), 0x200);
    assert_eq!(segments[1].name(), b"__DATA".to_vec());
}

#[test]
fn segment_name_without_nul_uses_all_sixteen_bytes() {
    let segment = Segment::Segment64(SegmentCommand64 {
        segname: b"0123456789abcdef".to_vec(),
        vmaddr: 0,
        vmsize: 0,
    });
    assert_eq!(segment.name(), b"0123456789abcdef".to_vec());
}

#[test]
fn load_addresses_follow_the_text_segment() {
    let lib = sample_library();
    assert_eq!(lib.stated_load_addr(), Svma(0x1000));
    assert_eq!(lib.actual_load_addr(), Avma(0x6000));
    assert_eq!(lib.avma_to_svma(lib.actual_load_addr()), lib.stated_load_addr());
    assert_eq!(lib.len(), 0x2000);
}

#[test]
fn macho_containment_is_half_open() {
    let lib = sample_library();
    let segments = lib.segments();
    let text = &segments[1];
    assert!(text.contains_svma(Svma(0x1000)));
    assert!(!text.contains_svma(Svma(0x3000)));
    assert!(text.contains_avma(&lib, Avma(0x6000)));
    assert!(text.contains_avma(&lib, Avma(0x7fff)));
    assert!(!text.contains_avma(&lib, Avma(0x8000)));
}
