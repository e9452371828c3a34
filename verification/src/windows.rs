//! The PE (Windows) implementation: DOS and NT header validation, section
//! headers, and the debug directory's CodeView record.
//!
//! The host's module-listing facility hands out, per module, its name, its
//! base address, and the module's mapped bytes as captured at enumeration
//! time. Nothing in those bytes is trusted until validated: the DOS
//! signature, then the NT signature, and only then the section count and the
//! debug directory; on any validation failure the module yields an empty
//! segment sequence and no identity rather than failing.

use vstd::prelude::*;

use crate::Avma;
use crate::Bias;
use crate::IterationControl;
use crate::SharedLibraryId;
use crate::Svma;
use crate::biased_address;
use crate::unbiased_address;
use crate::linux::u32_le_at;

verus! {

/// The DOS header magic, `MZ`.
pub const IMAGE_DOS_SIGNATURE: u16 = 0x5a4d;

/// The NT headers magic, `PE\0\0`.
pub const IMAGE_NT_SIGNATURE: u32 = 0x4550;

/// The optional-header magic of a 32-bit image.
pub const IMAGE_NT_OPTIONAL_HDR32_MAGIC: u16 = 0x10b;

/// The optional-header magic of a 64-bit image.
pub const IMAGE_NT_OPTIONAL_HDR64_MAGIC: u16 = 0x20b;

/// The index of the debug directory among the data directories.
pub const IMAGE_DIRECTORY_ENTRY_DEBUG: u32 = 6;

/// The debug directory entry type of a CodeView record.
pub const IMAGE_DEBUG_TYPE_CODEVIEW: u32 = 2;

/// The section characteristic marking executable code.
pub const IMAGE_SCN_CNT_CODE: u32 = 0x20;

/// The CodeView record signature, `RSDS`.
pub const CV_SIGNATURE: u32 = 0x5344_5352;

/// The byte size of one section header.
pub const SECTION_HEADER_SIZE: u32 = 40;

/// The byte size of one debug directory entry.
pub const DEBUG_DIRECTORY_SIZE: u32 = 28;

/// The little-endian 16-bit value at `offset`.
pub open spec fn u16_le_at(data: Seq<u8>, offset: int) -> u16
    recommends
        0 <= offset,
        offset + 2 <= data.len(),
{
    vstd::bytes::spec_u16_from_le_bytes(data.subrange(offset, offset + 2))
}

/// The offset of the NT headers: the DOS header's `e_lfanew` field, trusted
/// only once the DOS magic has been checked and the NT signature found at
/// the offset it names.
pub open spec fn nt_headers_offset(data: Seq<u8>) -> Option<int> {
    if data.len() < 64 || u16_le_at(data, 0) != IMAGE_DOS_SIGNATURE {
        None
    } else {
        let lfanew = u32_le_at(data, 60) as int;
        if lfanew + 24 > data.len() || u32_le_at(data, lfanew) != IMAGE_NT_SIGNATURE {
            None
        } else {
            Some(lfanew)
        }
    }
}

/// The section headers of a validated image: a fixed-size array right after
/// the optional header, its length the file header's section count — a count
/// trusted only after both signature checks pass. A header that runs past
/// the captured bytes ends the walk.
pub open spec fn sections_from(data: Seq<u8>, offset: int, n: nat) -> Seq<(Seq<u8>, int, int, int)>
    decreases n,
{
    if n == 0 || offset < 0 || offset + SECTION_HEADER_SIZE > data.len() {
        Seq::empty()
    } else {
        seq![
            (
                data.subrange(offset, offset + 8),
                u32_le_at(data, offset + 8) as int,
                u32_le_at(data, offset + 12) as int,
                u32_le_at(data, offset + 36) as int,
            ),
        ] + sections_from(data, offset + SECTION_HEADER_SIZE, (n - 1) as nat)
    }
}

/// The section headers of the image: name field, virtual size, virtual
/// address, and characteristics of each, in table order; empty when either
/// signature check fails.
pub open spec fn pe_sections(data: Seq<u8>) -> Seq<(Seq<u8>, int, int, int)> {
    match nt_headers_offset(data) {
        None => Seq::empty(),
        Some(nt) => {
            let n_sections = u16_le_at(data, nt + 6) as nat;
            let opt_size = u16_le_at(data, nt + 20) as int;
            sections_from(data, nt + 24 + opt_size, n_sections)
        },
    }
}

/// The module's own identity: the NT headers' timestamp and image size,
/// available once the headers validate and reach far enough to hold both
/// fields.
pub open spec fn pe_signature_of(data: Seq<u8>) -> Option<(u32, u32)> {
    match nt_headers_offset(data) {
        None => None,
        Some(nt) => {
            if nt + 84 > data.len() {
                None
            } else {
                Some((u32_le_at(data, nt + 8), u32_le_at(data, nt + 80)))
            }
        },
    }
}

/// Where the debug directory lies: the sixth data directory entry's address
/// and size, reachable only when the optional header's magic is known, its
/// directory count covers entry six, and the entry is in use.
pub open spec fn debug_directory_range(data: Seq<u8>) -> Option<(int, int)> {
    match nt_headers_offset(data) {
        None => None,
        Some(nt) => {
            let opt = nt + 24;
            if opt + 2 > data.len() {
                None
            } else {
                let magic = u16_le_at(data, opt);
                let dirs_count_at = if magic == IMAGE_NT_OPTIONAL_HDR32_MAGIC {
                    opt + 92
                } else if magic == IMAGE_NT_OPTIONAL_HDR64_MAGIC {
                    opt + 108
                } else {
                    -1
                };
                if dirs_count_at < 0 || dirs_count_at + 4 + 56 > data.len() {
                    None
                } else if u32_le_at(data, dirs_count_at) <= IMAGE_DIRECTORY_ENTRY_DEBUG {
                    None
                } else {
                    let entry = dirs_count_at + 4 + 8 * IMAGE_DIRECTORY_ENTRY_DEBUG;
                    let va = u32_le_at(data, entry) as int;
                    let size = u32_le_at(data, entry + 4) as int;
                    if va == 0 || size % (DEBUG_DIRECTORY_SIZE as int) != 0 {
                        None
                    } else {
                        Some((va, size / (DEBUG_DIRECTORY_SIZE as int)))
                    }
                }
            }
        },
    }
}

/// The debug directory entries from `offset` on: type, payload size, and
/// payload address of each. An entry that runs past the captured bytes ends
/// the walk.
pub open spec fn debug_dirs_from(data: Seq<u8>, offset: int, n: nat) -> Seq<(int, int, int)>
    decreases n,
{
    if n == 0 || offset < 0 || offset + DEBUG_DIRECTORY_SIZE > data.len() {
        Seq::empty()
    } else {
        seq![
            (
                u32_le_at(data, offset + 12) as int,
                u32_le_at(data, offset + 16) as int,
                u32_le_at(data, offset + 20) as int,
            ),
        ] + debug_dirs_from(data, offset + DEBUG_DIRECTORY_SIZE, (n - 1) as nat)
    }
}

/// The module's debug directory entries, empty when the headers do not
/// validate or the directory is absent.
pub open spec fn pe_debug_directories(data: Seq<u8>) -> Seq<(int, int, int)> {
    match debug_directory_range(data) {
        None => Seq::empty(),
        Some(range) => debug_dirs_from(data, range.0, range.1 as nat),
    }
}

/// The CodeView record named by the entries from position `i` on: the
/// 16-byte PDB GUID, the PDB age, and the offset of the PDB name, from the
/// first CodeView-typed entry whose payload carries the record signature;
/// entries whose payload is unreadable or unsigned are passed over.
pub open spec fn codeview_in_dirs(data: Seq<u8>, dirs: Seq<(int, int, int)>, i: int) -> Option<
    (Seq<u8>, int, int),
>
    decreases dirs.len() - i,
    when 0 <= i <= dirs.len()
{
    if i >= dirs.len() {
        None
    } else {
        let entry = dirs[i];
        if entry.0 == IMAGE_DEBUG_TYPE_CODEVIEW && entry.2 >= 0 && entry.2 + 24 <= data.len()
            && u32_le_at(data, entry.2) == CV_SIGNATURE {
            Some((data.subrange(entry.2 + 4, entry.2 + 20), u32_le_at(data, entry.2 + 20) as int, entry.2 + 24))
        } else {
            codeview_in_dirs(data, dirs, i + 1)
        }
    }
}

/// The module's CodeView record, if its debug directory names a valid one.
pub open spec fn pe_codeview(data: Seq<u8>) -> Option<(Seq<u8>, int, int)> {
    codeview_in_dirs(data, pe_debug_directories(data), 0)
}

/// One parsed section header.
#[derive(Debug)]
pub struct SectionHeader {
    /// The raw, NUL-padded 8-byte section name field.
    pub name: Vec<u8>,
    /// The section's size in memory, in bytes.
    pub virtual_size: u32,
    /// The section's stated virtual address, relative to the module base.
    pub virtual_address: u32,
    /// The section's characteristics flags.
    pub characteristics: u32,
}

/// A mapped segment of a PE module: a view of one section header.
#[derive(Debug)]
pub struct Segment {
    /// The section header this segment reads.
    pub section: SectionHeader,
}

/// The mathematical contents of a segment: its raw name field, its virtual
/// size, its virtual address, and its characteristics.
pub open spec fn segment_view(s: Segment) -> (Seq<u8>, int, int, int) {
    (
        s.section.name@,
        s.section.virtual_size as int,
        s.section.virtual_address as int,
        s.section.characteristics as int,
    )
}

/// The mathematical contents of a parsed segment list.
pub open spec fn segment_views(segs: Seq<Segment>) -> Seq<(Seq<u8>, int, int, int)> {
    segs.map_values(|s: Segment| segment_view(s))
}

/// A section name with its trailing NUL padding removed.
pub open spec fn trim_nul(bytes: Seq<u8>) -> Seq<u8>
    decreases bytes.len(),
{
    if bytes.len() > 0 && bytes[bytes.len() - 1] == 0 {
        trim_nul(bytes.drop_last())
    } else {
        bytes
    }
}

impl Segment {
    /// This segment's name: its raw name field with the trailing NUL
    /// padding removed.
    pub fn name(&self) -> (r: Vec<u8>)
        ensures
            r@ == trim_nul(self.section.name@),
    {
        let raw = &self.section.name;
        let mut end: usize = raw.len();
        proof {
            assert(raw@.subrange(0, raw@.len() as int) =~= raw@);
        }
        while end > 0 && *vstd::slice::slice_index_get(raw.as_slice(), end - 1) == 0
            invariant
                end <= raw@.len(),
                raw@ == self.section.name@,
                trim_nul(raw@) == trim_nul(raw@.subrange(0, end as int)),
            decreases end,
        {
            proof {
                assert(raw@.subrange(0, end as int).drop_last() =~= raw@.subrange(0, end - 1));
            }
            end = end - 1;
        }
        proof {
            assert(trim_nul(raw@.subrange(0, end as int)) =~= raw@.subrange(0, end as int));
        }
        vstd::slice::slice_to_vec(vstd::slice::slice_subrange(raw.as_slice(), 0, end))
    }

    /// Whether this is a code segment: the section's code characteristic is
    /// set.
    pub fn is_code(&self) -> (r: bool)
        ensures
            r == (self.section.characteristics & IMAGE_SCN_CNT_CODE != 0),
    {
        self.section.characteristics & IMAGE_SCN_CNT_CODE != 0
    }

    /// Whether this segment occupies virtual memory at runtime; the code
    /// sections are the ones known to.
    pub fn is_load(&self) -> (r: bool)
        ensures
            r == (self.section.characteristics & IMAGE_SCN_CNT_CODE != 0),
    {
        self.is_code()
    }

    /// This segment's stated virtual memory address.
    pub fn stated_virtual_memory_address(&self) -> (r: Svma)
        ensures
            r.0 == self.section.virtual_address,
    {
        Svma(self.section.virtual_address as usize)
    }

    /// The length of this segment in memory, in bytes.
    pub fn len(&self) -> (r: usize)
        ensures
            r == self.section.virtual_size,
    {
        self.section.virtual_size as usize
    }

    /// This segment's actual virtual memory address: the stated address with
    /// the owning module's base applied, wrapping at the pointer width.
    pub fn actual_virtual_memory_address(&self, shlib: &SharedLibrary) -> (r: Avma)
        ensures
            r.0 == biased_address(self.section.virtual_address as int, shlib.base as int),
    {
        self.stated_virtual_memory_address().with_bias(shlib.virtual_memory_bias())
    }

    /// Whether the half-open stated address range contains the given
    /// address.
    pub fn contains_svma(&self, address: Svma) -> (r: bool)
        ensures
            r == (self.section.virtual_address <= address.0 < self.section.virtual_address
                + self.section.virtual_size),
    {
        let start = self.stated_virtual_memory_address().0;
        let len = self.len();
        address.0 >= start && address.0 - start < len
    }

    /// Whether the half-open actual address range contains the given
    /// address.
    pub fn contains_avma(&self, shlib: &SharedLibrary, address: Avma) -> (r: bool)
        ensures
            r == (biased_address(self.section.virtual_address as int, shlib.base as int)
                <= address.0 < biased_address(self.section.virtual_address as int, shlib.base as int)
                + self.section.virtual_size),
    {
        let start = self.actual_virtual_memory_address(shlib).0;
        let len = self.len();
        address.0 >= start && address.0 - start < len
    }
}

/// A module mapped into the process, as the host's module listing reports
/// it: its name, its base address, and its mapped bytes as captured at
/// enumeration time.
#[derive(Debug)]
pub struct SharedLibrary {
    /// The module's name, in platform bytes.
    pub module_name: Vec<u8>,
    /// The module's base address; PE addresses are relative to it, so it is
    /// also the module's bias.
    pub base: usize,
    /// The module's mapped bytes, starting at the base address.
    pub image: Vec<u8>,
}

impl SharedLibrary {
    /// Assemble a module record from what the host's module listing reports.
    pub fn new(module_name: Vec<u8>, base: usize, image: Vec<u8>) -> (r: Self)
        ensures
            r.module_name == module_name,
            r.base == base,
            r.image == image,
    {
        SharedLibrary { module_name, base, image }
    }

    /// The module's name, in platform bytes.
    pub fn name(&self) -> (r: &[u8])
        ensures
            r@ == self.module_name@,
    {
        self.module_name.as_slice()
    }

    /// The bias of this module: its base address.
    pub fn virtual_memory_bias(&self) -> (r: Bias)
        ensures
            r.0 == self.base,
    {
        Bias(self.base)
    }

    /// Translate an actual address within this module back to a stated one
    /// by removing the module's base.
    pub fn avma_to_svma(&self, address: Avma) -> (r: Svma)
        ensures
            r.0 == unbiased_address(address.0 as int, self.base as int),
    {
        address.without_bias(self.virtual_memory_bias())
    }

    /// The DOS header's `e_lfanew` field — where the NT headers should lie —
    /// when the DOS magic checks out.
    pub fn dos_header(&self) -> (r: Option<u32>)
        ensures
            match r {
                Some(lfanew) => self.image@.len() >= 64 && u16_le_at(self.image@, 0)
                    == IMAGE_DOS_SIGNATURE && lfanew == u32_le_at(self.image@, 60),
                None => self.image@.len() < 64 || u16_le_at(self.image@, 0)
                    != IMAGE_DOS_SIGNATURE,
            },
    {
        let data = self.image.as_slice();
        if data.len() < 64 {
            return None;
        }
        let e_magic = vstd::bytes::u16_from_le_bytes(vstd::slice::slice_subrange(data, 0, 2));
        if e_magic != IMAGE_DOS_SIGNATURE {
            return None;
        }
        Some(vstd::bytes::u32_from_le_bytes(vstd::slice::slice_subrange(data, 60, 64)))
    }

    /// The offset of the NT headers, when the DOS magic and the NT signature
    /// both check out.
    pub fn nt_headers(&self) -> (r: Option<usize>)
        ensures
            match r {
                Some(nt) => nt_headers_offset(self.image@) == Some(nt as int),
                None => nt_headers_offset(self.image@) is None,
            },
    {
        let data = self.image.as_slice();
        let lfanew = match self.dos_header() {
            Some(lfanew) => lfanew,
            None => {
                return None;
            },
        };
        if lfanew as usize > data.len() || data.len() - (lfanew as usize) < 24 {
            return None;
        }
        let signature = vstd::bytes::u32_from_le_bytes(
            vstd::slice::slice_subrange(data, lfanew as usize, lfanew as usize + 4),
        );
        if signature != IMAGE_NT_SIGNATURE {
            return None;
        }
        Some(lfanew as usize)
    }

    /// The module's segments: one per section header, in table order; empty
    /// when the headers do not validate.
    pub fn segments(&self) -> (r: Vec<Segment>)
        ensures
            segment_views(r@) == pe_sections(self.image@),
    {
        let ghost all = pe_sections(self.image@);
        let data = self.image.as_slice();
        let mut out: Vec<Segment> = Vec::new();
        let nt = match self.nt_headers() {
            Some(nt) => nt,
            None => {
                proof {
                    assert(segment_views(out@) =~= all);
                }
                return out;
            },
        };
        proof {
            vstd::slice::axiom_spec_len(data);
            assert(nt + 24 <= data@.len());
            assert(data@.len() <= usize::MAX);
        }
        let n_sections = vstd::bytes::u16_from_le_bytes(
            vstd::slice::slice_subrange(data, nt + 6, nt + 8),
        );
        let opt_size = vstd::bytes::u16_from_le_bytes(
            vstd::slice::slice_subrange(data, nt + 20, nt + 22),
        );
        let mut offset: usize = match (nt + 24).checked_add(opt_size as usize) {
            Some(o) => o,
            None => {
                proof {
                    assert(sections_from(data@, nt + 24 + opt_size as int, n_sections as nat)
                        =~= Seq::empty());
                    assert(segment_views(out@) =~= all);
                }
                return out;
            },
        };
        let mut remaining = n_sections;
        proof {
            assert(segment_views(out@) =~= Seq::empty());
        }
        loop
            invariant_except_break
                data@ == self.image@,
                segment_views(out@) + sections_from(data@, offset as int, remaining as nat)
                    == all,
            ensures
                segment_views(out@) == all,
            decreases remaining,
        {
            if remaining == 0 || offset > data.len() || data.len() - offset < 40 {
                proof {
                    assert(sections_from(data@, offset as int, remaining as nat)
                        =~= Seq::empty());
                    assert(segment_views(out@) =~= all);
                }
                break;
            }
            let name = vstd::slice::slice_to_vec(
                vstd::slice::slice_subrange(data, offset, offset + 8),
            );
            let virtual_size = vstd::bytes::u32_from_le_bytes(
                vstd::slice::slice_subrange(data, offset + 8, offset + 12),
            );
            let virtual_address = vstd::bytes::u32_from_le_bytes(
                vstd::slice::slice_subrange(data, offset + 12, offset + 16),
            );
            let characteristics = vstd::bytes::u32_from_le_bytes(
                vstd::slice::slice_subrange(data, offset + 36, offset + 40),
            );
            out.push(
                Segment {
                    section: SectionHeader { name, virtual_size, virtual_address, characteristics },
                },
            );
            proof {
                assert(segment_views(out@) =~= segment_views(out@.drop_last()) + seq![
                    segment_view(out@.last()),
                ]);
                assert(segment_views(out@) + sections_from(
                    data@,
                    offset + SECTION_HEADER_SIZE as int,
                    (remaining - 1) as nat,
                ) =~= all);
            }
            offset = offset + 40;
            remaining = remaining - 1;
        }
        out
    }

    /// The module's own identity: its NT timestamp and image size.
    pub fn id(&self) -> (r: Option<SharedLibraryId>)
        ensures
            match r {
                Some(id) => {
                    &&& pe_signature_of(self.image@) is Some
                    &&& id matches SharedLibraryId::PeSignature(t, s) && Some((t, s))
                        == pe_signature_of(self.image@)
                },
                None => pe_signature_of(self.image@) is None,
            },
    {
        let data = self.image.as_slice();
        let nt = match self.nt_headers() {
            Some(nt) => nt,
            None => {
                return None;
            },
        };
        if data.len() - nt < 84 {
            return None;
        }
        let timestamp = vstd::bytes::u32_from_le_bytes(
            vstd::slice::slice_subrange(data, nt + 8, nt + 12),
        );
        let size_of_image = vstd::bytes::u32_from_le_bytes(
            vstd::slice::slice_subrange(data, nt + 80, nt + 84),
        );
        Some(SharedLibraryId::PeSignature(timestamp, size_of_image))
    }

    /// The module's debug directory entries, in table order; empty when the
    /// headers do not validate or the directory is absent or ill-sized.
    pub fn debug_directories(&self) -> (r: Vec<DebugDirectory>)
        ensures
            debug_dir_views(r@) == pe_debug_directories(self.image@),
    {
        let ghost all = pe_debug_directories(self.image@);
        let data = self.image.as_slice();
        let mut out: Vec<DebugDirectory> = Vec::new();
        proof {
            assert(debug_dir_views(out@) =~= Seq::empty());
        }
        let nt = match self.nt_headers() {
            Some(nt) => nt,
            None => {
                proof {
                    assert(debug_dir_views(out@) =~= all);
                }
                return out;
            },
        };
        proof {
            vstd::slice::axiom_spec_len(data);
            assert(nt + 24 <= data@.len());
            assert(data@.len() <= usize::MAX);
        }
        if data.len() - nt - 24 < 2 {
            proof {
                assert(debug_dir_views(out@) =~= all);
            }
            return out;
        }
        let magic = vstd::bytes::u16_from_le_bytes(
            vstd::slice::slice_subrange(data, nt + 24, nt + 26),
        );
        let count_delta: usize = if magic == IMAGE_NT_OPTIONAL_HDR32_MAGIC {
            92
        } else if magic == IMAGE_NT_OPTIONAL_HDR64_MAGIC {
            108
        } else {
            proof {
                assert(debug_dir_views(out@) =~= all);
            }
            return out;
        };
        let dirs_count_at = match (nt + 24).checked_add(count_delta) {
            Some(v) => v,
            None => {
                proof {
                    assert(debug_dir_views(out@) =~= all);
                }
                return out;
            },
        };
        if data.len() < 60 || dirs_count_at > data.len() - 60 {
            proof {
                assert(debug_dir_views(out@) =~= all);
            }
            return out;
        }
        let n_dirs = vstd::bytes::u32_from_le_bytes(
            vstd::slice::slice_subrange(data, dirs_count_at, dirs_count_at + 4),
        );
        if n_dirs <= IMAGE_DIRECTORY_ENTRY_DEBUG {
            proof {
                assert(debug_dir_views(out@) =~= all);
            }
            return out;
        }
        let entry = dirs_count_at + 4 + 48;
        let va = vstd::bytes::u32_from_le_bytes(
            vstd::slice::slice_subrange(data, entry, entry + 4),
        );
        let size = vstd::bytes::u32_from_le_bytes(
            vstd::slice::slice_subrange(data, entry + 4, entry + 8),
        );
        if va == 0 || size % DEBUG_DIRECTORY_SIZE != 0 {
            proof {
                assert(debug_dir_views(out@) =~= all);
            }
            return out;
        }
        let mut offset: usize = va as usize;
        let mut remaining: u32 = size / DEBUG_DIRECTORY_SIZE;
        proof {
            assert(all == debug_dirs_from(data@, offset as int, remaining as nat));
        }
        loop
            invariant_except_break
                data@ == self.image@,
                debug_dir_views(out@) + debug_dirs_from(data@, offset as int, remaining as nat)
                    == all,
            ensures
                debug_dir_views(out@) == all,
            decreases remaining,
        {
            if remaining == 0 || offset > data.len() || data.len() - offset < 28 {
                proof {
                    assert(debug_dirs_from(data@, offset as int, remaining as nat)
                        =~= Seq::empty());
                    assert(debug_dir_views(out@) =~= all);
                }
                break;
            }
            let dd_type = vstd::bytes::u32_from_le_bytes(
                vstd::slice::slice_subrange(data, offset + 12, offset + 16),
            );
            let data_size = vstd::bytes::u32_from_le_bytes(
                vstd::slice::slice_subrange(data, offset + 16, offset + 20),
            );
            let address_of_raw_data = vstd::bytes::u32_from_le_bytes(
                vstd::slice::slice_subrange(data, offset + 20, offset + 24),
            );
            out.push(DebugDirectory { dd_type, data_size, address_of_raw_data });
            proof {
                assert(debug_dir_views(out@) =~= debug_dir_views(out@.drop_last()) + seq![
                    debug_dir_view(out@.last()),
                ]);
                assert(debug_dir_views(out@) + debug_dirs_from(
                    data@,
                    offset + DEBUG_DIRECTORY_SIZE as int,
                    (remaining - 1) as nat,
                ) =~= all);
            }
            offset = offset + 28;
            remaining = remaining - 1;
        }
        out
    }

    /// The module's CodeView record, if its debug directory names a valid
    /// one: the PDB GUID, the PDB age, and the PDB file name.
    pub fn codeview_record70(&self) -> (r: Option<CodeViewRecord70>)
        ensures
            match r {
                Some(record) => {
                    &&& pe_codeview(self.image@) is Some
                    &&& record.pdb_signature@ == pe_codeview(self.image@)->Some_0.0
                    &&& record.pdb_age as int == pe_codeview(self.image@)->Some_0.1
                    &&& record.pdb_filename@ == pdb_name_at(
                        self.image@,
                        pe_codeview(self.image@)->Some_0.2,
                    )
                },
                None => pe_codeview(self.image@) is None,
            },
    {
        let data = self.image.as_slice();
        let dirs = self.debug_directories();
        let ghost dviews = pe_debug_directories(self.image@);
        let mut j: usize = 0;
        while j < dirs.len()
            invariant
                j <= dirs@.len(),
                data@ == self.image@,
                dviews == pe_debug_directories(self.image@),
                debug_dir_views(dirs@) == dviews,
                dirs@.len() == dviews.len(),
                codeview_in_dirs(data@, dviews, 0) == codeview_in_dirs(data@, dviews, j as int),
            decreases dirs@.len() - j,
        {
            proof {
                assert(dviews[j as int] == debug_dir_view(dirs@[j as int]));
            }
            let entry = &dirs[j];
            if entry.dd_type == IMAGE_DEBUG_TYPE_CODEVIEW {
                let addr = entry.address_of_raw_data as usize;
                if addr <= data.len() && data.len() - addr >= 24 {
                    let signature = vstd::bytes::u32_from_le_bytes(
                        vstd::slice::slice_subrange(data, addr, addr + 4),
                    );
                    if signature == CV_SIGNATURE {
                        let raw = vstd::slice::slice_subrange(data, addr + 4, addr + 20);
                        let mut pdb_signature: [u8; 16] = [0u8; 16];
                        let mut k: usize = 0;
                        while k < 16
                            invariant
                                k <= 16,
                                raw@.len() == 16,
                                forall|m: int| 0 <= m < k ==> pdb_signature@[m] == raw@[m],
                            decreases 16 - k,
                        {
                            let b = *vstd::slice::slice_index_get(raw, k);
                            pdb_signature[k] = b;
                            k = k + 1;
                        }
                        proof {
                            assert(pdb_signature@ =~= raw@);
                        }
                        let pdb_age = vstd::bytes::u32_from_le_bytes(
                            vstd::slice::slice_subrange(data, addr + 20, addr + 24),
                        );
                        let pdb_filename = read_cstr_from(data, addr + 24);
                        proof {
                            assert(codeview_in_dirs(data@, dviews, j as int) == Some(
                                (
                                    data@.subrange(addr + 4, addr + 20),
                                    u32_le_at(data@, addr + 20) as int,
                                    addr + 24 as int,
                                ),
                            ));
                        }
                        return Some(CodeViewRecord70 { pdb_signature, pdb_age, pdb_filename });
                    }
                }
            }
            j = j + 1;
        }
        None
    }

    /// The name of the module's debug file: the PDB file name its CodeView
    /// record carries, if any.
    pub fn debug_name(&self) -> (r: Option<Vec<u8>>)
        ensures
            match r {
                Some(name) => {
                    &&& pe_codeview(self.image@) is Some
                    &&& name@ == pdb_name_at(self.image@, pe_codeview(self.image@)->Some_0.2)
                },
                None => pe_codeview(self.image@) is None,
            },
    {
        match self.codeview_record70() {
            Some(record) => Some(record.pdb_filename),
            None => None,
        }
    }

    /// The debug ID of this module: its PDB GUID and age, distinct from the
    /// module's own identity.
    pub fn debug_id(&self) -> (r: Option<SharedLibraryId>)
        ensures
            match r {
                Some(id) => {
                    &&& pe_codeview(self.image@) is Some
                    &&& id matches SharedLibraryId::PdbSignature(sig, age) && sig@ == pe_codeview(
                        self.image@,
                    )->Some_0.0 && age as int == pe_codeview(self.image@)->Some_0.1
                },
                None => pe_codeview(self.image@) is None,
            },
    {
        match self.codeview_record70() {
            Some(record) => Some(
                SharedLibraryId::PdbSignature(record.pdb_signature, record.pdb_age),
            ),
            None => None,
        }
    }

    /// Visit each of the given modules in order, handing each to the
    /// callback, until the callback returns `Break` or the modules run out;
    /// returns how many modules were visited. The unverified shell lists the
    /// process's modules, re-validates each base address, and captures one
    /// record per module that is still committed memory.
    pub fn each<F: Fn(&SharedLibrary) -> IterationControl>(
        libraries: &Vec<SharedLibrary>,
        f: &F,
    ) -> (visited: usize)
        requires
            forall|i: int|
                0 <= i < libraries@.len() ==> #[trigger] call_requires(*f, (&libraries@[i],)),
        ensures
            visited <= libraries@.len(),
            libraries@.len() > 0 ==> visited >= 1,
            forall|i: int|
                0 <= i < visited - 1 ==> call_ensures(
                    *f,
                    (&libraries@[i],),
                    IterationControl::Continue,
                ),
            visited < libraries@.len() ==> call_ensures(
                *f,
                (&libraries@[visited - 1],),
                IterationControl::Break,
            ),
            visited >= 1 ==> exists|c: IterationControl|
                #[trigger] call_ensures(*f, (&libraries@[visited - 1],), c),
    {
        crate::each_image(libraries, f)
    }
}

/// Whether a parsed section is a load segment: on this platform, the code
/// sections are the ones known to occupy memory.
pub open spec fn is_load_view(v: (Seq<u8>, int, int, int)) -> bool {
    v.3 as u32 & IMAGE_SCN_CNT_CODE != 0
}

/// The index of the first load section at or after position `i`.
pub open spec fn first_load_section_from(
    views: Seq<(Seq<u8>, int, int, int)>,
    i: int,
) -> Option<int>
    decreases views.len() - i,
    when 0 <= i <= views.len()
{
    if i >= views.len() {
        None
    } else if is_load_view(views[i]) {
        Some(i)
    } else {
        first_load_section_from(views, i + 1)
    }
}

/// The stated address of the module's first load section, or the top of the
/// address space when it has none.
pub open spec fn spec_stated_load_addr(views: Seq<(Seq<u8>, int, int, int)>) -> int {
    match first_load_section_from(views, 0) {
        Some(i) => views[i].2,
        None => usize::MAX as int,
    }
}

/// The biased address of the module's first load section, or the top of the
/// address space when it has none.
pub open spec fn spec_actual_load_addr(views: Seq<(Seq<u8>, int, int, int)>, bias: int) -> int {
    match first_load_section_from(views, 0) {
        Some(i) => biased_address(views[i].2, bias),
        None => usize::MAX as int,
    }
}

/// Whether every load section's biased end address fits the platform's
/// address width.
pub open spec fn load_ends_fit_usize(views: Seq<(Seq<u8>, int, int, int)>, bias: int) -> bool {
    forall|i: int|
        0 <= i < views.len() && is_load_view(#[trigger] views[i]) ==> biased_address(
            views[i].2,
            bias,
        ) + views[i].1 <= usize::MAX
}

/// The largest biased end address over the load sections at or after
/// position `i`.
pub open spec fn max_load_end_from(
    views: Seq<(Seq<u8>, int, int, int)>,
    bias: int,
    i: int,
) -> Option<int>
    decreases views.len() - i,
    when 0 <= i <= views.len()
{
    if i >= views.len() {
        None
    } else {
        let rest = max_load_end_from(views, bias, i + 1);
        if is_load_view(views[i]) {
            let end = biased_address(views[i].2, bias) + views[i].1;
            match rest {
                None => Some(end),
                Some(m) => Some(
                    if end > m {
                        end
                    } else {
                        m
                    },
                ),
            }
        } else {
            rest
        }
    }
}

/// The size of the module: from its actual load address to the largest end
/// address of any of its load sections; zero when it has no load section.
pub open spec fn spec_image_len(views: Seq<(Seq<u8>, int, int, int)>, bias: int) -> int {
    (match max_load_end_from(views, bias, 0) {
        Some(m) => m,
        None => usize::MAX as int,
    }) - spec_actual_load_addr(views, bias)
}

/// Whether every section view carries nonnegative address and size numbers,
/// as every view the walker parses does.
pub open spec fn views_nonneg(views: Seq<(Seq<u8>, int, int, int)>) -> bool {
    forall|j: int|
        0 <= j < views.len() ==> #[trigger] views[j].1 >= 0 && views[j].2 >= 0
}

/// Every view the section walker parses carries nonnegative numbers: they
/// come from unsigned fields.
proof fn lemma_sections_nonneg(data: Seq<u8>, offset: int, n: nat)
    ensures
        views_nonneg(sections_from(data, offset, n)),
    decreases n,
{
    if !(n == 0 || offset < 0 || offset + SECTION_HEADER_SIZE > data.len()) {
        lemma_sections_nonneg(data, offset + SECTION_HEADER_SIZE, (n - 1) as nat);
    }
}

/// When a module has a load section, the largest load end address is at
/// least the biased address of the first load section.
proof fn lemma_max_end_covers_first_load(
    views: Seq<(Seq<u8>, int, int, int)>,
    bias: int,
    i: int,
)
    requires
        0 <= i <= views.len(),
        views_nonneg(views),
        first_load_section_from(views, i) is Some,
    ensures
        max_load_end_from(views, bias, i) is Some,
        max_load_end_from(views, bias, i)->Some_0 >= biased_address(
            views[first_load_section_from(views, i)->Some_0].2,
            bias,
        ),
    decreases views.len() - i,
{
    if i < views.len() && !is_load_view(views[i]) {
        lemma_max_end_covers_first_load(views, bias, i + 1);
    } else if i < views.len() {
        if first_load_section_from(views, i + 1) is Some {
            lemma_max_end_covers_first_load(views, bias, i + 1);
        } else {
            lemma_no_load_no_end(views, bias, i + 1);
        }
    }
}

/// A module without load sections has no load end address.
proof fn lemma_no_load_no_end(views: Seq<(Seq<u8>, int, int, int)>, bias: int, i: int)
    requires
        0 <= i <= views.len(),
        first_load_section_from(views, i) is None,
    ensures
        max_load_end_from(views, bias, i) is None,
    decreases views.len() - i,
{
    if i < views.len() {
        lemma_no_load_no_end(views, bias, i + 1);
    }
}

/// The first load section an enumeration finds is a load section within the
/// list.
proof fn lemma_first_load_is_load(views: Seq<(Seq<u8>, int, int, int)>, i: int)
    requires
        0 <= i <= views.len(),
        first_load_section_from(views, i) is Some,
    ensures
        i <= first_load_section_from(views, i)->Some_0 < views.len(),
        is_load_view(views[first_load_section_from(views, i)->Some_0]),
    decreases views.len() - i,
{
    if i < views.len() && !is_load_view(views[i]) {
        lemma_first_load_is_load(views, i + 1);
    }
}

/// Bias identity: for a module with a load section, removing the module's
/// base from its actual load address gives back its stated load address —
/// the round trip across the bias is the identity.
pub proof fn lemma_load_addr_round_trip(views: Seq<(Seq<u8>, int, int, int)>, bias: int)
    requires
        0 <= bias <= usize::MAX,
        views_nonneg(views),
        forall|i: int|
            0 <= i < views.len() && is_load_view(#[trigger] views[i]) ==> views[i].2
                <= usize::MAX,
        first_load_section_from(views, 0) is Some,
    ensures
        unbiased_address(spec_actual_load_addr(views, bias), bias) == spec_stated_load_addr(
            views,
        ),
{
    let i = first_load_section_from(views, 0)->Some_0;
    lemma_first_load_is_load(views, 0);
    assert(views[i].1 >= 0 && views[i].2 >= 0);
    crate::lemma_bias_round_trip(views[i].2, bias);
}

impl SharedLibrary {
    /// The actual address at which the module is loaded: the biased address
    /// of its first load section, or the top of the address space when it
    /// has none.
    pub fn actual_load_addr(&self) -> (r: Avma)
        ensures
            r.0 == spec_actual_load_addr(pe_sections(self.image@), self.base as int),
    {
        let ghost views = pe_sections(self.image@);
        let segments = self.segments();
        let bias = self.virtual_memory_bias();
        let mut i: usize = 0;
        while i < segments.len()
            invariant
                i <= segments@.len(),
                bias.0 == self.base,
                views == pe_sections(self.image@),
                segment_views(segments@) == views,
                segments@.len() == views.len(),
                first_load_section_from(views, 0) == first_load_section_from(views, i as int),
            decreases segments@.len() - i,
        {
            proof {
                assert(views[i as int] == segment_view(segments@[i as int]));
            }
            if segments[i].is_code() {
                proof {
                    assert(first_load_section_from(views, i as int) == Some(i as int));
                }
                return segments[i].stated_virtual_memory_address().with_bias(bias);
            }
            i = i + 1;
        }
        Avma(usize::MAX)
    }

    /// The stated address at which the module prefers to be loaded: the
    /// stated address of its first load section, or the top of the address
    /// space when it has none.
    pub fn stated_load_addr(&self) -> (r: Svma)
        ensures
            r.0 == spec_stated_load_addr(pe_sections(self.image@)),
    {
        let ghost views = pe_sections(self.image@);
        let segments = self.segments();
        let mut i: usize = 0;
        while i < segments.len()
            invariant
                i <= segments@.len(),
                views == pe_sections(self.image@),
                segment_views(segments@) == views,
                segments@.len() == views.len(),
                first_load_section_from(views, 0) == first_load_section_from(views, i as int),
            decreases segments@.len() - i,
        {
            proof {
                assert(views[i as int] == segment_view(segments@[i as int]));
            }
            if segments[i].is_code() {
                proof {
                    assert(first_load_section_from(views, i as int) == Some(i as int));
                }
                return segments[i].stated_virtual_memory_address();
            }
            i = i + 1;
        }
        Svma(usize::MAX)
    }

    /// The size of the module: the span from its actual load address to the
    /// largest end address of any of its load sections.
    pub fn len(&self) -> (r: usize)
        requires
            load_ends_fit_usize(pe_sections(self.image@), self.base as int),
        ensures
            r == spec_image_len(pe_sections(self.image@), self.base as int),
    {
        let ghost views = pe_sections(self.image@);
        let ghost bias = self.base as int;
        let segments = self.segments();
        let mut end_address: usize = usize::MAX;
        let mut have_end: bool = false;
        let mut i: usize = segments.len();
        while i > 0
            invariant
                i <= segments@.len(),
                views == pe_sections(self.image@),
                segment_views(segments@) == views,
                segments@.len() == views.len(),
                self.base as int == bias,
                load_ends_fit_usize(views, bias),
                match max_load_end_from(views, bias, i as int) {
                    Some(m) => have_end && end_address == m,
                    None => !have_end && end_address == usize::MAX,
                },
            decreases i,
        {
            i = i - 1;
            proof {
                assert(views[i as int] == segment_view(segments@[i as int]));
            }
            if segments[i].is_code() {
                let end = segments[i].stated_virtual_memory_address().with_bias(
                    self.virtual_memory_bias(),
                ).0 + segments[i].len();
                if !have_end || end > end_address {
                    end_address = end;
                    have_end = true;
                } else {
                    proof {
                        assert(max_load_end_from(views, bias, i as int) == Some(
                            end_address as int,
                        ));
                    }
                }
            }
        }
        proof {
            if first_load_section_from(views, 0) is Some {
                match nt_headers_offset(self.image@) {
                    Some(nt) => {
                        lemma_sections_nonneg(
                            self.image@,
                            nt + 24 + u16_le_at(self.image@, nt + 20) as int,
                            u16_le_at(self.image@, nt + 6) as nat,
                        );
                    },
                    None => {},
                }
                lemma_max_end_covers_first_load(views, bias, 0);
            } else {
                lemma_no_load_no_end(views, bias, 0);
            }
        }
        end_address - self.actual_load_addr().0
    }
}

/// One debug directory entry, as much of it as the walker reads.
#[derive(Debug)]
pub struct DebugDirectory {
    /// The entry's type.
    pub dd_type: u32,
    /// The payload's size in bytes.
    pub data_size: u32,
    /// The payload's address, relative to the module base.
    pub address_of_raw_data: u32,
}

/// The mathematical contents of a debug directory entry.
pub open spec fn debug_dir_view(d: DebugDirectory) -> (int, int, int) {
    (d.dd_type as int, d.data_size as int, d.address_of_raw_data as int)
}

/// The mathematical contents of a parsed debug directory list.
pub open spec fn debug_dir_views(dirs: Seq<DebugDirectory>) -> Seq<(int, int, int)> {
    dirs.map_values(|d: DebugDirectory| debug_dir_view(d))
}

/// A CodeView record: the module's debug identity and debug file name.
#[derive(Debug)]
pub struct CodeViewRecord70 {
    /// The PDB GUID.
    pub pdb_signature: [u8; 16],
    /// The PDB age.
    pub pdb_age: u32,
    /// The PDB file name: the record's trailing NUL-terminated string.
    pub pdb_filename: Vec<u8>,
}

/// The NUL-terminated name starting at `offset`: the bytes up to the first
/// NUL, or to the end of the captured bytes when no NUL follows.
pub open spec fn pdb_name_at(data: Seq<u8>, offset: int) -> Seq<u8>
    recommends
        0 <= offset <= data.len(),
{
    data.subrange(offset, crate::macos::nul_index_from(data, offset))
}

/// Read the NUL-terminated byte string starting at `offset`.
fn read_cstr_from(data: &[u8], offset: usize) -> (r: Vec<u8>)
    requires
        offset <= data@.len(),
    ensures
        r@ == pdb_name_at(data@, offset as int),
{
    let mut i: usize = offset;
    while i < data.len()
        invariant
            offset <= i <= data@.len(),
            crate::macos::nul_index_from(data@, offset as int) == crate::macos::nul_index_from(
                data@,
                i as int,
            ),
        decreases data@.len() - i,
    {
        if *vstd::slice::slice_index_get(data, i) == 0 {
            proof {
                assert(crate::macos::nul_index_from(data@, i as int) == i as int);
            }
            return vstd::slice::slice_to_vec(vstd::slice::slice_subrange(data, offset, i));
        }
        i = i + 1;
    }
    proof {
        assert(crate::macos::nul_index_from(data@, i as int) == data@.len());
    }
    vstd::slice::slice_to_vec(vstd::slice::slice_subrange(data, offset, data.len()))
}

} // verus!