//! The ELF (Linux) implementation: program headers, note records, and the
//! enumeration driver.
//!
//! The operating system hands out one record per mapped image, holding the
//! image's name, its load bias, and its program header table; for `PT_NOTE`
//! segments the mapped payload bytes are captured as well, because the GNU
//! build-id lives in them. Everything from there on — interpreting the
//! headers, walking the note records, choosing the image's name, and driving
//! the per-image callback — is verified here.

use vstd::prelude::*;

use crate::Avma;
use crate::Bias;
use crate::IterationControl;
use crate::SharedLibraryId;
use crate::Svma;
use crate::biased_address;
use crate::unbiased_address;

verus! {

/// ELF program header type: unused entry.
pub const PT_NULL: u32 = 0;

/// ELF program header type: loadable segment.
pub const PT_LOAD: u32 = 1;

/// ELF program header type: dynamic linking information.
pub const PT_DYNAMIC: u32 = 2;

/// ELF program header type: interpreter path.
pub const PT_INTERP: u32 = 3;

/// ELF program header type: auxiliary notes.
pub const PT_NOTE: u32 = 4;

/// ELF program header type: reserved.
pub const PT_SHLIB: u32 = 5;

/// ELF program header type: the header table itself.
pub const PT_PHDR: u32 = 6;

/// ELF program header type: thread-local storage template.
pub const PT_TLS: u32 = 7;

/// ELF program header type: GNU exception-handling frame tables.
pub const PT_GNU_EH_FRAME: u32 = 0x6474e550;

/// ELF program header type: GNU stack permissions marker.
pub const PT_GNU_STACK: u32 = 0x6474e551;

/// ELF program header type: GNU region to remap read-only after relocation.
pub const PT_GNU_RELRO: u32 = 0x6474e552;

/// ELF program header flag: the segment is executable.
pub const PF_X: u32 = 1;

/// ELF note type of the GNU build-id note.
pub const NT_GNU_BUILD_ID: u32 = 3;

/// One ELF program header, copied out of the `dl_phdr_info` record the
/// loader reports, together with the segment's mapped bytes where the parser
/// needs them (`PT_NOTE` segments; empty elsewhere).
#[derive(Debug, Clone)]
pub struct Phdr {
    /// The segment type (`p_type`).
    pub p_type: u32,
    /// The permission flags (`p_flags`).
    pub p_flags: u32,
    /// The stated virtual address of the segment (`p_vaddr`).
    pub p_vaddr: u64,
    /// The segment's length in memory, in bytes (`p_memsz`).
    pub p_memsz: u64,
    /// The segment's stated alignment (`p_align`).
    pub p_align: u64,
    /// The bytes the segment maps, as captured at enumeration time.
    pub contents: Vec<u8>,
}

/// The name of a segment with the given header type; unknown type codes get
/// a sentinel rather than failing.
pub open spec fn spec_segment_name(p_type: u32) -> Seq<char> {
    if p_type == PT_NULL {
        "NULL"@
    } else if p_type == PT_LOAD {
        "LOAD"@
    } else if p_type == PT_DYNAMIC {
        "DYNAMIC"@
    } else if p_type == PT_INTERP {
        "INTERP"@
    } else if p_type == PT_NOTE {
        "NOTE"@
    } else if p_type == PT_SHLIB {
        "SHLIB"@
    } else if p_type == PT_PHDR {
        "PHDR"@
    } else if p_type == PT_TLS {
        "TLS"@
    } else if p_type == PT_GNU_EH_FRAME {
        "GNU_EH_FRAME"@
    } else if p_type == PT_GNU_STACK {
        "GNU_STACK"@
    } else if p_type == PT_GNU_RELRO {
        "GNU_RELRO"@
    } else {
        "(unknown segment type)"@
    }
}

/// A mapped segment of an ELF image: a view of one program header.
#[derive(Debug)]
pub struct Segment<'a> {
    /// The program header record this segment reads.
    pub phdr: &'a Phdr,
}

impl<'a> Segment<'a> {
    /// Wrap one program header record.
    pub fn new(phdr: &'a Phdr) -> (r: Self)
        ensures
            r.phdr == phdr,
    {
        Segment { phdr }
    }

    /// The program header this segment reads.
    pub fn phdr(&self) -> (r: &'a Phdr)
        ensures
            r == self.phdr,
    {
        self.phdr
    }

    /// The bytes the segment maps, as captured at enumeration time.
    pub fn data(&self) -> (r: &'a [u8])
        ensures
            r@ == self.phdr.contents@,
    {
        self.phdr.contents.as_slice()
    }

    /// Whether this is a `PT_NOTE` segment.
    pub fn is_note(&self) -> (r: bool)
        ensures
            r == (self.phdr.p_type == PT_NOTE),
    {
        self.phdr.p_type == PT_NOTE
    }

    /// This segment's name; a sentinel for type codes outside the known set.
    pub fn name(&self) -> (r: &'static str)
        ensures
            r@ == spec_segment_name(self.phdr.p_type),
    {
        let t = self.phdr.p_type;
        if t == PT_NULL {
            "NULL"
        } else if t == PT_LOAD {
            "LOAD"
        } else if t == PT_DYNAMIC {
            "DYNAMIC"
        } else if t == PT_INTERP {
            "INTERP"
        } else if t == PT_NOTE {
            "NOTE"
        } else if t == PT_SHLIB {
            "SHLIB"
        } else if t == PT_PHDR {
            "PHDR"
        } else if t == PT_TLS {
            "TLS"
        } else if t == PT_GNU_EH_FRAME {
            "GNU_EH_FRAME"
        } else if t == PT_GNU_STACK {
            "GNU_STACK"
        } else if t == PT_GNU_RELRO {
            "GNU_RELRO"
        } else {
            "(unknown segment type)"
        }
    }

    /// Whether this is a code segment: loadable and executable.
    pub fn is_code(&self) -> (r: bool)
        ensures
            r == (self.phdr.p_type == PT_LOAD && self.phdr.p_flags & PF_X != 0),
    {
        self.phdr.p_type == PT_LOAD && self.phdr.p_flags & PF_X != 0
    }

    /// Whether this segment occupies virtual memory at runtime.
    pub fn is_load(&self) -> (r: bool)
        ensures
            r == (self.phdr.p_type == PT_LOAD),
    {
        self.phdr.p_type == PT_LOAD
    }

    /// This segment's stated virtual memory address.
    pub fn stated_virtual_memory_address(&self) -> (r: Svma)
        requires
            self.phdr.p_vaddr <= usize::MAX,
    ensures
            r.0 == self.phdr.p_vaddr,
    {
        Svma(self.phdr.p_vaddr as usize)
    }

    /// The length of this segment in memory, in bytes.
    pub fn len(&self) -> (r: usize)
        requires
            self.phdr.p_memsz <= usize::MAX,
        ensures
            r == self.phdr.p_memsz,
    {
        self.phdr.p_memsz as usize
    }

    /// This segment's actual virtual memory address: the stated address with
    /// the owning image's bias applied, wrapping at the pointer width.
    pub fn actual_virtual_memory_address(&self, shlib: &SharedLibrary) -> (r: Avma)
        requires
            self.phdr.p_vaddr <= usize::MAX,
        ensures
            r.0 == biased_address(self.phdr.p_vaddr as int, shlib.addr as int),
    {
        let svma = self.stated_virtual_memory_address();
        let bias = shlib.virtual_memory_bias();
        svma.with_bias(bias)
    }

    /// Whether the half-open stated address range `[p_vaddr, p_vaddr +
    /// p_memsz)` contains the given address.
    pub fn contains_svma(&self, address: Svma) -> (r: bool)
        requires
            self.phdr.p_vaddr <= usize::MAX,
            self.phdr.p_memsz <= usize::MAX,
        ensures
            r == (self.phdr.p_vaddr <= address.0 < self.phdr.p_vaddr + self.phdr.p_memsz),
    {
        let start = self.stated_virtual_memory_address().0;
        let len = self.len();
        address.0 >= start && address.0 - start < len
    }

    /// Whether the half-open actual address range starting at this segment's
    /// biased address contains the given address.
    pub fn contains_avma(&self, shlib: &SharedLibrary, address: Avma) -> (r: bool)
        requires
            self.phdr.p_vaddr <= usize::MAX,
            self.phdr.p_memsz <= usize::MAX,
        ensures
            r == (biased_address(self.phdr.p_vaddr as int, shlib.addr as int) <= address.0
                < biased_address(self.phdr.p_vaddr as int, shlib.addr as int)
                + self.phdr.p_memsz),
    {
        let start = self.actual_virtual_memory_address(shlib).0;
        let len = self.len();
        address.0 >= start && address.0 - start < len
    }
}

/// Split a byte string in two at `index`: its first `index` bytes and the
/// rest, or nothing when it is shorter than `index`.
pub fn try_split_at<'a>(data: &'a [u8], index: usize) -> (r: Option<(&'a [u8], &'a [u8])>)
    ensures
        match r {
            Some(parts) => {
                &&& index <= data@.len()
                &&& parts.0@ == data@.subrange(0, index as int)
                &&& parts.1@ == data@.subrange(index as int, data@.len() as int)
            },
            None => index > data@.len(),
        },
{
    if data.len() < index {
        None
    } else {
        let head = vstd::slice::slice_subrange(data, 0, index);
        let tail = vstd::slice::slice_subrange(data, index, data.len());
        Some((head, tail))
    }
}

/// The alignment the note parser uses for a segment: the header's stated
/// alignment, but at least 4.
pub open spec fn spec_note_alignment(p_align: u64) -> int {
    if p_align <= 4 {
        4
    } else {
        p_align as int
    }
}

/// The smallest multiple of `alignment` at or above `offset`.
pub open spec fn align_up(offset: int, alignment: int) -> int
    recommends
        0 <= offset,
        0 < alignment,
{
    if alignment <= 0 {
        offset
    } else if offset % alignment == 0 {
        offset
    } else {
        offset + alignment - offset % alignment
    }
}

/// The little-endian 32-bit value at `offset`.
pub open spec fn u32_le_at(data: Seq<u8>, offset: int) -> u32
    recommends
        0 <= offset,
        offset + 4 <= data.len(),
{
    vstd::bytes::spec_u32_from_le_bytes(data.subrange(offset, offset + 4))
}

/// The note records of a `PT_NOTE` segment from `offset` on: each is a
/// 12-byte header (name length, descriptor length, type), a name, and a
/// descriptor padded to the segment's alignment. Parsing stops, yielding no
/// further notes, on any misalignment or truncation, and on an alignment
/// other than 4 or 8 — those mark a non-conforming segment, not a failure.
pub open spec fn parse_notes(data: Seq<u8>, alignment: int, offset: int) -> Seq<
    (u32, Seq<u8>, Seq<u8>),
>
    recommends
        0 <= offset <= data.len(),
    decreases data.len() - offset,
    when 0 <= offset <= data.len()
{
    if alignment != 4 && alignment != 8 {
        Seq::empty()
    } else if offset % alignment != 0 {
        Seq::empty()
    } else if offset + 12 > data.len() {
        Seq::empty()
    } else {
        let n_namesz = u32_le_at(data, offset) as int;
        let n_descsz = u32_le_at(data, offset + 4) as int;
        let n_type = u32_le_at(data, offset + 8);
        let name_end = offset + 12 + n_namesz;
        if name_end > data.len() {
            Seq::empty()
        } else {
            let desc_start = align_up(name_end, alignment);
            if desc_start > data.len() {
                Seq::empty()
            } else {
                let desc_end = desc_start + n_descsz;
                if desc_end > data.len() {
                    Seq::empty()
                } else {
                    let next = align_up(desc_end, alignment);
                    if next > data.len() {
                        Seq::empty()
                    } else {
                        seq![
                            (
                                n_type,
                                data.subrange(offset + 12, name_end),
                                data.subrange(desc_start, desc_end),
                            ),
                        ] + parse_notes(data, alignment, next)
                    }
                }
            }
        }
    }
}

/// The note records a segment's header and captured bytes parse to.
pub open spec fn header_notes(h: Phdr) -> Seq<(u32, Seq<u8>, Seq<u8>)> {
    parse_notes(h.contents@, spec_note_alignment(h.p_align), 0)
}

/// One parsed ELF note record.
#[derive(Debug)]
pub struct Note {
    /// The `NT_*` note type.
    pub n_type: u32,
    /// The note's name field, padding included as stored.
    pub name: Vec<u8>,
    /// The note's descriptor payload.
    pub desc: Vec<u8>,
}

/// The mathematical contents of a sequence of parsed notes.
pub open spec fn note_views(notes: Seq<Note>) -> Seq<(u32, Seq<u8>, Seq<u8>)> {
    notes.map_values(|n: Note| (n.n_type, n.name@, n.desc@))
}

/// The executable form of `align_up`; reports overflow instead of wrapping.
fn align_up_to(offset: usize, alignment: usize) -> (r: Option<usize>)
    requires
        alignment == 4 || alignment == 8,
    ensures
        match r {
            Some(v) => v == align_up(offset as int, alignment as int),
            None => align_up(offset as int, alignment as int) > usize::MAX,
        },
{
    let rem = offset % alignment;
    if rem == 0 {
        Some(offset)
    } else {
        offset.checked_add(alignment - rem)
    }
}

impl<'a> Segment<'a> {
    /// Parse the contents of a `PT_NOTE` segment: every complete, aligned
    /// note record, in order, up to the first misaligned or truncated one.
    pub fn notes(&self) -> (r: Vec<Note>)
        ensures
            note_views(r@) == header_notes(*self.phdr),
    {
        let ghost all = header_notes(*self.phdr);
        let data = self.phdr.contents.as_slice();
        let mut out: Vec<Note> = Vec::new();
        let alignment: usize = if self.phdr.p_align <= 4 {
            4
        } else if self.phdr.p_align == 8 {
            8
        } else {
            // Any other alignment marks a non-conforming segment: no notes.
            assert(note_views(out@) =~= all);
            return out;
        };
        let mut offset: usize = 0;
        loop
            invariant_except_break
                alignment as int == spec_note_alignment(self.phdr.p_align),
                alignment == 4 || alignment == 8,
                offset <= data@.len(),
                data@ == self.phdr.contents@,
                offset % alignment == 0,
                note_views(out@) + parse_notes(data@, alignment as int, offset as int) == all,
            ensures
                note_views(out@) == all,
            decreases data@.len() - offset,
        {
            let ghost rest = parse_notes(data@, alignment as int, offset as int);
            if data.len() - offset < 12 {
                proof {
                    assert(rest =~= Seq::empty());
                    assert(note_views(out@) =~= all);
                }
                break;
            }
            // Each note record begins with a fixed-size three-field header.
            let n_namesz = vstd::bytes::u32_from_le_bytes(
                vstd::slice::slice_subrange(data, offset, offset + 4),
            ) as usize;
            let n_descsz = vstd::bytes::u32_from_le_bytes(
                vstd::slice::slice_subrange(data, offset + 4, offset + 8),
            ) as usize;
            let n_type = vstd::bytes::u32_from_le_bytes(
                vstd::slice::slice_subrange(data, offset + 8, offset + 12),
            );
            let header_end = offset + 12;
            // The name follows the header unaligned; the descriptor and the
            // next header are each aligned up.
            let name_end = match header_end.checked_add(n_namesz) {
                Some(v) => v,
                None => {
                    proof {
                        assert(note_views(out@) =~= all);
                    }
                    break;
                },
            };
            if name_end > data.len() {
                proof {
                    assert(note_views(out@) =~= all);
                }
                break;
            }
            let desc_start = match align_up_to(name_end, alignment) {
                Some(v) => v,
                None => {
                    proof {
                        assert(note_views(out@) =~= all);
                    }
                    break;
                },
            };
            if desc_start > data.len() {
                proof {
                    assert(note_views(out@) =~= all);
                }
                break;
            }
            let desc_end = match desc_start.checked_add(n_descsz) {
                Some(v) => v,
                None => {
                    proof {
                        assert(note_views(out@) =~= all);
                    }
                    break;
                },
            };
            if desc_end > data.len() {
                proof {
                    assert(note_views(out@) =~= all);
                }
                break;
            }
            let next = match align_up_to(desc_end, alignment) {
                Some(v) => v,
                None => {
                    proof {
                        assert(note_views(out@) =~= all);
                    }
                    break;
                },
            };
            if next > data.len() {
                proof {
                    assert(note_views(out@) =~= all);
                }
                break;
            }
            let name = vstd::slice::slice_to_vec(
                vstd::slice::slice_subrange(data, header_end, name_end),
            );
            let desc = vstd::slice::slice_to_vec(
                vstd::slice::slice_subrange(data, desc_start, desc_end),
            );
            out.push(Note { n_type, name, desc });
            proof {
                assert(rest == seq![
                    (
                        n_type,
                        data@.subrange(header_end as int, name_end as int),
                        data@.subrange(desc_start as int, desc_end as int),
                    ),
                ] + parse_notes(data@, alignment as int, next as int));
                assert(note_views(out@) =~= note_views(out@.drop_last()) + seq![
                    (n_type, data@.subrange(header_end as int, name_end as int), data@.subrange(
                        desc_start as int,
                        desc_end as int,
                    )),
                ]);
                assert(note_views(out@) + parse_notes(data@, alignment as int, next as int)
                    =~= all);
            }
            offset = next;
        }
        out
    }
}

/// A shared library mapped into the process, as the loader reports it: its
/// name, its load bias, and its program header table.
#[derive(Debug)]
pub struct SharedLibrary {
    /// The image's name, in platform bytes.
    pub name: Vec<u8>,
    /// The image's load bias, as the loader reports it (`dlpi_addr`).
    pub addr: usize,
    /// The image's program header table.
    pub headers: Vec<Phdr>,
}

impl SharedLibrary {
    /// Assemble an image record from what the loader reports.
    pub fn new(name: Vec<u8>, addr: usize, headers: Vec<Phdr>) -> (r: Self)
        ensures
            r.name == name,
            r.addr == addr,
            r.headers == headers,
    {
        SharedLibrary { name, addr, headers }
    }

    /// The image's name, in platform bytes.
    pub fn name(&self) -> (r: &[u8])
        ensures
            r@ == self.name@,
    {
        self.name.as_slice()
    }

    /// The bias the loader applied to this image.
    pub fn virtual_memory_bias(&self) -> (r: Bias)
        ensures
            r.0 == self.addr,
    {
        Bias(self.addr)
    }

    /// One segment view per program header, in table order.
    pub fn segments<'a>(&'a self) -> (r: Vec<Segment<'a>>)
        ensures
            r@.len() == self.headers@.len(),
            forall|i: int| 0 <= i < r@.len() ==> *#[trigger] r@[i].phdr == self.headers@[i],
    {
        let mut out: Vec<Segment<'a>> = Vec::new();
        let mut i: usize = 0;
        while i < self.headers.len()
            invariant
                i <= self.headers@.len(),
                out@.len() == i,
                forall|j: int| 0 <= j < i ==> *#[trigger] out@[j].phdr == self.headers@[j],
            decreases self.headers@.len() - i,
        {
            out.push(Segment::new(&self.headers[i]));
            i = i + 1;
        }
        out
    }

    /// The note segments, in table order.
    pub fn note_segments<'a>(&'a self) -> (r: Vec<Segment<'a>>) {
        let segments = self.segments();
        let mut out: Vec<Segment<'a>> = Vec::new();
        let mut i: usize = 0;
        while i < segments.len()
            invariant
                i <= segments@.len(),
                forall|j: int| 0 <= j < segments@.len()
                    ==> *#[trigger] segments@[j].phdr == self.headers@[j],
                segments@.len() == self.headers@.len(),
            decreases segments@.len() - i,
        {
            if segments[i].is_note() {
                out.push(Segment::new(segments[i].phdr()));
            }
            i = i + 1;
        }
        out
    }

    /// The image's build ID: the payload of the first GNU build-id note in
    /// the first note segment that carries one, in header-table order.
    pub fn id(&self) -> (r: Option<SharedLibraryId>)
        ensures
            match r {
                Some(id) => {
                    &&& find_build_id(self.headers@) is Some
                    &&& id matches SharedLibraryId::GnuBuildId(d) && d@ == find_build_id(
                        self.headers@,
                    )->Some_0
                },
                None => find_build_id(self.headers@) is None,
            },
    {
        let mut i: usize = 0;
        while i < self.headers.len()
            invariant
                i <= self.headers@.len(),
                find_build_id_from(self.headers@, 0) == find_build_id_from(
                    self.headers@,
                    i as int,
                ),
            decreases self.headers@.len() - i,
        {
            let h = &self.headers[i];
            if h.p_type == PT_NOTE {
                let seg = Segment::new(h);
                let notes = seg.notes();
                let ghost nviews = header_notes(self.headers@[i as int]);
                let mut j: usize = 0;
                while j < notes.len()
                    invariant
                        j <= notes@.len(),
                        i < self.headers@.len(),
                        self.headers@[i as int].p_type == PT_NOTE,
                        nviews == header_notes(self.headers@[i as int]),
                        note_views(notes@) == nviews,
                        find_build_id_from(self.headers@, 0) == find_build_id_from(
                            self.headers@,
                            i as int,
                        ),
                        find_build_id_in_notes_from(nviews, 0) == find_build_id_in_notes_from(
                            nviews,
                            j as int,
                        ),
                    decreases notes@.len() - j,
                {
                    let note = &notes[j];
                    if note.n_type == NT_GNU_BUILD_ID && note.name.len() == 4 && note.name[0]
                        == 71 && note.name[1] == 78 && note.name[2] == 85 && note.name[3] == 0 {
                        proof {
                            assert(note.name@ =~= gnu_note_name());
                            assert(nviews[j as int] == (note.n_type, note.name@, note.desc@));
                            assert(find_build_id_in_notes_from(nviews, j as int) == Some(
                                note.desc@,
                            ));
                            assert(find_build_id_from(self.headers@, i as int) == Some(
                                note.desc@,
                            ));
                        }
                        let desc = clone_bytes(&note.desc);
                        return Some(SharedLibraryId::GnuBuildId(desc));
                    }
                    j = j + 1;
                }
            }
            i = i + 1;
        }
        None
    }

    /// The actual address at which the image is loaded: the biased address
    /// of its first load segment, or the top of the address space when the
    /// image has none.
    pub fn actual_load_addr(&self) -> (r: Avma)
        requires
            loads_fit_usize(self.headers@),
        ensures
            r.0 == spec_actual_load_addr(self.headers@, self.addr as int),
    {
        let bias = self.virtual_memory_bias();
        let mut i: usize = 0;
        while i < self.headers.len()
            invariant
                i <= self.headers@.len(),
                bias.0 == self.addr,
                loads_fit_usize(self.headers@),
                first_load_from(self.headers@, 0) == first_load_from(self.headers@, i as int),
            decreases self.headers@.len() - i,
        {
            let h = &self.headers[i];
            if h.p_type == PT_LOAD {
                proof {
                    assert(first_load_from(self.headers@, i as int) == Some(i as int));
                    assert(self.headers@[i as int].p_vaddr <= usize::MAX);
                }
                return Svma(h.p_vaddr as usize).with_bias(bias);
            }
            i = i + 1;
        }
        Avma(usize::MAX)
    }

    /// The stated address at which the image prefers to be loaded: the
    /// stated address of its first load segment, or the top of the address
    /// space when the image has none.
    pub fn stated_load_addr(&self) -> (r: Svma)
        requires
            loads_fit_usize(self.headers@),
        ensures
            r.0 == spec_stated_load_addr(self.headers@),
    {
        let mut i: usize = 0;
        while i < self.headers.len()
            invariant
                i <= self.headers@.len(),
                loads_fit_usize(self.headers@),
                first_load_from(self.headers@, 0) == first_load_from(self.headers@, i as int),
            decreases self.headers@.len() - i,
        {
            let h = &self.headers[i];
            if h.p_type == PT_LOAD {
                proof {
                    assert(first_load_from(self.headers@, i as int) == Some(i as int));
                }
                return Svma(h.p_vaddr as usize);
            }
            i = i + 1;
        }
        Svma(usize::MAX)
    }

    /// The size of the image: the span from its actual load address to the
    /// largest end address of any of its load segments.
    pub fn len(&self) -> (r: usize)
        requires
            loads_fit_usize(self.headers@),
            load_ends_fit_usize(self.headers@, self.addr as int),
        ensures
            r == spec_image_len(self.headers@, self.addr as int),
    {
        let ghost headers = self.headers@;
        let ghost bias = self.addr as int;
        let mut end_address: usize = usize::MAX;
        let mut have_end: bool = false;
        let mut i: usize = self.headers.len();
        while i > 0
            invariant
                i <= headers.len(),
                self.headers@ == headers,
                self.addr as int == bias,
                loads_fit_usize(headers),
                load_ends_fit_usize(headers, bias),
                match max_load_end_from(headers, bias, i as int) {
                    Some(m) => have_end && end_address == m,
                    None => !have_end && end_address == usize::MAX,
                },
            decreases i,
        {
            i = i - 1;
            let h = &self.headers[i];
            if h.p_type == PT_LOAD {
                let end = Svma(h.p_vaddr as usize).with_bias(self.virtual_memory_bias()).0
                    + h.p_memsz as usize;
                if !have_end || end > end_address {
                    end_address = end;
                    have_end = true;
                } else {
                    proof {
                        assert(max_load_end_from(headers, bias, i as int) == Some(
                            end_address as int,
                        ));
                    }
                }
            }
        }
        proof {
            if first_load_from(headers, 0) is Some {
                lemma_max_end_covers_first_load(headers, bias, 0);
            } else {
                lemma_no_load_no_end(headers, bias, 0);
            }
        }
        end_address - self.actual_load_addr().0
    }

    /// Translate an actual address within this image back to a stated one by
    /// removing the image's bias.
    pub fn avma_to_svma(&self, address: Avma) -> (r: Svma)
        ensures
            r.0 == unbiased_address(address.0 as int, self.addr as int),
    {
        address.without_bias(self.virtual_memory_bias())
    }

    /// The name of a separate debug file; no such concept exists for ELF
    /// images.
    pub fn debug_name(&self) -> (r: Option<&[u8]>)
        ensures
            r is None,
    {
        None
    }

    /// The debug ID of this image: the same as its build ID.
    pub fn debug_id(&self) -> (r: Option<SharedLibraryId>)
        ensures
            match r {
                Some(id) => {
                    &&& find_build_id(self.headers@) is Some
                    &&& id matches SharedLibraryId::GnuBuildId(d) && d@ == find_build_id(
                        self.headers@,
                    )->Some_0
                },
                None => find_build_id(self.headers@) is None,
            },
    {
        self.id()
    }
}

/// Copy a byte string.
fn clone_bytes(v: &Vec<u8>) -> (r: Vec<u8>)
    ensures
        r@ == v@,
{
    let r = v.clone();
    proof {
        assert(r@ =~= v@);
    }
    r
}

/// The name field of a GNU build-id note: `"GNU"` with its terminating NUL.
pub open spec fn gnu_note_name() -> Seq<u8> {
    seq![71u8, 78u8, 85u8, 0u8]
}

/// The payload of the first GNU build-id note at or after position `i`: a
/// note of type `NT_GNU_BUILD_ID` whose name field is exactly `"GNU\0"`.
pub open spec fn find_build_id_in_notes_from(
    notes: Seq<(u32, Seq<u8>, Seq<u8>)>,
    i: int,
) -> Option<Seq<u8>>
    decreases notes.len() - i,
    when 0 <= i <= notes.len()
{
    if i >= notes.len() {
        None
    } else if notes[i].0 == NT_GNU_BUILD_ID && notes[i].1 == gnu_note_name() {
        Some(notes[i].2)
    } else {
        find_build_id_in_notes_from(notes, i + 1)
    }
}

/// The build ID found in the first note segment at or after header `i` that
/// carries one; the first such note wins, in header-table order.
pub open spec fn find_build_id_from(headers: Seq<Phdr>, i: int) -> Option<Seq<u8>>
    decreases headers.len() - i,
    when 0 <= i <= headers.len()
{
    if i >= headers.len() {
        None
    } else if headers[i].p_type == PT_NOTE && find_build_id_in_notes_from(
        header_notes(headers[i]),
        0,
    ) is Some {
        find_build_id_in_notes_from(header_notes(headers[i]), 0)
    } else {
        find_build_id_from(headers, i + 1)
    }
}

/// The image's build ID, if any of its note segments carries one.
pub open spec fn find_build_id(headers: Seq<Phdr>) -> Option<Seq<u8>> {
    find_build_id_from(headers, 0)
}

/// The index of the first load segment at or after position `i`.
pub open spec fn first_load_from(headers: Seq<Phdr>, i: int) -> Option<int>
    decreases headers.len() - i,
    when 0 <= i <= headers.len()
{
    if i >= headers.len() {
        None
    } else if headers[i].p_type == PT_LOAD {
        Some(i)
    } else {
        first_load_from(headers, i + 1)
    }
}

/// Whether every load segment's stated address and length fit the platform's
/// address width.
pub open spec fn loads_fit_usize(headers: Seq<Phdr>) -> bool {
    forall|i: int|
        0 <= i < headers.len() && headers[i].p_type == PT_LOAD ==> #[trigger] headers[i].p_vaddr
            <= usize::MAX && headers[i].p_memsz <= usize::MAX
}

/// Whether every load segment's biased end address fits the platform's
/// address width.
pub open spec fn load_ends_fit_usize(headers: Seq<Phdr>, bias: int) -> bool {
    forall|i: int|
        0 <= i < headers.len() && headers[i].p_type == PT_LOAD ==> biased_address(
            #[trigger] headers[i].p_vaddr as int,
            bias,
        ) + headers[i].p_memsz <= usize::MAX
}

/// The stated address of the image's first load segment, or the top of the
/// address space when it has none.
pub open spec fn spec_stated_load_addr(headers: Seq<Phdr>) -> int {
    match first_load_from(headers, 0) {
        Some(i) => headers[i].p_vaddr as int,
        None => usize::MAX as int,
    }
}

/// The biased address of the image's first load segment, or the top of the
/// address space when it has none.
pub open spec fn spec_actual_load_addr(headers: Seq<Phdr>, bias: int) -> int {
    match first_load_from(headers, 0) {
        Some(i) => biased_address(headers[i].p_vaddr as int, bias),
        None => usize::MAX as int,
    }
}

/// The largest biased end address over the load segments at or after
/// position `i`.
pub open spec fn max_load_end_from(headers: Seq<Phdr>, bias: int, i: int) -> Option<int>
    decreases headers.len() - i,
    when 0 <= i <= headers.len()
{
    if i >= headers.len() {
        None
    } else {
        let rest = max_load_end_from(headers, bias, i + 1);
        if headers[i].p_type == PT_LOAD {
            let end = biased_address(headers[i].p_vaddr as int, bias) + headers[i].p_memsz;
            match rest {
                None => Some(end),
                Some(m) => Some(
                    if end > m {
                        end
                    } else {
                        m
                    },
                ),
            }
        } else {
            rest
        }
    }
}

/// The size of the image: from its actual load address to the largest end
/// address of any of its load segments; zero when it has no load segment.
pub open spec fn spec_image_len(headers: Seq<Phdr>, bias: int) -> int {
    (match max_load_end_from(headers, bias, 0) {
        Some(m) => m,
        None => usize::MAX as int,
    }) - spec_actual_load_addr(headers, bias)
}

/// When an image has a load segment, the largest load end address is at
/// least the biased address of the first load segment.
proof fn lemma_max_end_covers_first_load(headers: Seq<Phdr>, bias: int, i: int)
    requires
        0 <= i <= headers.len(),
        first_load_from(headers, i) is Some,
    ensures
        max_load_end_from(headers, bias, i) is Some,
        max_load_end_from(headers, bias, i)->Some_0 >= biased_address(
            headers[first_load_from(headers, i)->Some_0].p_vaddr as int,
            bias,
        ),
    decreases headers.len() - i,
{
    if i < headers.len() && headers[i].p_type != PT_LOAD {
        lemma_max_end_covers_first_load(headers, bias, i + 1);
    } else if i < headers.len() {
        if first_load_from(headers, i + 1) is Some {
            lemma_max_end_covers_first_load(headers, bias, i + 1);
        } else {
            lemma_no_load_no_end(headers, bias, i + 1);
        }
    }
}

/// An image without load segments has no load end address.
proof fn lemma_no_load_no_end(headers: Seq<Phdr>, bias: int, i: int)
    requires
        0 <= i <= headers.len(),
        first_load_from(headers, i) is None,
    ensures
        max_load_end_from(headers, bias, i) is None,
    decreases headers.len() - i,
{
    if i < headers.len() {
        lemma_no_load_no_end(headers, bias, i + 1);
    }
}

/// The first load segment an enumeration finds is a load segment within the
/// table.
proof fn lemma_first_load_is_load(headers: Seq<Phdr>, i: int)
    requires
        0 <= i <= headers.len(),
        first_load_from(headers, i) is Some,
    ensures
        i <= first_load_from(headers, i)->Some_0 < headers.len(),
        headers[first_load_from(headers, i)->Some_0].p_type == PT_LOAD,
    decreases headers.len() - i,
{
    if i < headers.len() && headers[i].p_type != PT_LOAD {
        lemma_first_load_is_load(headers, i + 1);
    }
}

/// Bias identity: for an image with a load segment, removing the image's
/// bias from its actual load address gives back its stated load address —
/// the round trip across the bias is the identity.
pub proof fn lemma_load_addr_round_trip(headers: Seq<Phdr>, bias: int)
    requires
        0 <= bias <= usize::MAX,
        loads_fit_usize(headers),
        first_load_from(headers, 0) is Some,
    ensures
        unbiased_address(spec_actual_load_addr(headers, bias), bias) == spec_stated_load_addr(
            headers,
        ),
{
    let i = first_load_from(headers, 0)->Some_0;
    lemma_first_load_is_load(headers, 0);
    crate::lemma_bias_round_trip(headers[i].p_vaddr as int, bias);
}

/// The name an enumerated image gets. The loader's reported name wins when
/// it is nonempty. An empty name on the first image means the image is the
/// executable itself, whose path stands in for it; an empty name elsewhere
/// falls back to whatever name the dynamic loader recovers for the image's
/// base address. When no fallback is at hand the empty name stays.
pub open spec fn spec_choose_name(
    reported: Seq<u8>,
    is_first_lib: bool,
    executable_name: Option<Seq<u8>>,
    recovered_name: Option<Seq<u8>>,
) -> Seq<u8> {
    if reported.len() > 0 {
        reported
    } else if is_first_lib {
        match executable_name {
            Some(n) => n,
            None => reported,
        }
    } else {
        match recovered_name {
            Some(n) => n,
            None => reported,
        }
    }
}

impl SharedLibrary {
    /// Visit each of the given images in order, handing each to the
    /// callback, until the callback returns `Break` or the images run out;
    /// returns how many images were visited. The unverified shell captures
    /// one record per image the loader reports and calls this driver.
    pub fn each<F: Fn(&SharedLibrary) -> IterationControl>(
        libraries: &Vec<SharedLibrary>,
        f: &F,
    ) -> (visited: usize)
        requires
            forall|i: int|
                0 <= i < libraries@.len() ==> #[trigger] call_requires(*f, (&libraries@[i],)),
        ensures
            visited <= libraries@.len(),
            libraries@.len() > 0 ==> visited >= 1,
            forall|i: int|
                0 <= i < visited - 1 ==> call_ensures(
                    *f,
                    (&libraries@[i],),
                    IterationControl::Continue,
                ),
            visited < libraries@.len() ==> call_ensures(
                *f,
                (&libraries@[visited - 1],),
                IterationControl::Break,
            ),
            visited >= 1 ==> exists|c: IterationControl|
                #[trigger] call_ensures(*f, (&libraries@[visited - 1],), c),
    {
        crate::each_image(libraries, f)
    }
}

/// The names of a sequence of images, in enumeration order.
pub open spec fn spec_image_names(libraries: Seq<SharedLibrary>) -> Seq<Seq<u8>> {
    libraries.map_values(|l: SharedLibrary| l.name@)
}

/// The mathematical contents of a list of byte strings.
pub open spec fn names_view(names: Seq<Vec<u8>>) -> Seq<Seq<u8>> {
    names.map_values(|v: Vec<u8>| v@)
}

/// The names of the given images, in the order an enumeration visits them.
pub fn image_names(libraries: &Vec<SharedLibrary>) -> (names: Vec<Vec<u8>>)
    ensures
        names_view(names@) == spec_image_names(libraries@),
{
    let mut names: Vec<Vec<u8>> = Vec::new();
    let mut i: usize = 0;
    while i < libraries.len()
        invariant
            i <= libraries@.len(),
            names_view(names@) == spec_image_names(libraries@.subrange(0, i as int)),
        decreases libraries@.len() - i,
    {
        let ghost pre = names@;
        names.push(clone_bytes(&libraries[i].name));
        proof {
            assert(names_view(pre).len() == pre.len());
            assert(spec_image_names(libraries@.subrange(0, i as int)).len() == i);
            assert(pre.len() == i);
            assert forall|j: int| 0 <= j < i + 1 implies names_view(names@)[j]
                == spec_image_names(libraries@.subrange(0, i + 1))[j] by {
                assert(names_view(names@)[j] == names@[j]@);
                if j < i {
                    assert(names@[j] == pre[j]);
                    assert(names_view(pre)[j] == pre[j]@);
                }
            }
            assert(names_view(names@) =~= spec_image_names(libraries@.subrange(0, i + 1)));
        }
        i = i + 1;
    }
    proof {
        assert(libraries@.subrange(0, libraries@.len() as int) =~= libraries@);
    }
    names
}

/// Re-enumeration is idempotent: over an unchanged image list, two
/// enumerations observe the same images in the same order, so the name
/// sequences they produce are equal.
pub proof fn lemma_reenumeration_idempotent(
    libraries: Seq<SharedLibrary>,
    first: Seq<Seq<u8>>,
    second: Seq<Seq<u8>>,
)
    requires
        first == spec_image_names(libraries),
        second == spec_image_names(libraries),
    ensures
        first == second,
{
}

/// What one callback invocation inside the native iteration frame came to.
#[derive(Clone, Copy, Debug, PartialEq, Eq, Structural)]
pub enum CallbackOutcome {
    /// The callback ran and asked to continue.
    Continued,
    /// The callback ran and asked to stop.
    Broke,
    /// The callback failed; the failure was captured at the language
    /// boundary instead of unwinding through the native frame.
    Panicked,
}

/// The return code that asks the native iteration primitive to go on.
pub const NATIVE_CONTINUE: i32 = 0;

/// The return code that asks the native iteration primitive to stop.
pub const NATIVE_BREAK: i32 = 1;

/// How an enumeration run goes for a given sequence of per-image callback
/// outcomes: how many images are visited before the native iteration stops,
/// and whether a captured failure must be re-raised once the native call has
/// returned.
pub open spec fn drive(outcomes: Seq<CallbackOutcome>) -> (nat, bool)
    decreases outcomes.len(),
{
    if outcomes.len() == 0 {
        (0 as nat, false)
    } else if outcomes[0] == CallbackOutcome::Continued {
        let rest = drive(outcomes.drop_first());
        ((rest.0 + 1) as nat, rest.1)
    } else {
        (1 as nat, outcomes[0] == CallbackOutcome::Panicked)
    }
}

/// The state threaded through the native iteration primitive as its opaque
/// context: how many images have been visited, and whether a callback
/// failure has been captured and awaits re-raising.
pub struct IterState {
    /// How many images the native callback has been entered for.
    pub idx: usize,
    /// Whether a callback failure has been captured. Once set, the native
    /// frame has been told to stop and the failure is re-raised after the
    /// native call returns; entering another image first would mean a second
    /// failure with no safe unwinding path, so the contract forbids it.
    pub panic_pending: bool,
}

impl IterState {
    /// The state before the native call: nothing visited, no failure.
    pub fn new() -> (r: Self)
        ensures
            r.idx == 0,
            !r.panic_pending,
    {
        IterState { idx: 0, panic_pending: false }
    }

    /// Count one image as the native callback enters it; reports whether it
    /// is the first, whose empty name means the executable itself.
    pub fn begin_image(&mut self) -> (is_first_lib: bool)
        requires
            !old(self).panic_pending,
            old(self).idx < usize::MAX,
        ensures
            final(self).idx == old(self).idx + 1,
            !final(self).panic_pending,
            is_first_lib == (old(self).idx == 0),
    {
        self.idx = self.idx + 1;
        self.idx == 1
    }

    /// Record what the callback came to and decide the code handed back to
    /// the native frame: continue only on `Continue`; on a failure, capture
    /// it and stop the native iteration so the failure can be re-raised
    /// outside the native frame.
    pub fn record_outcome(&mut self, outcome: CallbackOutcome) -> (code: i32)
        requires
            !old(self).panic_pending,
        ensures
            final(self).idx == old(self).idx,
            final(self).panic_pending == (outcome == CallbackOutcome::Panicked),
            code == if outcome == CallbackOutcome::Continued {
                NATIVE_CONTINUE
            } else {
                NATIVE_BREAK
            },
    {
        match outcome {
            CallbackOutcome::Continued => NATIVE_CONTINUE,
            CallbackOutcome::Broke => NATIVE_BREAK,
            CallbackOutcome::Panicked => {
                self.panic_pending = true;
                NATIVE_BREAK
            },
        }
    }

    /// Whether a captured failure must now be re-raised, exactly once, back
    /// in the caller of the enumeration.
    pub fn must_resume(&self) -> (r: bool)
        ensures
            r == self.panic_pending,
    {
        self.panic_pending
    }
}

/// Step the marshalling state over a whole sequence of per-image callback
/// outcomes, as the native iteration primitive would: images are entered in
/// order until an outcome other than `Continue`, and a captured failure is
/// reported for re-raising afterwards. Returns how many images were visited
/// and whether a failure must be re-raised.
pub fn drive_outcomes(outcomes: &Vec<CallbackOutcome>) -> (r: (usize, bool))
    requires
        outcomes@.len() < usize::MAX,
    ensures
        (r.0 as nat, r.1) == drive(outcomes@),
{
    let mut state = IterState::new();
    let mut i: usize = 0;
    let mut stopped: bool = false;
    proof {
        assert(outcomes@.skip(0) =~= outcomes@);
    }
    while i < outcomes.len() && !stopped
        invariant
            i <= outcomes@.len(),
            outcomes@.len() < usize::MAX,
            state.idx == i,
            !stopped ==> !state.panic_pending && drive(outcomes@) == {
                let rest = drive(outcomes@.skip(i as int));
                ((rest.0 + i) as nat, rest.1)
            },
            stopped ==> (state.idx as nat, state.panic_pending) == drive(outcomes@),
        decreases outcomes@.len() - i,
    {
        let _is_first = state.begin_image();
        let code = state.record_outcome(outcomes[i]);
        proof {
            assert(outcomes@.skip(i as int)[0] == outcomes@[i as int]);
            assert(outcomes@.skip(i as int).drop_first() =~= outcomes@.skip(i + 1));
        }
        i = i + 1;
        if code == NATIVE_BREAK {
            stopped = true;
        }
    }
    proof {
        if !stopped {
            assert(outcomes@.skip(i as int) =~= Seq::empty());
        }
    }
    (i, state.must_resume())
}

/// Callback failure propagates exactly once: when the callback continues on
/// the first `k` images and fails on the next, the enumeration enters
/// exactly `k + 1` images — the ones already visited stand — and exactly one
/// captured failure is re-raised to the caller.
pub proof fn lemma_failure_propagates_once(outcomes: Seq<CallbackOutcome>, k: int)
    requires
        0 <= k < outcomes.len(),
        forall|i: int| 0 <= i < k ==> outcomes[i] == CallbackOutcome::Continued,
        outcomes[k] == CallbackOutcome::Panicked,
    ensures
        drive(outcomes) == (((k + 1) as nat, true)),
    decreases k,
{
    if k > 0 {
        lemma_failure_propagates_once(outcomes.drop_first(), k - 1);
    }
}

/// Decide an enumerated image's name from the loader's report and the
/// available fallbacks; see `spec_choose_name`.
pub fn choose_name(
    reported: Vec<u8>,
    is_first_lib: bool,
    executable_name: Option<Vec<u8>>,
    recovered_name: Option<Vec<u8>>,
) -> (r: Vec<u8>)
    ensures
        r@ == spec_choose_name(
            reported@,
            is_first_lib,
            executable_name.deep_view(),
            recovered_name.deep_view(),
        ),
{
    if reported.len() > 0 {
        reported
    } else if is_first_lib {
        match executable_name {
            Some(n) => n,
            None => reported,
        }
    } else {
        match recovered_name {
            Some(n) => n,
            None => reported,
        }
    }
}

} // verus!
