//! The Mach-O (macOS) implementation: load-command walking, segment
//! extraction, and UUID identity.
//!
//! The dynamic loader hands out, per image, the Mach header's magic number
//! and command count, the image's slide, its name, and the bytes of the
//! variable-length load-command list that follows the header. Walking that
//! list — validating each command's self-reported size before trusting it —
//! and extracting segments and the image's UUID is verified here.
//!
//! The platform offers no atomic snapshot of the image list, so the
//! unverified shell that captures these records must hold the loader lock
//! for the whole enumeration; that contract can only be documented, not
//! enforced, for code outside this crate.

use vstd::prelude::*;

use crate::Avma;
use crate::Bias;
use crate::IterationControl;
use crate::SharedLibraryId;
use crate::Svma;
use crate::biased_address;
use crate::bytes_equal;
use crate::unbiased_address;
use crate::linux::u32_le_at;

verus! {

/// The magic number of a 32-bit Mach header.
pub const MH_MAGIC: u32 = 0xfeedface;

/// The magic number of a 64-bit Mach header.
pub const MH_MAGIC_64: u32 = 0xfeedfacf;

/// Load command type: a 32-bit segment.
pub const LC_SEGMENT: u32 = 1;

/// Load command type: a 64-bit segment.
pub const LC_SEGMENT_64: u32 = 0x19;

/// Load command type: the image's UUID.
pub const LC_UUID: u32 = 27;

/// The byte size of a 32-bit segment command.
pub const SEGMENT_COMMAND_SIZE: u32 = 56;

/// The byte size of a 64-bit segment command.
pub const SEGMENT_COMMAND_64_SIZE: u32 = 72;

/// The byte size of a UUID command.
pub const UUID_COMMAND_SIZE: u32 = 24;

/// The little-endian 64-bit value at `offset`.
pub open spec fn u64_le_at(data: Seq<u8>, offset: int) -> u64
    recommends
        0 <= offset,
        offset + 8 <= data.len(),
{
    vstd::bytes::spec_u64_from_le_bytes(data.subrange(offset, offset + 8))
}

/// The index of the first NUL at or after `i`, or the length when there is
/// none.
pub open spec fn nul_index_from(bytes: Seq<u8>, i: int) -> int
    decreases bytes.len() - i,
    when 0 <= i <= bytes.len()
{
    if i >= bytes.len() {
        bytes.len() as int
    } else if bytes[i] == 0 {
        i
    } else {
        nul_index_from(bytes, i + 1)
    }
}

/// A C string's contents: the bytes before the first NUL, or all of them
/// when no NUL terminates the field.
pub open spec fn cstr_prefix(bytes: Seq<u8>) -> Seq<u8> {
    bytes.subrange(0, nul_index_from(bytes, 0))
}

/// The name of the segment that holds an image's code.
pub open spec fn text_segment_name() -> Seq<u8> {
    seq![95u8, 95u8, 84u8, 69u8, 88u8, 84u8]
}

/// A 32-bit segment command's fields, as the walker reads them: the raw
/// 16-byte name field, the stated address, and the length.
#[derive(Debug)]
pub struct SegmentCommand32 {
    /// The raw, NUL-padded 16-byte segment name field.
    pub segname: Vec<u8>,
    /// The segment's stated virtual address.
    pub vmaddr: u32,
    /// The segment's length in memory, in bytes.
    pub vmsize: u32,
}

/// A 64-bit segment command's fields, as the walker reads them.
#[derive(Debug)]
pub struct SegmentCommand64 {
    /// The raw, NUL-padded 16-byte segment name field.
    pub segname: Vec<u8>,
    /// The segment's stated virtual address.
    pub vmaddr: u64,
    /// The segment's length in memory, in bytes.
    pub vmsize: u64,
}

/// A Mach-O segment, of either command width.
#[derive(Debug)]
pub enum Segment {
    /// A 32-bit Mach-O segment.
    Segment32(SegmentCommand32),
    /// A 64-bit Mach-O segment.
    Segment64(SegmentCommand64),
}

/// The mathematical contents of a segment: its width, its raw name field,
/// its stated address, and its length.
pub open spec fn segment_view(s: Segment) -> (bool, Seq<u8>, int, int) {
    match s {
        Segment::Segment32(c) => (false, c.segname@, c.vmaddr as int, c.vmsize as int),
        Segment::Segment64(c) => (true, c.segname@, c.vmaddr as int, c.vmsize as int),
    }
}

/// The mathematical contents of a parsed segment list.
pub open spec fn segment_views(segs: Seq<Segment>) -> Seq<(bool, Seq<u8>, int, int)> {
    segs.map_values(|s: Segment| segment_view(s))
}

/// The segments among `ncmds` load commands starting at `offset`: each
/// command advances the cursor by its own size field, which is trusted only
/// after it is validated as nonzero and within the remaining bytes — a
/// corrupt size would otherwise loop forever or read out of bounds. A
/// command too small for the fields its type promises ends the walk.
pub open spec fn command_segments(data: Seq<u8>, ncmds: nat, offset: int) -> Seq<
    (bool, Seq<u8>, int, int),
>
    decreases ncmds,
{
    if ncmds == 0 || offset < 0 || offset + 8 > data.len() {
        Seq::empty()
    } else {
        let cmd = u32_le_at(data, offset);
        let cmdsize = u32_le_at(data, offset + 4) as int;
        if cmdsize == 0 || offset + cmdsize > data.len() {
            Seq::empty()
        } else {
            let rest = command_segments(data, (ncmds - 1) as nat, offset + cmdsize);
            if cmd == LC_SEGMENT {
                if cmdsize < SEGMENT_COMMAND_SIZE {
                    Seq::empty()
                } else {
                    seq![
                        (
                            false,
                            data.subrange(offset + 8, offset + 24),
                            u32_le_at(data, offset + 24) as int,
                            u32_le_at(data, offset + 28) as int,
                        ),
                    ] + rest
                }
            } else if cmd == LC_SEGMENT_64 {
                if cmdsize < SEGMENT_COMMAND_64_SIZE {
                    Seq::empty()
                } else {
                    seq![
                        (
                            true,
                            data.subrange(offset + 8, offset + 24),
                            u64_le_at(data, offset + 24) as int,
                            u64_le_at(data, offset + 32) as int,
                        ),
                    ] + rest
                }
            } else {
                rest
            }
        }
    }
}

/// The UUID among `ncmds` load commands starting at `offset`: the 16
/// payload bytes of the first `LC_UUID` command, under the same size
/// validation as the segment walk.
pub open spec fn find_uuid_in_commands(data: Seq<u8>, ncmds: nat, offset: int) -> Option<Seq<u8>>
    decreases ncmds,
{
    if ncmds == 0 || offset < 0 || offset + 8 > data.len() {
        None
    } else {
        let cmd = u32_le_at(data, offset);
        let cmdsize = u32_le_at(data, offset + 4) as int;
        if cmdsize == 0 || offset + cmdsize > data.len() {
            None
        } else if cmd == LC_UUID {
            if cmdsize < UUID_COMMAND_SIZE {
                None
            } else {
                Some(data.subrange(offset + 8, offset + 24))
            }
        } else {
            find_uuid_in_commands(data, (ncmds - 1) as nat, offset + cmdsize)
        }
    }
}

impl Segment {
    /// This segment's name: its raw name field up to the first NUL.
    pub fn name(&self) -> (r: Vec<u8>)
        ensures
            r@ == cstr_prefix(segment_view(*self).1),
    {
        let raw: &Vec<u8> = match self {
            Segment::Segment32(c) => &c.segname,
            Segment::Segment64(c) => &c.segname,
        };
        proof {
            assert(raw@ == segment_view(*self).1);
        }
        let mut i: usize = 0;
        while i < raw.len()
            invariant
                i <= raw@.len(),
                raw@ == segment_view(*self).1,
                nul_index_from(raw@, 0) == nul_index_from(raw@, i as int),
            decreases raw@.len() - i,
        {
            if raw[i] == 0 {
                proof {
                    assert(nul_index_from(raw@, i as int) == i as int);
                }
                return vstd::slice::slice_to_vec(vstd::slice::slice_subrange(
                    raw.as_slice(),
                    0,
                    i,
                ));
            }
            i = i + 1;
        }
        proof {
            assert(nul_index_from(raw@, i as int) == raw@.len());
        }
        vstd::slice::slice_to_vec(vstd::slice::slice_subrange(raw.as_slice(), 0, raw.len()))
    }

    /// Whether this is a code segment: the one named `__TEXT`.
    pub fn is_code(&self) -> (r: bool)
        ensures
            r == (cstr_prefix(segment_view(*self).1) == text_segment_name()),
    {
        let name = self.name();
        let expected = text_name_bytes();
        bytes_equal(name.as_slice(), expected.as_slice())
    }

    /// Whether this segment occupies virtual memory at runtime; the code
    /// segment is the one known to.
    pub fn is_load(&self) -> (r: bool)
        ensures
            r == (cstr_prefix(segment_view(*self).1) == text_segment_name()),
    {
        self.is_code()
    }

    /// This segment's stated virtual memory address.
    pub fn stated_virtual_memory_address(&self) -> (r: Svma)
        requires
            segment_view(*self).2 <= usize::MAX,
        ensures
            r.0 == segment_view(*self).2,
    {
        match self {
            Segment::Segment32(c) => Svma(c.vmaddr as usize),
            Segment::Segment64(c) => Svma(c.vmaddr as usize),
        }
    }

    /// The length of this segment in memory, in bytes.
    pub fn len(&self) -> (r: usize)
        requires
            segment_view(*self).3 <= usize::MAX,
        ensures
            r == segment_view(*self).3,
    {
        match self {
            Segment::Segment32(c) => c.vmsize as usize,
            Segment::Segment64(c) => c.vmsize as usize,
        }
    }

    /// This segment's actual virtual memory address: the stated address with
    /// the owning image's slide applied, wrapping at the pointer width.
    pub fn actual_virtual_memory_address(&self, shlib: &SharedLibrary) -> (r: Avma)
        requires
            segment_view(*self).2 <= usize::MAX,
        ensures
            r.0 == biased_address(segment_view(*self).2, shlib.slide as int),
    {
        self.stated_virtual_memory_address().with_bias(shlib.virtual_memory_bias())
    }

    /// Whether the half-open stated address range contains the given
    /// address.
    pub fn contains_svma(&self, address: Svma) -> (r: bool)
        requires
            segment_view(*self).2 <= usize::MAX,
            segment_view(*self).3 <= usize::MAX,
        ensures
            r == (segment_view(*self).2 <= address.0 < segment_view(*self).2 + segment_view(
                *self,
            ).3),
    {
        let start = self.stated_virtual_memory_address().0;
        let len = self.len();
        address.0 >= start && address.0 - start < len
    }

    /// Whether the half-open actual address range contains the given
    /// address.
    pub fn contains_avma(&self, shlib: &SharedLibrary, address: Avma) -> (r: bool)
        requires
            segment_view(*self).2 <= usize::MAX,
            segment_view(*self).3 <= usize::MAX,
        ensures
            r == (biased_address(segment_view(*self).2, shlib.slide as int) <= address.0
                < biased_address(segment_view(*self).2, shlib.slide as int) + segment_view(
                *self,
            ).3),
    {
        let start = self.actual_virtual_memory_address(shlib).0;
        let len = self.len();
        address.0 >= start && address.0 - start < len
    }
}

/// The bytes of the code segment's name, `__TEXT`.
fn text_name_bytes() -> (r: Vec<u8>)
    ensures
        r@ == text_segment_name(),
{
    let mut v: Vec<u8> = Vec::new();
    v.push(95);
    v.push(95);
    v.push(84);
    v.push(69);
    v.push(88);
    v.push(84);
    proof {
        assert(v@ =~= text_segment_name());
    }
    v
}

/// The width of a Mach image, told apart by its header's magic number.
#[derive(Debug, PartialEq, Eq, Structural, Clone, Copy)]
pub enum MachType {
    /// A 32-bit Mach image.
    Mach32,
    /// A 64-bit Mach image.
    Mach64,
}

impl MachType {
    /// Classify a header by its magic number; anything else is not a Mach
    /// image this walker reads.
    pub fn from_magic(magic: u32) -> (r: Option<MachType>)
        ensures
            r == if magic == MH_MAGIC {
                Some(MachType::Mach32)
            } else if magic == MH_MAGIC_64 {
                Some(MachType::Mach64)
            } else {
                None::<MachType>
            },
    {
        if magic == MH_MAGIC {
            Some(MachType::Mach32)
        } else if magic == MH_MAGIC_64 {
            Some(MachType::Mach64)
        } else {
            None
        }
    }
}

/// A Mach header, as much of it as the walker reads: its width and its
/// command count.
#[derive(Debug, PartialEq, Eq, Structural, Clone, Copy)]
pub enum MachHeader {
    /// A 32-bit header with its command count.
    Header32(u32),
    /// A 64-bit header with its command count.
    Header64(u32),
}

impl MachHeader {
    /// Classify a header by its magic number and keep its command count;
    /// anything else is not a Mach image this walker reads.
    pub fn from_magic(magic: u32, ncmds: u32) -> (r: Option<MachHeader>)
        ensures
            r == if magic == MH_MAGIC {
                Some(MachHeader::Header32(ncmds))
            } else if magic == MH_MAGIC_64 {
                Some(MachHeader::Header64(ncmds))
            } else {
                None::<MachHeader>
            },
    {
        match MachType::from_magic(magic) {
            Some(MachType::Mach32) => Some(MachHeader::Header32(ncmds)),
            Some(MachType::Mach64) => Some(MachHeader::Header64(ncmds)),
            None => None,
        }
    }

    /// How many load commands follow the header.
    pub fn ncmds(&self) -> (r: u32)
        ensures
            r as nat == header_ncmds(*self),
    {
        match self {
            MachHeader::Header32(n) => *n,
            MachHeader::Header64(n) => *n,
        }
    }
}

/// The command count a header states.
pub open spec fn header_ncmds(h: MachHeader) -> nat {
    match h {
        MachHeader::Header32(n) => n as nat,
        MachHeader::Header64(n) => n as nat,
    }
}

/// A shared library mapped into the process, as the dynamic loader reports
/// it: its header, the bytes of its load-command list, its slide, and its
/// name.
#[derive(Debug)]
pub struct SharedLibrary {
    /// The image's Mach header: width and command count.
    pub header: MachHeader,
    /// The load-command bytes that follow the header, as captured at
    /// enumeration time.
    pub commands: Vec<u8>,
    /// The image's slide: the bias the loader applied.
    pub slide: usize,
    /// The image's name, in platform bytes.
    pub name: Vec<u8>,
}

/// The segments an image's load-command list parses to.
pub open spec fn library_segments(lib: SharedLibrary) -> Seq<(bool, Seq<u8>, int, int)> {
    command_segments(lib.commands@, header_ncmds(lib.header), 0)
}

impl SharedLibrary {
    /// Assemble an image record from what the dynamic loader reports.
    pub fn new(header: MachHeader, commands: Vec<u8>, slide: usize, name: Vec<u8>) -> (r: Self)
        ensures
            r.header == header,
            r.commands == commands,
            r.slide == slide,
            r.name == name,
    {
        SharedLibrary { header, commands, slide, name }
    }

    /// The image's name, in platform bytes.
    pub fn name(&self) -> (r: &[u8])
        ensures
            r@ == self.name@,
    {
        self.name.as_slice()
    }

    /// The slide the loader applied to this image.
    pub fn virtual_memory_bias(&self) -> (r: Bias)
        ensures
            r.0 == self.slide,
    {
        Bias(self.slide)
    }

    /// Translate an actual address within this image back to a stated one by
    /// removing the image's slide.
    pub fn avma_to_svma(&self, address: Avma) -> (r: Svma)
        ensures
            r.0 == unbiased_address(address.0 as int, self.slide as int),
    {
        address.without_bias(self.virtual_memory_bias())
    }

    /// The name of a separate debug file; no such concept exists for Mach-O
    /// images.
    pub fn debug_name(&self) -> (r: Option<&[u8]>)
        ensures
            r is None,
    {
        None
    }

    /// The image's segments, in load-command order.
    pub fn segments(&self) -> (r: Vec<Segment>)
        ensures
            segment_views(r@) == library_segments(*self),
    {
        let data = self.commands.as_slice();
        let ghost all = library_segments(*self);
        let mut out: Vec<Segment> = Vec::new();
        let mut remaining = self.header.ncmds();
        let mut offset: usize = 0;
        proof {
            assert(segment_views(out@) =~= Seq::empty());
        }
        loop
            invariant_except_break
                offset <= data@.len(),
                data@ == self.commands@,
                segment_views(out@) + command_segments(data@, remaining as nat, offset as int)
                    == all,
            ensures
                segment_views(out@) == all,
            decreases remaining,
        {
            let ghost rest = command_segments(data@, remaining as nat, offset as int);
            if remaining == 0 || data.len() - offset < 8 {
                proof {
                    assert(segment_views(out@) =~= all);
                }
                break;
            }
            let cmd = vstd::bytes::u32_from_le_bytes(
                vstd::slice::slice_subrange(data, offset, offset + 4),
            );
            let cmdsize = vstd::bytes::u32_from_le_bytes(
                vstd::slice::slice_subrange(data, offset + 4, offset + 8),
            );
            if cmdsize == 0 || cmdsize as usize > data.len() - offset {
                proof {
                    assert(segment_views(out@) =~= all);
                }
                break;
            }
            if cmd == LC_SEGMENT {
                if cmdsize < SEGMENT_COMMAND_SIZE {
                    proof {
                        assert(segment_views(out@) =~= all);
                    }
                    break;
                }
                let segname = vstd::slice::slice_to_vec(
                    vstd::slice::slice_subrange(data, offset + 8, offset + 24),
                );
                let vmaddr = vstd::bytes::u32_from_le_bytes(
                    vstd::slice::slice_subrange(data, offset + 24, offset + 28),
                );
                let vmsize = vstd::bytes::u32_from_le_bytes(
                    vstd::slice::slice_subrange(data, offset + 28, offset + 32),
                );
                out.push(Segment::Segment32(SegmentCommand32 { segname, vmaddr, vmsize }));
                proof {
                    assert(segment_views(out@) =~= segment_views(out@.drop_last()) + seq![
                        segment_view(out@.last()),
                    ]);
                    assert(segment_views(out@) + command_segments(
                        data@,
                        (remaining - 1) as nat,
                        offset + cmdsize as int,
                    ) =~= all);
                }
            } else if cmd == LC_SEGMENT_64 {
                if cmdsize < SEGMENT_COMMAND_64_SIZE {
                    proof {
                        assert(segment_views(out@) =~= all);
                    }
                    break;
                }
                let segname = vstd::slice::slice_to_vec(
                    vstd::slice::slice_subrange(data, offset + 8, offset + 24),
                );
                let vmaddr = vstd::bytes::u64_from_le_bytes(
                    vstd::slice::slice_subrange(data, offset + 24, offset + 32),
                );
                let vmsize = vstd::bytes::u64_from_le_bytes(
                    vstd::slice::slice_subrange(data, offset + 32, offset + 40),
                );
                out.push(Segment::Segment64(SegmentCommand64 { segname, vmaddr, vmsize }));
                proof {
                    assert(segment_views(out@) =~= segment_views(out@.drop_last()) + seq![
                        segment_view(out@.last()),
                    ]);
                    assert(segment_views(out@) + command_segments(
                        data@,
                        (remaining - 1) as nat,
                        offset + cmdsize as int,
                    ) =~= all);
                }
            }
            offset = offset + cmdsize as usize;
            remaining = remaining - 1;
        }
        out
    }

    /// The image's UUID: the payload of its first `LC_UUID` load command.
    pub fn id(&self) -> (r: Option<SharedLibraryId>)
        ensures
            match r {
                Some(id) => {
                    &&& find_uuid_in_commands(self.commands@, header_ncmds(self.header), 0)
                        is Some
                    &&& id matches SharedLibraryId::Uuid(u) && u@ == find_uuid_in_commands(
                        self.commands@,
                        header_ncmds(self.header),
                        0,
                    )->Some_0
                },
                None => find_uuid_in_commands(self.commands@, header_ncmds(self.header), 0)
                    is None,
            },
    {
        let data = self.commands.as_slice();
        let mut remaining = self.header.ncmds();
        let mut offset: usize = 0;
        loop
            invariant_except_break
                offset <= data@.len(),
                data@ == self.commands@,
                find_uuid_in_commands(data@, remaining as nat, offset as int)
                    == find_uuid_in_commands(data@, header_ncmds(self.header), 0),
            ensures
                find_uuid_in_commands(data@, header_ncmds(self.header), 0) is None,
            decreases remaining,
        {
            if remaining == 0 || data.len() - offset < 8 {
                break;
            }
            let cmd = vstd::bytes::u32_from_le_bytes(
                vstd::slice::slice_subrange(data, offset, offset + 4),
            );
            let cmdsize = vstd::bytes::u32_from_le_bytes(
                vstd::slice::slice_subrange(data, offset + 4, offset + 8),
            );
            if cmdsize == 0 || cmdsize as usize > data.len() - offset {
                break;
            }
            if cmd == LC_UUID {
                if cmdsize < UUID_COMMAND_SIZE {
                    break;
                }
                let raw = vstd::slice::slice_subrange(data, offset + 8, offset + 24);
                let mut uuid: [u8; 16] = [0u8; 16];
                let mut k: usize = 0;
                while k < 16
                    invariant
                        k <= 16,
                        raw@.len() == 16,
                        forall|j: int| 0 <= j < k ==> uuid@[j] == raw@[j],
                    decreases 16 - k,
                {
                    let b = *vstd::slice::slice_index_get(raw, k);
                    uuid[k] = b;
                    k = k + 1;
                }
                proof {
                    assert(uuid@ =~= raw@);
                }
                return Some(SharedLibraryId::Uuid(uuid));
            }
            offset = offset + cmdsize as usize;
            remaining = remaining - 1;
        }
        None
    }

    /// The debug ID of this image: the same as its UUID.
    pub fn debug_id(&self) -> (r: Option<SharedLibraryId>)
        ensures
            r is Some <==> find_uuid_in_commands(self.commands@, header_ncmds(self.header), 0)
                is Some,
    {
        self.id()
    }

    /// The actual address at which the image is loaded: the biased address
    /// of its first load segment, or the top of the address space when the
    /// image has none.
    pub fn actual_load_addr(&self) -> (r: Avma)
        requires
            loads_fit_usize(library_segments(*self)),
        ensures
            r.0 == spec_actual_load_addr(library_segments(*self), self.slide as int),
    {
        let ghost views = library_segments(*self);
        let segments = self.segments();
        let bias = self.virtual_memory_bias();
        let mut i: usize = 0;
        while i < segments.len()
            invariant
                i <= segments@.len(),
                bias.0 == self.slide,
                views == library_segments(*self),
                segment_views(segments@) == views,
                segments@.len() == views.len(),
                loads_fit_usize(views),
                first_load_seg_from(views, 0) == first_load_seg_from(views, i as int),
            decreases segments@.len() - i,
        {
            if segments[i].is_code() {
                proof {
                    assert(views[i as int] == segment_view(segments@[i as int]));
                    assert(first_load_seg_from(views, i as int) == Some(i as int));
                }
                return segments[i].stated_virtual_memory_address().with_bias(bias);
            }
            proof {
                assert(views[i as int] == segment_view(segments@[i as int]));
            }
            i = i + 1;
        }
        Avma(usize::MAX)
    }

    /// The stated address at which the image prefers to be loaded: the
    /// stated address of its first load segment, or the top of the address
    /// space when the image has none.
    pub fn stated_load_addr(&self) -> (r: Svma)
        requires
            loads_fit_usize(library_segments(*self)),
        ensures
            r.0 == spec_stated_load_addr(library_segments(*self)),
    {
        let ghost views = library_segments(*self);
        let segments = self.segments();
        let mut i: usize = 0;
        while i < segments.len()
            invariant
                i <= segments@.len(),
                views == library_segments(*self),
                segment_views(segments@) == views,
                segments@.len() == views.len(),
                loads_fit_usize(views),
                first_load_seg_from(views, 0) == first_load_seg_from(views, i as int),
            decreases segments@.len() - i,
        {
            if segments[i].is_code() {
                proof {
                    assert(views[i as int] == segment_view(segments@[i as int]));
                    assert(first_load_seg_from(views, i as int) == Some(i as int));
                }
                return segments[i].stated_virtual_memory_address();
            }
            proof {
                assert(views[i as int] == segment_view(segments@[i as int]));
            }
            i = i + 1;
        }
        Svma(usize::MAX)
    }

    /// Visit each of the given images in order, handing each to the
    /// callback, until the callback returns `Break` or the images run out;
    /// returns how many images were visited. The unverified shell must hold
    /// the loader lock while it captures the records it passes here.
    pub fn each<F: Fn(&SharedLibrary) -> IterationControl>(
        libraries: &Vec<SharedLibrary>,
        f: &F,
    ) -> (visited: usize)
        requires
            forall|i: int|
                0 <= i < libraries@.len() ==> #[trigger] call_requires(*f, (&libraries@[i],)),
        ensures
            visited <= libraries@.len(),
            libraries@.len() > 0 ==> visited >= 1,
            forall|i: int|
                0 <= i < visited - 1 ==> call_ensures(
                    *f,
                    (&libraries@[i],),
                    IterationControl::Continue,
                ),
            visited < libraries@.len() ==> call_ensures(
                *f,
                (&libraries@[visited - 1],),
                IterationControl::Break,
            ),
            visited >= 1 ==> exists|c: IterationControl|
                #[trigger] call_ensures(*f, (&libraries@[visited - 1],), c),
    {
        crate::each_image(libraries, f)
    }
}

/// Whether a parsed segment is a load segment: on this platform, the code
/// segment is the one known to occupy memory.
pub open spec fn is_load_view(v: (bool, Seq<u8>, int, int)) -> bool {
    cstr_prefix(v.1) == text_segment_name()
}

/// The index of the first load segment at or after position `i`.
pub open spec fn first_load_seg_from(views: Seq<(bool, Seq<u8>, int, int)>, i: int) -> Option<int>
    decreases views.len() - i,
    when 0 <= i <= views.len()
{
    if i >= views.len() {
        None
    } else if is_load_view(views[i]) {
        Some(i)
    } else {
        first_load_seg_from(views, i + 1)
    }
}

/// Whether every load segment's stated address and length fit the
/// platform's address width.
pub open spec fn loads_fit_usize(views: Seq<(bool, Seq<u8>, int, int)>) -> bool {
    forall|i: int|
        0 <= i < views.len() && is_load_view(#[trigger] views[i]) ==> views[i].2 <= usize::MAX
            && views[i].3 <= usize::MAX
}

/// The stated address of the image's first load segment, or the top of the
/// address space when it has none.
pub open spec fn spec_stated_load_addr(views: Seq<(bool, Seq<u8>, int, int)>) -> int {
    match first_load_seg_from(views, 0) {
        Some(i) => views[i].2,
        None => usize::MAX as int,
    }
}

/// The biased address of the image's first load segment, or the top of the
/// address space when it has none.
pub open spec fn spec_actual_load_addr(views: Seq<(bool, Seq<u8>, int, int)>, bias: int) -> int {
    match first_load_seg_from(views, 0) {
        Some(i) => biased_address(views[i].2, bias),
        None => usize::MAX as int,
    }
}

/// Whether every load segment's biased end address fits the platform's
/// address width.
pub open spec fn load_ends_fit_usize(views: Seq<(bool, Seq<u8>, int, int)>, bias: int) -> bool {
    forall|i: int|
        0 <= i < views.len() && is_load_view(#[trigger] views[i]) ==> biased_address(
            views[i].2,
            bias,
        ) + views[i].3 <= usize::MAX
}

/// The largest biased end address over the load segments at or after
/// position `i`.
pub open spec fn max_load_end_from(
    views: Seq<(bool, Seq<u8>, int, int)>,
    bias: int,
    i: int,
) -> Option<int>
    decreases views.len() - i,
    when 0 <= i <= views.len()
{
    if i >= views.len() {
        None
    } else {
        let rest = max_load_end_from(views, bias, i + 1);
        if is_load_view(views[i]) {
            let end = biased_address(views[i].2, bias) + views[i].3;
            match rest {
                None => Some(end),
                Some(m) => Some(
                    if end > m {
                        end
                    } else {
                        m
                    },
                ),
            }
        } else {
            rest
        }
    }
}

/// The size of the image: from its actual load address to the largest end
/// address of any of its load segments; zero when it has no load segment.
pub open spec fn spec_image_len(views: Seq<(bool, Seq<u8>, int, int)>, bias: int) -> int {
    (match max_load_end_from(views, bias, 0) {
        Some(m) => m,
        None => usize::MAX as int,
    }) - spec_actual_load_addr(views, bias)
}

/// Whether every segment view carries nonnegative address and size numbers,
/// as every view the walker parses does.
pub open spec fn views_nonneg(views: Seq<(bool, Seq<u8>, int, int)>) -> bool {
    forall|j: int|
        0 <= j < views.len() ==> #[trigger] views[j].2 >= 0 && views[j].3 >= 0
}

/// Every view the load-command walker parses carries nonnegative numbers:
/// they come from unsigned fields.
proof fn lemma_command_segments_nonneg(data: Seq<u8>, ncmds: nat, offset: int)
    ensures
        views_nonneg(command_segments(data, ncmds, offset)),
    decreases ncmds,
{
    if !(ncmds == 0 || offset < 0 || offset + 8 > data.len()) {
        let cmdsize = u32_le_at(data, offset + 4) as int;
        if !(cmdsize == 0 || offset + cmdsize > data.len()) {
            lemma_command_segments_nonneg(data, (ncmds - 1) as nat, offset + cmdsize);
        }
    }
}

/// When an image has a load segment, the largest load end address is at
/// least the biased address of the first load segment.
proof fn lemma_max_end_covers_first_load(
    views: Seq<(bool, Seq<u8>, int, int)>,
    bias: int,
    i: int,
)
    requires
        0 <= i <= views.len(),
        views_nonneg(views),
        first_load_seg_from(views, i) is Some,
    ensures
        max_load_end_from(views, bias, i) is Some,
        max_load_end_from(views, bias, i)->Some_0 >= biased_address(
            views[first_load_seg_from(views, i)->Some_0].2,
            bias,
        ),
    decreases views.len() - i,
{
    if i < views.len() && !is_load_view(views[i]) {
        lemma_max_end_covers_first_load(views, bias, i + 1);
    } else if i < views.len() {
        if first_load_seg_from(views, i + 1) is Some {
            lemma_max_end_covers_first_load(views, bias, i + 1);
        } else {
            lemma_no_load_no_end(views, bias, i + 1);
        }
    }
}

/// An image without load segments has no load end address.
proof fn lemma_no_load_no_end(views: Seq<(bool, Seq<u8>, int, int)>, bias: int, i: int)
    requires
        0 <= i <= views.len(),
        first_load_seg_from(views, i) is None,
    ensures
        max_load_end_from(views, bias, i) is None,
    decreases views.len() - i,
{
    if i < views.len() {
        lemma_no_load_no_end(views, bias, i + 1);
    }
}

/// The first load segment an enumeration finds is a load segment within the
/// list.
proof fn lemma_first_load_is_load(views: Seq<(bool, Seq<u8>, int, int)>, i: int)
    requires
        0 <= i <= views.len(),
        first_load_seg_from(views, i) is Some,
    ensures
        i <= first_load_seg_from(views, i)->Some_0 < views.len(),
        is_load_view(views[first_load_seg_from(views, i)->Some_0]),
    decreases views.len() - i,
{
    if i < views.len() && !is_load_view(views[i]) {
        lemma_first_load_is_load(views, i + 1);
    }
}

/// Bias identity: for an image with a load segment, removing the image's
/// slide from its actual load address gives back its stated load address —
/// the round trip across the bias is the identity.
pub proof fn lemma_load_addr_round_trip(views: Seq<(bool, Seq<u8>, int, int)>, bias: int)
    requires
        0 <= bias <= usize::MAX,
        loads_fit_usize(views),
        views_nonneg(views),
        first_load_seg_from(views, 0) is Some,
    ensures
        unbiased_address(spec_actual_load_addr(views, bias), bias) == spec_stated_load_addr(
            views,
        ),
{
    let i = first_load_seg_from(views, 0)->Some_0;
    lemma_first_load_is_load(views, 0);
    crate::lemma_bias_round_trip(views[i].2, bias);
}

impl SharedLibrary {
    /// The size of the image: the span from its actual load address to the
    /// largest end address of any of its load segments.
    pub fn len(&self) -> (r: usize)
        requires
            loads_fit_usize(library_segments(*self)),
            load_ends_fit_usize(library_segments(*self), self.slide as int),
        ensures
            r == spec_image_len(library_segments(*self), self.slide as int),
    {
        let ghost views = library_segments(*self);
        let ghost bias = self.slide as int;
        let segments = self.segments();
        let mut end_address: usize = usize::MAX;
        let mut have_end: bool = false;
        let mut i: usize = segments.len();
        while i > 0
            invariant
                i <= segments@.len(),
                views == library_segments(*self),
                segment_views(segments@) == views,
                segments@.len() == views.len(),
                self.slide as int == bias,
                loads_fit_usize(views),
                load_ends_fit_usize(views, bias),
                match max_load_end_from(views, bias, i as int) {
                    Some(m) => have_end && end_address == m,
                    None => !have_end && end_address == usize::MAX,
                },
            decreases i,
        {
            i = i - 1;
            proof {
                assert(views[i as int] == segment_view(segments@[i as int]));
            }
            if segments[i].is_code() {
                let end = segments[i].stated_virtual_memory_address().with_bias(
                    self.virtual_memory_bias(),
                ).0 + segments[i].len();
                if !have_end || end > end_address {
                    end_address = end;
                    have_end = true;
                } else {
                    proof {
                        assert(max_load_end_from(views, bias, i as int) == Some(
                            end_address as int,
                        ));
                    }
                }
            }
        }
        proof {
            lemma_command_segments_nonneg(self.commands@, header_ncmds(self.header), 0);
            if first_load_seg_from(views, 0) is Some {
                lemma_max_end_covers_first_load(views, bias, 0);
            } else {
                lemma_no_load_no_end(views, bias, 0);
            }
        }
        end_address - self.actual_load_addr().0
    }
}

} // verus!
