//! Find the set of shared libraries currently mapped into a process, with a
//! uniform, verified view of each image's name, identity, load bias, and
//! memory segments.
//!
//! The core of the crate is the per-platform header parsing: ELF program
//! headers and note records (`linux`), Mach-O load commands (`macos`), and PE
//! section headers and debug directories (`windows`). Each parser works on
//! plain values copied out of process memory by a thin unverified shell; the
//! traversal, bounds handling, and all derived address arithmetic are
//! verified here.
//!
//! Addresses come in two flavours, following the usual profiler terminology:
//!
//! * **SVMA** ("stated virtual memory address"): an address as recorded in an
//!   image's own metadata, typically small.
//! * **AVMA** ("actual virtual memory address"): the address at which a byte
//!   actually resides in the running process, `SVMA + bias`.
//! * **Bias**: the per-image constant offset `AVMA - SVMA` applied by the
//!   loader; arithmetic on it wraps at the pointer width.

use vstd::prelude::*;

pub mod linux;
pub mod macos;
pub mod unsupported;
pub mod windows;

verus! {

/// Whether this build target has a native enumerator.
pub const TARGET_SUPPORTED: bool = true;

/// The width of the address space, as a mathematical bound: `usize::MAX + 1`.
pub open spec fn address_space() -> int {
    usize::MAX as int + 1
}

/// A stated virtual memory address: an address as an image's own metadata
/// records it, before the loader applies the bias.
#[derive(Clone, Copy, Debug, PartialEq, Eq, Structural, PartialOrd, Ord, Hash)]
pub struct Svma(pub usize);

/// An actual virtual memory address: where a byte really resides in this
/// process, `stated address + bias`, wrapping at the pointer width.
#[derive(Clone, Copy, Debug, PartialEq, Eq, Structural, PartialOrd, Ord, Hash)]
pub struct Avma(pub usize);

/// The per-image offset between actual and stated addresses.
#[derive(Clone, Copy, Debug, PartialEq, Eq, Structural, PartialOrd, Ord, Hash)]
pub struct Bias(pub usize);

impl Default for Svma {
    /// The zero address.
    fn default() -> (r: Self)
        ensures
            r.0 == 0,
    {
        Svma(0)
    }
}

impl Default for Avma {
    /// The zero address.
    fn default() -> (r: Self)
        ensures
            r.0 == 0,
    {
        Avma(0)
    }
}

impl Default for Bias {
    /// The zero offset.
    fn default() -> (r: Self)
        ensures
            r.0 == 0,
    {
        Bias(0)
    }
}

/// What `stated + bias` comes to once it wraps at the pointer width.
pub open spec fn biased_address(stated: int, bias: int) -> int
    recommends
        0 <= stated < address_space(),
        0 <= bias < address_space(),
{
    if stated + bias <= usize::MAX {
        stated + bias
    } else {
        stated + bias - address_space()
    }
}

/// What `actual - bias` comes to once it wraps at the pointer width.
pub open spec fn unbiased_address(actual: int, bias: int) -> int
    recommends
        0 <= actual < address_space(),
        0 <= bias < address_space(),
{
    if actual - bias >= 0 {
        actual - bias
    } else {
        actual - bias + address_space()
    }
}

/// Containment consistency: a segment of nonzero length contains its own
/// stated address, and does not contain the address one past its end — the
/// address range every segment's `contains_svma` tests is the half-open
/// interval from its stated address over its length.
pub proof fn lemma_containment_consistency(start: int, len: int)
    requires
        len > 0,
    ensures
        start <= start < start + len,
        !(start <= start + len < start + len),
{
}

/// Applying a bias and then removing it returns the stated address: the
/// round trip across the bias is the identity on any representable address.
pub proof fn lemma_bias_round_trip(stated: int, bias: int)
    requires
        0 <= stated < address_space(),
        0 <= bias < address_space(),
    ensures
        unbiased_address(biased_address(stated, bias), bias) == stated,
{
}

impl Svma {
    /// Apply a bias, wrapping at the pointer width; valid even for a stated
    /// address of zero.
    pub fn with_bias(self, bias: Bias) -> (r: Avma)
        ensures
            r.0 == biased_address(self.0 as int, bias.0 as int),
    {
        Avma(self.0.wrapping_add(bias.0))
    }
}

impl Avma {
    /// Remove a bias, wrapping at the pointer width.
    pub fn without_bias(self, bias: Bias) -> (r: Svma)
        ensures
            r.0 == unbiased_address(self.0 as int, bias.0 as int),
    {
        Svma(self.0.wrapping_sub(bias.0))
    }
}

/// The ASCII code of the lower-case hexadecimal digit for a value below 16.
pub open spec fn hex_digit(v: u8) -> u8
    recommends
        v < 16,
{
    if v < 10 {
        (48 + v) as u8
    } else {
        (87 + v) as u8
    }
}

/// The ASCII code of the upper-case hexadecimal digit for a value below 16.
pub open spec fn hex_digit_upper(v: u8) -> u8
    recommends
        v < 16,
{
    if v < 10 {
        (48 + v) as u8
    } else {
        (55 + v) as u8
    }
}

/// The two ASCII digits of one byte in lower-case hexadecimal.
pub open spec fn byte_hex(b: u8) -> Seq<u8> {
    seq![hex_digit(b / 16), hex_digit(b % 16)]
}

/// The two ASCII digits of one byte in upper-case hexadecimal.
pub open spec fn byte_hex_upper(b: u8) -> Seq<u8> {
    seq![hex_digit_upper(b / 16), hex_digit_upper(b % 16)]
}

/// The first `n` bytes of `s` in lower-case hexadecimal.
pub open spec fn hex_of_prefix(s: Seq<u8>, n: int) -> Seq<u8>
    recommends
        0 <= n <= s.len(),
    decreases n,
{
    if n <= 0 {
        Seq::empty()
    } else {
        hex_of_prefix(s, n - 1) + byte_hex(s[n - 1])
    }
}

/// Whether a dash is inserted before the hex digits of byte `idx` when a
/// 16-byte identifier is grouped like a GUID.
pub open spec fn guid_dash_before(idx: int) -> bool {
    idx == 4 || idx == 6 || idx == 8 || idx == 10
}

/// The first `n` bytes of `s` in hexadecimal, grouped like a GUID, in lower
/// case when `upper` is false and upper case otherwise.
pub open spec fn guid_hex_of_prefix(s: Seq<u8>, n: int, upper: bool) -> Seq<u8>
    recommends
        0 <= n <= s.len(),
    decreases n,
{
    if n <= 0 {
        Seq::empty()
    } else {
        let digits = if upper {
            byte_hex_upper(s[n - 1])
        } else {
            byte_hex(s[n - 1])
        };
        if guid_dash_before(n - 1) {
            guid_hex_of_prefix(s, n - 1, upper) + seq![45u8] + digits
        } else {
            guid_hex_of_prefix(s, n - 1, upper) + digits
        }
    }
}

/// A number in lower-case hexadecimal with no leading zeros (a single zero
/// digit for zero itself).
pub open spec fn u32_hex(v: u32) -> Seq<u8>
    decreases v,
{
    if v < 16 {
        seq![hex_digit(v as u8)]
    } else {
        u32_hex(v / 16) + seq![hex_digit((v % 16) as u8)]
    }
}

/// A number as exactly `n` upper-case hexadecimal digits, zero-padded.
pub open spec fn u32_hex_padded(v: u32, n: nat) -> Seq<u8>
    decreases n,
{
    if n == 0 {
        Seq::empty()
    } else {
        u32_hex_padded(v / 16, (n - 1) as nat) + seq![hex_digit_upper((v % 16) as u8)]
    }
}

/// Represents an ID for a shared library: the build artifact's identity as
/// each platform records it.
#[derive(Debug, Hash)]
pub enum SharedLibraryId {
    /// A UUID (used on Mach-O images).
    Uuid([u8; 16]),
    /// A GNU build ID (an ELF note payload).
    GnuBuildId(Vec<u8>),
    /// The PE timestamp and image size.
    PeSignature(u32, u32),
    /// A PDB GUID and age.
    PdbSignature([u8; 16], u32),
}

/// The raw identifying bytes of a shared library ID; empty for a PE
/// signature, whose identity is its two numbers.
pub open spec fn id_bytes(id: SharedLibraryId) -> Seq<u8> {
    match id {
        SharedLibraryId::Uuid(bytes) => bytes@,
        SharedLibraryId::GnuBuildId(bytes) => bytes@,
        SharedLibraryId::PeSignature(_, _) => Seq::empty(),
        SharedLibraryId::PdbSignature(bytes, _) => bytes@,
    }
}

/// The ASCII text form of a shared library ID: hexadecimal, grouped like a
/// GUID where the platform displays it that way.
pub open spec fn id_display(id: SharedLibraryId) -> Seq<u8> {
    match id {
        SharedLibraryId::Uuid(bytes) => guid_hex_of_prefix(bytes@, 16, false),
        SharedLibraryId::GnuBuildId(bytes) => hex_of_prefix(bytes@, bytes@.len() as int),
        SharedLibraryId::PeSignature(timestamp, size_of_image) => u32_hex_padded(timestamp, 8)
            + u32_hex(size_of_image),
        SharedLibraryId::PdbSignature(bytes, age) => guid_hex_of_prefix(bytes@, 16, true)
            + u32_hex(age),
    }
}

impl SharedLibraryId {
    /// Returns the raw bytes of the shared library ID.
    pub fn as_bytes(&self) -> (r: &[u8])
        ensures
            r@ == id_bytes(*self),
    {
        match *self {
            SharedLibraryId::Uuid(ref bytes) => bytes.as_slice(),
            SharedLibraryId::GnuBuildId(ref bytes) => bytes.as_slice(),
            SharedLibraryId::PeSignature(_, _) => {
                let empty: &[u8] = &[];
                empty
            },
            SharedLibraryId::PdbSignature(ref bytes, _) => bytes.as_slice(),
        }
    }
}

/// Whether two byte strings hold the same bytes.
pub fn bytes_equal(a: &[u8], b: &[u8]) -> (r: bool)
    ensures
        r <==> a@ == b@,
{
    if a.len() != b.len() {
        return false;
    }
    let mut i: usize = 0;
    while i < a.len()
        invariant
            i <= a@.len(),
            a@.len() == b@.len(),
            forall|j: int| 0 <= j < i ==> a@[j] == b@[j],
        decreases a@.len() - i,
    {
        if a[i] != b[i] {
            return false;
        }
        i = i + 1;
    }
    proof {
        assert(a@ =~= b@);
    }
    true
}

/// The executable form of `hex_digit` / `hex_digit_upper`.
fn hex_digit_ascii(v: u8, upper: bool) -> (r: u8)
    requires
        v < 16,
    ensures
        r == if upper {
            hex_digit_upper(v)
        } else {
            hex_digit(v)
        },
{
    if v < 10 {
        48 + v
    } else if upper {
        55 + v
    } else {
        87 + v
    }
}

/// Append the two hex digits of one byte.
fn push_byte_hex(out: &mut Vec<u8>, b: u8, upper: bool)
    ensures
        final(out)@ == old(out)@ + if upper {
            byte_hex_upper(b)
        } else {
            byte_hex(b)
        },
{
    out.push(hex_digit_ascii(b / 16, upper));
    out.push(hex_digit_ascii(b % 16, upper));
}

/// Append a 16-byte identifier in GUID-grouped hexadecimal.
fn push_guid_hex(out: &mut Vec<u8>, bytes: &[u8; 16], upper: bool)
    ensures
        final(out)@ == old(out)@ + guid_hex_of_prefix(bytes@, 16, upper),
{
    let ghost orig = out@;
    let mut idx: usize = 0;
    while idx < 16
        invariant
            idx <= 16,
            out@ == orig + guid_hex_of_prefix(bytes@, idx as int, upper),
        decreases 16 - idx,
    {
        if idx == 4 || idx == 6 || idx == 8 || idx == 10 {
            out.push(45);
        }
        push_byte_hex(out, bytes[idx], upper);
        proof {
            assert(out@ =~= orig + guid_hex_of_prefix(bytes@, idx + 1, upper));
        }
        idx = idx + 1;
    }
}

/// Append a number in lower-case hexadecimal with no leading zeros.
fn push_u32_hex(out: &mut Vec<u8>, v: u32)
    ensures
        final(out)@ == old(out)@ + u32_hex(v),
    decreases v,
{
    if v < 16 {
        out.push(hex_digit_ascii(v as u8, false));
    } else {
        push_u32_hex(out, v / 16);
        out.push(hex_digit_ascii((v % 16) as u8, false));
    }
}

/// Append a number as exactly `digits` zero-padded upper-case hex digits.
fn push_u32_hex_padded(out: &mut Vec<u8>, v: u32, digits: usize)
    ensures
        final(out)@ == old(out)@ + u32_hex_padded(v, digits as nat),
    decreases digits,
{
    if digits > 0 {
        push_u32_hex_padded(out, v / 16, digits - 1);
        out.push(hex_digit_ascii((v % 16) as u8, true));
    }
}

impl SharedLibraryId {
    /// The ASCII text form of this ID: hexadecimal, grouped like a GUID for
    /// UUIDs and PDB signatures, as each platform conventionally displays it.
    pub fn to_hex_bytes(&self) -> (r: Vec<u8>)
        ensures
            r@ == id_display(*self),
    {
        let mut out: Vec<u8> = Vec::new();
        match *self {
            SharedLibraryId::Uuid(ref bytes) => {
                push_guid_hex(&mut out, bytes, false);
            },
            SharedLibraryId::GnuBuildId(ref bytes) => {
                let ghost all = bytes@;
                let mut idx: usize = 0;
                while idx < bytes.len()
                    invariant
                        idx <= all.len(),
                        bytes@ == all,
                        out@ == hex_of_prefix(all, idx as int),
                    decreases all.len() - idx,
                {
                    push_byte_hex(&mut out, bytes[idx], false);
                    proof {
                        assert(out@ =~= hex_of_prefix(all, idx + 1));
                    }
                    idx = idx + 1;
                }
            },
            SharedLibraryId::PeSignature(timestamp, size_of_image) => {
                push_u32_hex_padded(&mut out, timestamp, 8);
                push_u32_hex(&mut out, size_of_image);
            },
            SharedLibraryId::PdbSignature(ref bytes, age) => {
                push_guid_hex(&mut out, bytes, true);
                push_u32_hex(&mut out, age);
            },
        }
        out
    }
}

impl PartialEq for SharedLibraryId {
    /// Equality is by raw value: the same variant with the same bytes and
    /// numbers.
    fn eq(&self, other: &Self) -> (r: bool) {
        match (self, other) {
            (SharedLibraryId::Uuid(a), SharedLibraryId::Uuid(b)) => bytes_equal(
                a.as_slice(),
                b.as_slice(),
            ),
            (SharedLibraryId::GnuBuildId(a), SharedLibraryId::GnuBuildId(b)) => bytes_equal(
                a.as_slice(),
                b.as_slice(),
            ),
            (
                SharedLibraryId::PeSignature(t1, s1),
                SharedLibraryId::PeSignature(t2, s2),
            ) => *t1 == *t2 && *s1 == *s2,
            (
                SharedLibraryId::PdbSignature(a, g1),
                SharedLibraryId::PdbSignature(b, g2),
            ) => bytes_equal(a.as_slice(), b.as_slice()) && *g1 == *g2,
            _ => false,
        }
    }
}

impl Eq for SharedLibraryId {

}

impl vstd::std_specs::cmp::PartialEqSpecImpl for SharedLibraryId {
    open spec fn obeys_eq_spec() -> bool {
        true
    }

    open spec fn eq_spec(&self, other: &Self) -> bool {
        match (self, other) {
            (SharedLibraryId::Uuid(a), SharedLibraryId::Uuid(b)) => a@ == b@,
            (SharedLibraryId::GnuBuildId(a), SharedLibraryId::GnuBuildId(b)) => a@ == b@,
            (
                SharedLibraryId::PeSignature(t1, s1),
                SharedLibraryId::PeSignature(t2, s2),
            ) => t1 == t2 && s1 == s2,
            (
                SharedLibraryId::PdbSignature(a, g1),
                SharedLibraryId::PdbSignature(b, g2),
            ) => a@ == b@ && g1 == g2,
            _ => false,
        }
    }
}

/// Control whether iteration over shared libraries should continue or stop.
#[derive(Clone, Copy, Debug, PartialEq, Eq, Structural)]
pub enum IterationControl {
    /// Stop iteration.
    Break,
    /// Continue iteration.
    Continue,
}

/// The enumeration driver every platform shares: visit each image in order,
/// handing each to the callback, until the callback returns `Break` or the
/// images run out; returns how many images were visited.
pub fn each_image<T, F: Fn(&T) -> IterationControl>(images: &Vec<T>, f: &F) -> (visited: usize)
    requires
        forall|i: int| 0 <= i < images@.len() ==> #[trigger] call_requires(*f, (&images@[i],)),
    ensures
        visited <= images@.len(),
        images@.len() > 0 ==> visited >= 1,
        forall|i: int|
            0 <= i < visited - 1 ==> call_ensures(*f, (&images@[i],), IterationControl::Continue),
        visited < images@.len() ==> call_ensures(
            *f,
            (&images@[visited - 1],),
            IterationControl::Break,
        ),
        visited >= 1 ==> exists|c: IterationControl|
            #[trigger] call_ensures(*f, (&images@[visited - 1],), c),
{
    let mut i: usize = 0;
    while i < images.len()
        invariant
            i <= images@.len(),
            forall|k: int| 0 <= k < images@.len() ==> #[trigger] call_requires(*f, (&images@[k],)),
            forall|k: int|
                0 <= k < i ==> call_ensures(*f, (&images@[k],), IterationControl::Continue),
        decreases images@.len() - i,
    {
        let control = f(&images[i]);
        match control {
            IterationControl::Break => {
                return i + 1;
            },
            IterationControl::Continue => {},
        }
        i = i + 1;
    }
    proof {
        if i >= 1 {
            assert(call_ensures(*f, (&images@[i - 1],), IterationControl::Continue));
        }
    }
    i
}

/// Break semantics: when the callback is sure to continue on each of the
/// first `k` images and sure to break on image `k`, an enumeration run
/// visits exactly `k + 1` images and no more. The facts about `visited` are
/// those the enumeration driver ensures of its result.
pub proof fn lemma_break_semantics<T, F: Fn(&T) -> IterationControl>(
    f: F,
    images: Seq<T>,
    visited: int,
    k: int,
)
    requires
        0 <= k < images.len(),
        forall|i: int, c: IterationControl|
            0 <= i < k && #[trigger] call_ensures(f, (&images[i],), c) ==> c
                == IterationControl::Continue,
        forall|c: IterationControl|
            call_ensures(f, (&images[k],), c) ==> c == IterationControl::Break,
        0 <= visited <= images.len(),
        images.len() > 0 ==> visited >= 1,
        forall|i: int|
            0 <= i < visited - 1 ==> call_ensures(f, (&images[i],), IterationControl::Continue),
        visited < images.len() ==> call_ensures(
            f,
            (&images[visited - 1],),
            IterationControl::Break,
        ),
        visited >= 1 ==> exists|c: IterationControl|
            #[trigger] call_ensures(f, (&images[visited - 1],), c),
    ensures
        visited == k + 1,
{
    if visited <= k {
        // The run would have recorded a `Break` from an image the callback
        // is sure to continue on.
        assert(visited < images.len());
        assert(call_ensures(f, (&images[visited - 1],), IterationControl::Break));
    } else if visited > k + 1 {
        // The run would have recorded a `Continue` from image `k`, on which
        // the callback is sure to break.
        assert(call_ensures(f, (&images[k],), IterationControl::Continue));
    }
}

} // verus!
