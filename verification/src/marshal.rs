//! String marshaling to the native toolkit's NUL-terminated byte convention.
//!
//! The toolkit reads every string argument as a pointer to a NUL-terminated
//! byte sequence.  Marshaling avoids allocation whenever the input already
//! ends in a single trailing NUL and holds no other NUL byte; otherwise the
//! input is copied into a caller-owned scratch buffer, every embedded NUL is
//! replaced by a printable placeholder, and exactly one trailing NUL is
//! appended.

use vstd::prelude::*;
use vstd::string::StringSliceAdditionalSpecFns;

verus! {

/// The printable placeholder (`b'?'`) that replaces an embedded NUL byte
/// before transmission: the wire protocol cannot carry embedded NULs.
pub const NUL_PLACEHOLDER: u8 = 63;

/// One byte after sanitizing: an embedded NUL becomes the placeholder,
/// every other byte is kept.
pub open spec fn sanitize_byte(b: u8) -> u8 {
    if b == 0 {
        NUL_PLACEHOLDER
    } else {
        b
    }
}

/// `s` is already a well-formed C string: non-empty, exactly one NUL,
/// standing at the end.  Such a sequence can be handed to the toolkit
/// directly, with no copy.
pub open spec fn is_c_string(s: Seq<u8>) -> bool {
    &&& s.len() > 0
    &&& s[s.len() - 1] == 0
    &&& forall|i: int| 0 <= i < s.len() - 1 ==> s[i] != 0
}

/// `s` with every NUL byte replaced by the placeholder.
pub open spec fn sanitized(s: Seq<u8>) -> Seq<u8> {
    s.map_values(|b: u8| sanitize_byte(b))
}

/// The byte sequence the native layer receives for input `s`: `s` itself on
/// the no-copy path, otherwise the sanitized copy with one appended NUL.
pub open spec fn marshaled_bytes(s: Seq<u8>) -> Seq<u8> {
    if is_c_string(s) {
        s
    } else {
        sanitized(s).push(0)
    }
}

/// The payload the native layer reads out of the marshaled bytes: everything
/// before the terminating NUL.
pub open spec fn c_payload(s: Seq<u8>) -> Seq<u8> {
    if is_c_string(s) {
        s.take(s.len() - 1)
    } else {
        sanitized(s)
    }
}

/// The scratch buffer has room for the marshaled copy.  The bound is a
/// machine limit that keeps the buffer's capacity arithmetic far from
/// overflow on every platform.
pub open spec fn fits_scratch(s: Seq<u8>) -> bool {
    s.len() < 0x1000_0000
}

/// A marshaling scratch buffer: a small-size-optimized byte vector from the
/// `smallvec` crate (64 bytes live inline), so that short strings need no
/// heap allocation.  The vector type itself cannot be declared to the
/// verifier — its generics are bound by the crate's own `Array` trait — so it
/// sits in an opaque struct and is reached only through the wrappers below.
#[verifier::external_body]
pub struct ScratchBuf {
    inner: smallvec::SmallVec<[u8; 64]>,
}

/// The bytes a scratch buffer holds.
pub uninterp spec fn scratch_bytes(v: ScratchBuf) -> Seq<u8>;

/// Relies on `smallvec::SmallVec::new`: a freshly created vector is empty.
#[verifier::external_body]
pub fn scratch_new() -> (v: ScratchBuf)
    ensures
        scratch_bytes(v) == Seq::<u8>::empty(),
{
    ScratchBuf { inner: smallvec::SmallVec::new() }
}

/// Relies on `smallvec::SmallVec::grow`: reserves capacity at least `new_cap`
/// and keeps the contents.  The bounds keep `grow` from panicking: the new
/// capacity may not be below the length, and the reallocation's size
/// arithmetic must stay far below `isize::MAX`.
#[verifier::external_body]
pub fn scratch_grow(v: &mut ScratchBuf, new_cap: usize)
    requires
        scratch_bytes(*old(v)).len() <= new_cap,
        new_cap <= 0x1000_0000,
    ensures
        scratch_bytes(*final(v)) == scratch_bytes(*old(v)),
{
    v.inner.grow(new_cap);
}

/// Relies on `smallvec::SmallVec::push`: appends one byte at the end.  The
/// length bound keeps the growth arithmetic inside `push` from overflowing.
#[verifier::external_body]
pub fn scratch_push(v: &mut ScratchBuf, b: u8)
    requires
        scratch_bytes(*old(v)).len() < 0x1000_0000,
    ensures
        scratch_bytes(*final(v)) == scratch_bytes(*old(v)).push(b),
{
    v.inner.push(b);
}

/// Relies on `smallvec::SmallVec::as_slice`: exposes exactly the held bytes.
#[verifier::external_body]
pub fn scratch_as_slice(v: &ScratchBuf) -> (r: &[u8])
    ensures
        r@ == scratch_bytes(*v),
{
    v.inner.as_slice()
}

/// Where the marshaled bytes live: in the input's own storage (no copy was
/// made) or in the scratch buffer.
#[derive(Clone, Copy, PartialEq, Eq, Structural, Debug)]
pub enum CStrSource {
    Inline,
    Scratch,
}

/// Scan `bytes[..end]` for a NUL byte.
fn contains_nul_before(bytes: &[u8], end: usize) -> (found: bool)
    requires
        end <= bytes@.len(),
    ensures
        found <==> exists|i: int| 0 <= i < end && bytes@[i] == 0,
{
    let mut i: usize = 0;
    let mut found = false;
    while i < end
        invariant
            i <= end <= bytes@.len(),
            found <==> exists|j: int| 0 <= j < i && bytes@[j] == 0,
        decreases end - i,
    {
        if bytes[i] == 0 {
            found = true;
        }
        i = i + 1;
    }
    found
}

/// Marshal `s` for the native layer.
///
/// Fast path: if `s`'s bytes already form a single exactly-NUL-terminated
/// string, the result points into `s`'s own storage and the scratch buffer is
/// untouched — zero copy.  Slow path: the scratch buffer receives a sanitized
/// copy (every embedded NUL replaced by the placeholder) with exactly one
/// trailing NUL; this makes at most one growable-buffer allocation.  Empty
/// input takes the slow path and yields a single NUL.
pub fn str_to_c_vec(s: &str, buf: &mut ScratchBuf) -> (src: CStrSource)
    requires
        fits_scratch(s.spec_bytes()),
        scratch_bytes(*old(buf)) == Seq::<u8>::empty(),
    ensures
        src == CStrSource::Inline <==> is_c_string(s.spec_bytes()),
        src == CStrSource::Inline ==> scratch_bytes(*final(buf)) == scratch_bytes(*old(buf)),
        src == CStrSource::Scratch ==> scratch_bytes(*final(buf)) == marshaled_bytes(
            s.spec_bytes(),
        ),
{
    let bytes = s.as_bytes();
    let n = bytes.len();
    let fast = n > 0 && bytes[n - 1] == 0 && !contains_nul_before(bytes, n - 1);
    if fast {
        CStrSource::Inline
    } else {
        scratch_grow(buf, n + 1);
        let mut i: usize = 0;
        while i < n
            invariant
                i <= n == s.spec_bytes().len(),
                bytes@ == s.spec_bytes(),
                fits_scratch(s.spec_bytes()),
                scratch_bytes(*buf) == sanitized(s.spec_bytes()).take(i as int),
            decreases n - i,
    {
            let b = bytes[i];
            let cleaned = if b == 0 {
                NUL_PLACEHOLDER
            } else {
                b
            };
            proof {
                assert(sanitized(s.spec_bytes())[i as int] == sanitize_byte(s.spec_bytes()[i as int]));
                assert(sanitized(s.spec_bytes()).take(i + 1) =~= sanitized(s.spec_bytes()).take(
                    i as int,
                ).push(sanitize_byte(s.spec_bytes()[i as int])));
            }
            scratch_push(buf, cleaned);
            i = i + 1;
        }
        proof {
            assert(sanitized(s.spec_bytes()).take(n as int) =~= sanitized(s.spec_bytes()));
        }
        scratch_push(buf, 0);
        CStrSource::Scratch
    }
}

/// No-copy law: an input that is already a single exactly-NUL-terminated
/// string marshals to itself, byte for byte — the native layer reads the
/// original storage.
pub proof fn lemma_marshal_fast_path(s: Seq<u8>)
    requires
        is_c_string(s),
    ensures
        marshaled_bytes(s) == s,
{
}

/// Sanitizing law: on the copying path the marshaled result replaces every
/// embedded NUL by the placeholder, appends exactly one trailing NUL, and is
/// one byte longer than the input.
pub proof fn lemma_marshal_slow_path(s: Seq<u8>)
    requires
        !is_c_string(s),
    ensures
        marshaled_bytes(s).len() == s.len() + 1,
        forall|i: int| 0 <= i < s.len() ==> marshaled_bytes(s)[i] == sanitize_byte(s[i]),
        forall|i: int| 0 <= i < s.len() ==> marshaled_bytes(s)[i] != 0,
        marshaled_bytes(s)[s.len() as int] == 0,
        is_c_string(marshaled_bytes(s)),
{
    assert forall|i: int| 0 <= i < s.len() implies marshaled_bytes(s)[i] == sanitize_byte(s[i]) by {
        assert(sanitized(s)[i] == sanitize_byte(s[i]));
    }
}

/// The marshaled bytes are always the payload followed by one NUL.
pub proof fn lemma_marshaled_splits(s: Seq<u8>)
    ensures
        marshaled_bytes(s) == c_payload(s).push(0),
        is_c_string(marshaled_bytes(s)),
{
    if is_c_string(s) {
        assert(s =~= s.take(s.len() - 1).push(0));
    } else {
        lemma_marshal_slow_path(s);
    }
}

} // verus!
