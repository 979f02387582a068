//! Typed access to a widget's named attributes.
//!
//! Every attribute travels as a NUL-terminated byte string; these accessors
//! marshal names and values through the scratch-buffer path, hand them to
//! the toolkit's set/get/reset entry points, and layer booleans, numbers,
//! integer pairs and closed token sets on top of the string primitives.
//! Attribute name literals carry their own trailing NUL (`"TITLE\0"`) so
//! that marshaling them stays on the zero-copy path.

use vstd::prelude::*;
use vstd::string::StringSliceAdditionalSpecFns;
use vstd::utf8::{valid_utf8, decode_utf8, encode_utf8, is_ascii_chars, is_ascii_chars_encode_utf8,
    encode_utf8_valid_utf8, encode_utf8_decode_utf8};
use crate::marshal::{ScratchBuf, CStrSource, scratch_new, scratch_as_slice, str_to_c_vec,
    is_c_string, c_payload, marshaled_bytes, fits_scratch, lemma_marshaled_splits};
use crate::numtext::{dec_digits, dec_rep, parse_u64_spec, parse_int_pair_spec, parse_u64,
    parse_int_pair, format_u64, format_i32, lemma_dec_digits_val};
use crate::table::{bytes_eq, bytes_to_vec};
use crate::toolkit::{Toolkit, NativeHandle, attrs_same, attrs_same_except, handle_attrs_same,
    handle_attrs_same_except, named_same, counts_same, widgets_same};

verus! {

/// A character sequence's UTF-8 encoding takes at most four bytes per
/// character.
pub proof fn lemma_encode_utf8_len(chars: Seq<char>)
    ensures
        encode_utf8(chars).len() <= 4 * chars.len(),
    decreases chars.len(),
{
    if chars.len() > 0 {
        lemma_encode_utf8_len(chars.drop_first());
    }
}

/// The payload bytes the native layer receives when `s` is marshaled.
pub open spec fn payload(s: &str) -> Seq<u8> {
    c_payload(s.spec_bytes())
}

/// The attribute `name_z` of widget `h` holds exactly the payload of
/// `val_z`.  Both arguments follow the literal convention with a trailing
/// NUL.
pub open spec fn attr_is(tk: Toolkit, h: NativeHandle, name_z: &str, val_z: &str) -> bool {
    tk.attr(h@, payload(name_z)) == Some(payload(val_z))
}

/// Marshal `s` and hand back the NUL-terminated bytes, wherever they live:
/// in `s`'s own storage on the zero-copy path, in the scratch buffer
/// otherwise.
pub fn marshal_z<'a>(s: &'a str, buf: &'a mut ScratchBuf) -> (r: &'a [u8])
    requires
        fits_scratch(s.spec_bytes()),
        crate::marshal::scratch_bytes(*old(buf)) == Seq::<u8>::empty(),
    ensures
        r@ == marshaled_bytes(s.spec_bytes()),
        is_c_string(r@),
        r@.drop_last() == payload(s),
{
    let src = str_to_c_vec(s, buf);
    proof {
        lemma_marshaled_splits(s.spec_bytes());
        assert(marshaled_bytes(s.spec_bytes()).drop_last() =~= c_payload(s.spec_bytes()));
    }
    match src {
        CStrSource::Inline => s.as_bytes(),
        CStrSource::Scratch => scratch_as_slice(buf),
    }
}

/// Store the marshaled `value` under the marshaled `name`: the toolkit
/// copies the value, so both scratch buffers may die with this call.
pub fn set_str_attribute(tk: &mut Toolkit, handle: NativeHandle, name: &str, value: &str)
    requires
        old(tk).wf(),
        old(tk).is_live(handle@),
        fits_scratch(name.spec_bytes()),
        fits_scratch(value.spec_bytes()),
    ensures
        final(tk).wf(),
        final(tk).attr(handle@, payload(name)) == Some(payload(value)),
        attrs_same_except(*old(tk), *final(tk), handle@, payload(name)),
        widgets_same(*old(tk), *final(tk)),
        handle_attrs_same(*old(tk), *final(tk)),
        named_same(*old(tk), *final(tk)),
        counts_same(*old(tk), *final(tk)),
{
    let mut nbuf = scratch_new();
    let mut vbuf = scratch_new();
    let name_z = marshal_z(name, &mut nbuf);
    let value_z = marshal_z(value, &mut vbuf);
    tk.set_attr_c(handle, name_z, value_z);
}

/// Store a byte-string value (already without NUL bytes) under the
/// marshaled `name`.  This is the path for computed values such as decimal
/// numbers and item texts addressed by number.
pub fn set_bytes_attribute(tk: &mut Toolkit, handle: NativeHandle, name: &str, value_z: &[u8])
    requires
        old(tk).wf(),
        old(tk).is_live(handle@),
        fits_scratch(name.spec_bytes()),
        is_c_string(value_z@),
    ensures
        final(tk).wf(),
        final(tk).attr(handle@, payload(name)) == Some(value_z@.drop_last()),
        attrs_same_except(*old(tk), *final(tk), handle@, payload(name)),
        widgets_same(*old(tk), *final(tk)),
        handle_attrs_same(*old(tk), *final(tk)),
        named_same(*old(tk), *final(tk)),
        counts_same(*old(tk), *final(tk)),
{
    let mut nbuf = scratch_new();
    let name_z = marshal_z(name, &mut nbuf);
    tk.set_attr_c(handle, name_z, value_z);
}

/// Read an attribute as a borrowed byte view — the analogue of the pointer
/// into the toolkit's internal buffer, which a caller must copy promptly.
pub fn get_str_attribute_slice<'a>(tk: &'a Toolkit, handle: NativeHandle, name: &str) -> (r:
    Option<&'a Vec<u8>>)
    requires
        tk.wf(),
        tk.is_live(handle@),
        fits_scratch(name.spec_bytes()),
    ensures
        match r {
            Some(v) => tk.attr(handle@, payload(name)) == Some(v@),
            None => tk.attr(handle@, payload(name)) is None,
        },
{
    let mut nbuf = scratch_new();
    let name_z = marshal_z(name, &mut nbuf);
    tk.get_attr_c(handle, name_z)
}

/// What `String::from_utf8_lossy` makes of a byte sequence.
pub uninterp spec fn lossy_text(bytes: Seq<u8>) -> Seq<char>;

/// Relies on `String::from_utf8_lossy`: a valid UTF-8 byte sequence passes
/// through unchanged, and the result depends on the bytes alone.
#[verifier::external_body]
fn utf8_lossy(v: &[u8]) -> (r: String)
    ensures
        r@ == lossy_text(v@),
        valid_utf8(v@) ==> r@ == decode_utf8(v@),
{
    String::from_utf8_lossy(v).into_owned()
}

/// Read an attribute as an owned string, copied out immediately because the
/// toolkit's internal buffer is reused after a bounded number of reads.  An
/// absent attribute reads as the empty string by design, not as an error.
pub fn get_str_attribute(tk: &Toolkit, handle: NativeHandle, name: &str) -> (r: String)
    requires
        tk.wf(),
        tk.is_live(handle@),
        fits_scratch(name.spec_bytes()),
    ensures
        tk.attr(handle@, payload(name)) is None ==> r@ == Seq::<char>::empty(),
        tk.attr(handle@, payload(name)) matches Some(v) ==> r@ == lossy_text(v) && (valid_utf8(v)
            ==> r@ == decode_utf8(v)),
{
    match get_str_attribute_slice(tk, handle, name) {
        Some(v) => utf8_lossy(v.as_slice()),
        None => String::new(),
    }
}

/// Restore an attribute to its toolkit-defined default.
pub fn reset_attribute(tk: &mut Toolkit, handle: NativeHandle, name: &str)
    requires
        old(tk).wf(),
        old(tk).is_live(handle@),
        fits_scratch(name.spec_bytes()),
    ensures
        final(tk).wf(),
        final(tk).attr(handle@, payload(name)) is None,
        attrs_same_except(*old(tk), *final(tk), handle@, payload(name)),
        widgets_same(*old(tk), *final(tk)),
        handle_attrs_same(*old(tk), *final(tk)),
        named_same(*old(tk), *final(tk)),
        counts_same(*old(tk), *final(tk)),
{
    let mut nbuf = scratch_new();
    let name_z = marshal_z(name, &mut nbuf);
    tk.reset_attr_c(handle, name_z);
}

/// Associate a raw target handle with a per-widget name.  The toolkit
/// stores the handle without retaining it: the caller must keep the target
/// alive for as long as the association is in effect.
pub fn set_attribute_handle(tk: &mut Toolkit, ih: NativeHandle, name: &str, value: NativeHandle)
    requires
        old(tk).wf(),
        old(tk).is_live(ih@),
        fits_scratch(name.spec_bytes()),
    ensures
        final(tk).wf(),
        final(tk).handle_attr(ih@, payload(name)) == Some(value@),
        handle_attrs_same_except(*old(tk), *final(tk), ih@, payload(name)),
        widgets_same(*old(tk), *final(tk)),
        attrs_same(*old(tk), *final(tk)),
        named_same(*old(tk), *final(tk)),
        counts_same(*old(tk), *final(tk)),
{
    let mut nbuf = scratch_new();
    let name_z = marshal_z(name, &mut nbuf);
    tk.set_handle_attr_c(ih, name_z, value);
}

/// Read back a handle association.
pub fn get_attribute_handle(tk: &Toolkit, ih: NativeHandle, name: &str) -> (r: Option<
    NativeHandle,
>)
    requires
        tk.wf(),
        tk.is_live(ih@),
        fits_scratch(name.spec_bytes()),
    ensures
        match r {
            Some(t) => tk.handle_attr(ih@, payload(name)) == Some(t@),
            None => tk.handle_attr(ih@, payload(name)) is None,
        },
{
    let mut nbuf = scratch_new();
    let name_z = marshal_z(name, &mut nbuf);
    tk.get_handle_attr_c(ih, name_z)
}

/// Register a widget under a global name.  The toolkit stores the raw
/// handle without retaining it.
pub fn set_handle(tk: &mut Toolkit, name: &str, ih: NativeHandle)
    requires
        old(tk).wf(),
        fits_scratch(name.spec_bytes()),
    ensures
        final(tk).wf(),
        final(tk).named_handle(payload(name)) == Some(ih@),
        forall|n: Seq<u8>|
            n != payload(name) ==> #[trigger] final(tk).named_handle(n) == old(tk).named_handle(n),
        widgets_same(*old(tk), *final(tk)),
        attrs_same(*old(tk), *final(tk)),
        handle_attrs_same(*old(tk), *final(tk)),
        counts_same(*old(tk), *final(tk)),
        old(tk).named_handle(payload(name)) is None && old(tk).name_of(ih@) is None ==> final(tk).name_of(ih@) == Some(payload(name)),
{
    let mut nbuf = scratch_new();
    let name_z = marshal_z(name, &mut nbuf);
    tk.set_named_c(name_z, ih);
}

/// Whether the attribute holds exactly the payload of `val_z`, compared
/// byte for byte on the stored bytes.
pub fn attr_equals(tk: &Toolkit, handle: NativeHandle, name: &str, val_z: &str) -> (r: bool)
    requires
        tk.wf(),
        tk.is_live(handle@),
        fits_scratch(name.spec_bytes()),
        fits_scratch(val_z.spec_bytes()),
    ensures
        r == attr_is(*tk, handle, name, val_z),
{
    match get_str_attribute_slice(tk, handle, name) {
        Some(v) => {
            let mut vbuf = scratch_new();
            let z = marshal_z(val_z, &mut vbuf);
            let zlen = z.len();
            let zpay = &z[0..zlen - 1];
            proof {
                assert(zpay@ =~= z@.drop_last());
            }
            bytes_eq(v.as_slice(), zpay)
        },
        None => false,
    }
}

/// What an attribute parses to as an unsigned 32-bit number, if it is
/// present, all digits, and in range.
pub open spec fn attr_u32(tk: Toolkit, h: NativeHandle, name_z: &str) -> Option<u32> {
    match tk.attr(h@, payload(name_z)) {
        Some(v) => match parse_u64_spec(v) {
            Some(x) => if x <= u32::MAX {
                Some(x as u32)
            } else {
                None
            },
            None => None,
        },
        None => None,
    }
}

/// Read an attribute as an unsigned number.  A value that is absent or not
/// a number is a toolkit contract violation, excluded by the precondition.
pub fn get_u32_attribute(tk: &Toolkit, handle: NativeHandle, name: &str) -> (r: u32)
    requires
        tk.wf(),
        tk.is_live(handle@),
        fits_scratch(name.spec_bytes()),
        attr_u32(*tk, handle, name) is Some,
    ensures
        Some(r) == attr_u32(*tk, handle, name),
{
    match get_str_attribute_slice(tk, handle, name) {
        Some(v) => {
            match parse_u64(v.as_slice()) {
                Some(x) => x as u32,
                None => 0,
            }
        },
        None => 0,
    }
}

/// Write an unsigned number as its decimal digits.
pub fn set_u32_attribute(tk: &mut Toolkit, handle: NativeHandle, name: &str, value: u32)
    requires
        old(tk).wf(),
        old(tk).is_live(handle@),
        fits_scratch(name.spec_bytes()),
    ensures
        final(tk).wf(),
        final(tk).attr(handle@, payload(name)) == Some(dec_digits(value as nat)),
        attrs_same_except(*old(tk), *final(tk), handle@, payload(name)),
        widgets_same(*old(tk), *final(tk)),
        handle_attrs_same(*old(tk), *final(tk)),
        named_same(*old(tk), *final(tk)),
        counts_same(*old(tk), *final(tk)),
{
    let mut v = format_u64(value as u64);
    proof {
        lemma_dec_digits_val(value as nat);
    }
    v.push(0);
    proof {
        assert(v@.drop_last() =~= dec_digits(value as nat));
    }
    set_bytes_attribute(tk, handle, name, v.as_slice());
}

/// What an attribute parses to as a `WxH` pair of signed numbers.
pub open spec fn attr_int_pair(tk: Toolkit, h: NativeHandle, name_z: &str) -> Option<(i32, i32)> {
    match tk.attr(h@, payload(name_z)) {
        Some(v) => parse_int_pair_spec(v),
        None => None,
    }
}

/// Read an attribute as a pair of numbers.  The native accessor must yield
/// exactly two values; anything else is a toolkit contract violation,
/// excluded by the precondition.
pub fn get_int_int_attribute(tk: &Toolkit, handle: NativeHandle, name: &str) -> (r: (i32, i32))
    requires
        tk.wf(),
        tk.is_live(handle@),
        fits_scratch(name.spec_bytes()),
        attr_int_pair(*tk, handle, name) is Some,
    ensures
        Some(r) == attr_int_pair(*tk, handle, name),
{
    match get_str_attribute_slice(tk, handle, name) {
        Some(v) => {
            match parse_int_pair(v.as_slice()) {
                Some(p) => p,
                None => (0, 0),
            }
        },
        None => (0, 0),
    }
}

/// Write a `WxH` pair of signed numbers.
pub fn set_int_pair_attribute(tk: &mut Toolkit, handle: NativeHandle, name: &str, x: i32, y: i32)
    requires
        old(tk).wf(),
        old(tk).is_live(handle@),
        fits_scratch(name.spec_bytes()),
    ensures
        final(tk).wf(),
        final(tk).attr(handle@, payload(name)) == Some(
            dec_rep(x as int) + seq![120u8] + dec_rep(y as int),
        ),
        attrs_same_except(*old(tk), *final(tk), handle@, payload(name)),
        widgets_same(*old(tk), *final(tk)),
        handle_attrs_same(*old(tk), *final(tk)),
        named_same(*old(tk), *final(tk)),
        counts_same(*old(tk), *final(tk)),
{
    let mut v = format_i32(x);
    v.push(120);
    let mut w = format_i32(y);
    v.append(&mut w);
    proof {
        if x as int >= 0 {
            lemma_dec_digits_val(x as nat);
        } else {
            lemma_dec_digits_val((-(x as int)) as nat);
        }
        if y as int >= 0 {
            lemma_dec_digits_val(y as nat);
        } else {
            lemma_dec_digits_val((-(y as int)) as nat);
        }
    }
    v.push(0);
    proof {
        assert(v@.drop_last() =~= dec_rep(x as int) + seq![120u8] + dec_rep(y as int));
    }
    set_bytes_attribute(tk, handle, name, v.as_slice());
}

/// Coin a process-locally unique attribute name: a fixed prefix, a counter,
/// and the trailing NUL.
pub fn get_unique_attribute_name(tk: &mut Toolkit) -> (r: Vec<u8>)
    requires
        old(tk).wf(),
        old(tk).names_used() < u64::MAX,
    ensures
        final(tk).wf(),
        r@ == "CLEAR_COAT_UNIQUE_".spec_bytes() + dec_digits(old(tk).names_used() as nat) + seq![
            0u8,
        ],
        is_c_string(r@),
        final(tk).names_used() == old(tk).names_used() + 1,
        widgets_same(*old(tk), *final(tk)),
        attrs_same(*old(tk), *final(tk)),
        handle_attrs_same(*old(tk), *final(tk)),
        named_same(*old(tk), *final(tk)),
        counts_same(*old(tk), *final(tk)),
{
    let n = tk.fresh_name_index();
    let mut r = bytes_to_vec("CLEAR_COAT_UNIQUE_".as_bytes());
    let mut digits = format_u64(n);
    r.append(&mut digits);
    proof {
        reveal_strlit("CLEAR_COAT_UNIQUE_");
        assert(is_ascii_chars("CLEAR_COAT_UNIQUE_"@));
        is_ascii_chars_encode_utf8("CLEAR_COAT_UNIQUE_"@);
        assert forall|i: int|
            0 <= i < "CLEAR_COAT_UNIQUE_".spec_bytes().len() implies "CLEAR_COAT_UNIQUE_".spec_bytes()[i]
            != 0 by {
            assert("CLEAR_COAT_UNIQUE_".spec_bytes()[i] == "CLEAR_COAT_UNIQUE_"@[i] as u8);
        }
        lemma_dec_digits_val(n as nat);
    }
    r.push(0);
    proof {
        assert(r@.drop_last() =~= "CLEAR_COAT_UNIQUE_".spec_bytes() + dec_digits(n as nat));
        assert(r@ =~= "CLEAR_COAT_UNIQUE_".spec_bytes() + dec_digits(n as nat) + seq![0u8]);
    }
    r
}

/// Round-trip law for token values.  A token — ASCII text without NUL —
/// written with its literal trailing NUL transmits exactly its own
/// encoding, which is valid UTF-8 and decodes back to the same text.
/// Together with the contracts of `set_str_attribute` and
/// `get_str_attribute`, writing a token and reading the same attribute
/// returns the token unchanged.
pub proof fn lemma_token_round_trip(cs: Seq<char>)
    requires
        is_ascii_chars(cs),
        forall|i: int| 0 <= i < cs.len() ==> cs[i] != '\0',
    ensures
        c_payload(encode_utf8(cs.push('\0'))) == encode_utf8(cs),
        valid_utf8(encode_utf8(cs)),
        decode_utf8(encode_utf8(cs)) == cs,
{
    let csz = cs.push('\0');
    assert(is_ascii_chars(csz)) by {
        assert forall|i: int| 0 <= i < csz.len() implies '\0' <= #[trigger] csz[i] <= '\u{7f}' by {
            if i < cs.len() {
                assert(csz[i] == cs[i]);
            }
        }
    }
    is_ascii_chars_encode_utf8(cs);
    is_ascii_chars_encode_utf8(csz);
    let bz = encode_utf8(csz);
    assert(bz.len() == cs.len() + 1);
    assert(bz[cs.len() as int] == 0);
    assert forall|i: int| 0 <= i < cs.len() implies bz[i] != 0 by {
        assert(bz[i] == csz[i] as u8);
        assert(csz[i] == cs[i]);
    }
    assert(is_c_string(bz));
    assert(c_payload(bz) =~= encode_utf8(cs)) by {
        assert forall|i: int| 0 <= i < cs.len() implies bz[i] == encode_utf8(cs)[i] by {
            assert(bz[i] == csz[i] as u8);
            assert(encode_utf8(cs)[i] == cs[i] as u8);
        }
    }
    encode_utf8_valid_utf8(cs);
    encode_utf8_decode_utf8(cs);
}


/// String equality, decided byte for byte on the UTF-8 encodings.
pub fn str_eq(a: &str, b: &str) -> (r: bool)
    ensures
        r == (a@ == b@),
{
    let r = bytes_eq(a.as_bytes(), b.as_bytes());
    proof {
        if a.spec_bytes() == b.spec_bytes() {
            encode_utf8_decode_utf8(a@);
            encode_utf8_decode_utf8(b@);
        }
    }
    r
}

/// Nothing changed between `a` and `b` except the one attribute `(h,
/// name_z)`, and `b` is still consistent.
pub open spec fn only_attr_changed(a: Toolkit, b: Toolkit, h: NativeHandle, name_z: &str) -> bool {
    &&& b.wf()
    &&& attrs_same_except(a, b, h@, payload(name_z))
    &&& widgets_same(a, b)
    &&& handle_attrs_same(a, b)
    &&& named_same(a, b)
    &&& counts_same(a, b)
}

/// What a present attribute decodes to as text, when it is valid UTF-8.
pub open spec fn attr_token(tk: Toolkit, h: NativeHandle, name_z: &str) -> Option<Seq<char>> {
    match tk.attr(h@, payload(name_z)) {
        Some(v) => if valid_utf8(v) {
            Some(decode_utf8(v))
        } else {
            None
        },
        None => None,
    }
}

/// Scrollbar and orientation choices: one axis, both, or none.
#[derive(Debug, Copy, Clone, PartialEq, Eq, Structural)]
pub enum Orientations {
    Vertical,
    Horizontal,
    Both,
    /// The toolkit's `NO` token.
    Off,
}

/// The ORIENTATION-style token of a choice, with the literal trailing NUL.
pub open spec fn orientations_token_z(o: Orientations) -> Seq<char> {
    match o {
        Orientations::Vertical => "VERTICAL\0"@,
        Orientations::Horizontal => "HORIZONTAL\0"@,
        Orientations::Both => "BOTH\0"@,
        Orientations::Off => "NO\0"@,
    }
}

/// Which choice an ORIENTATION-style token denotes.
pub open spec fn orientations_of(s: Seq<char>) -> Option<Orientations> {
    if s == "VERTICAL"@ {
        Some(Orientations::Vertical)
    } else if s == "HORIZONTAL"@ {
        Some(Orientations::Horizontal)
    } else if s == "BOTH"@ {
        Some(Orientations::Both)
    } else if s == "NO"@ {
        Some(Orientations::Off)
    } else {
        None
    }
}

/// The SCROLLBAR token of a choice: both axes are spelled `YES` there.
pub open spec fn scrollbar_token_z(o: Orientations) -> Seq<char> {
    match o {
        Orientations::Vertical => "VERTICAL\0"@,
        Orientations::Horizontal => "HORIZONTAL\0"@,
        Orientations::Both => "YES\0"@,
        Orientations::Off => "NO\0"@,
    }
}

/// Which choice a SCROLLBAR token denotes.
pub open spec fn scrollbar_of(s: Seq<char>) -> Option<Orientations> {
    if s == "VERTICAL"@ {
        Some(Orientations::Vertical)
    } else if s == "HORIZONTAL"@ {
        Some(Orientations::Horizontal)
    } else if s == "YES"@ {
        Some(Orientations::Both)
    } else if s == "NO"@ {
        Some(Orientations::Off)
    } else {
        None
    }
}

impl Orientations {
    /// Decode an ORIENTATION-style token.  An unknown token is a toolkit
    /// contract violation, excluded by the precondition.
    pub fn from_str(s: &str) -> (r: Orientations)
        requires
            orientations_of(s@) is Some,
        ensures
            Some(r) == orientations_of(s@),
    {
        if str_eq(s, "VERTICAL") {
            Orientations::Vertical
        } else if str_eq(s, "HORIZONTAL") {
            Orientations::Horizontal
        } else if str_eq(s, "BOTH") {
            Orientations::Both
        } else {
            proof {
                if s@ != "NO"@ {
                    assert(false);
                }
            }
            Orientations::Off
        }
    }

    /// The ORIENTATION-style token to transmit.
    pub fn to_str(self) -> (r: &'static str)
        ensures
            r@ == orientations_token_z(self),
            r@.len() <= 16,
    {
        proof {
            reveal_strlit("VERTICAL\0");
            reveal_strlit("HORIZONTAL\0");
            reveal_strlit("BOTH\0");
            reveal_strlit("NO\0");
        }
        match self {
            Orientations::Vertical => "VERTICAL\0",
            Orientations::Horizontal => "HORIZONTAL\0",
            Orientations::Both => "BOTH\0",
            Orientations::Off => "NO\0",
        }
    }

    /// Decode a SCROLLBAR token.  An unknown token is a toolkit contract
    /// violation, excluded by the precondition.
    pub fn from_scrollbar_str(s: &str) -> (r: Orientations)
        requires
            scrollbar_of(s@) is Some,
        ensures
            Some(r) == scrollbar_of(s@),
    {
        if str_eq(s, "VERTICAL") {
            Orientations::Vertical
        } else if str_eq(s, "HORIZONTAL") {
            Orientations::Horizontal
        } else if str_eq(s, "YES") {
            Orientations::Both
        } else {
            proof {
                if s@ != "NO"@ {
                    assert(false);
                }
            }
            Orientations::Off
        }
    }

    /// The SCROLLBAR token to transmit.
    pub fn to_scrollbar_str(self) -> (r: &'static str)
        ensures
            r@ == scrollbar_token_z(self),
            r@.len() <= 16,
    {
        proof {
            reveal_strlit("VERTICAL\0");
            reveal_strlit("HORIZONTAL\0");
            reveal_strlit("YES\0");
            reveal_strlit("NO\0");
        }
        match self {
            Orientations::Vertical => "VERTICAL\0",
            Orientations::Horizontal => "HORIZONTAL\0",
            Orientations::Both => "YES\0",
            Orientations::Off => "NO\0",
        }
    }
}

/// How much of its cell a widget claims.
#[derive(Copy, Clone, Debug, PartialEq, Eq, Structural)]
pub enum Expand {
    Yes,
    Horizontal,
    Vertical,
    HorizontalFree,
    VerticalFree,
    No,
}

/// The EXPAND token of a choice, with the literal trailing NUL.
pub open spec fn expand_token_z(e: Expand) -> Seq<char> {
    match e {
        Expand::Yes => "YES\0"@,
        Expand::Horizontal => "HORIZONTAL\0"@,
        Expand::Vertical => "VERTICAL\0"@,
        Expand::HorizontalFree => "HORIZONTALFREE\0"@,
        Expand::VerticalFree => "VERTICALFREE\0"@,
        Expand::No => "NO\0"@,
    }
}

/// Which choice an EXPAND token denotes.
pub open spec fn expand_of(s: Seq<char>) -> Option<Expand> {
    if s == "YES"@ {
        Some(Expand::Yes)
    } else if s == "HORIZONTAL"@ {
        Some(Expand::Horizontal)
    } else if s == "VERTICAL"@ {
        Some(Expand::Vertical)
    } else if s == "HORIZONTALFREE"@ {
        Some(Expand::HorizontalFree)
    } else if s == "VERTICALFREE"@ {
        Some(Expand::VerticalFree)
    } else if s == "NO"@ {
        Some(Expand::No)
    } else {
        None
    }
}

impl Expand {
    /// Decode an EXPAND token.  An unknown token is a toolkit contract
    /// violation, excluded by the precondition.
    pub fn from_str(s: &str) -> (r: Expand)
        requires
            expand_of(s@) is Some,
        ensures
            Some(r) == expand_of(s@),
    {
        if str_eq(s, "YES") {
            Expand::Yes
        } else if str_eq(s, "HORIZONTAL") {
            Expand::Horizontal
        } else if str_eq(s, "VERTICAL") {
            Expand::Vertical
        } else if str_eq(s, "HORIZONTALFREE") {
            Expand::HorizontalFree
        } else if str_eq(s, "VERTICALFREE") {
            Expand::VerticalFree
        } else {
            proof {
                if s@ != "NO"@ {
                    assert(false);
                }
            }
            Expand::No
        }
    }

    /// The EXPAND token to transmit.
    pub fn to_str(self) -> (r: &'static str)
        ensures
            r@ == expand_token_z(self),
            r@.len() <= 16,
    {
        proof {
            reveal_strlit("YES\0");
            reveal_strlit("HORIZONTAL\0");
            reveal_strlit("VERTICAL\0");
            reveal_strlit("HORIZONTALFREE\0");
            reveal_strlit("VERTICALFREE\0");
            reveal_strlit("NO\0");
        }
        match self {
            Expand::Yes => "YES\0",
            Expand::Horizontal => "HORIZONTAL\0",
            Expand::Vertical => "VERTICAL\0",
            Expand::HorizontalFree => "HORIZONTALFREE\0",
            Expand::VerticalFree => "VERTICALFREE\0",
            Expand::No => "NO\0",
        }
    }
}

/// The shape the pointer takes over a widget.  Image cursors are named
/// through a handle association; see `image_cursor_name`.
#[derive(Copy, Clone, Debug, PartialEq, Eq, Structural)]
pub enum Cursor {
    /// The toolkit's `NONE` token: no visible cursor.
    Hidden,
    Arrow,
    Busy,
    Cross,
    Hand,
    Help,
    Move,
    ResizeN,
    ResizeS,
    ResizeNS,
    ResizeW,
    ResizeE,
    ResizeWE,
    ResizeNE,
    ResizeSW,
    ResizeNW,
    ResizeSE,
    Text,
    /// Windows only.
    AppStarting,
    /// Windows only.
    No,
    UpArrow,
    /// A cursor drawn from an application image.
    Image,
}

/// The CURSOR token of a named cursor, with the literal trailing NUL.  An
/// image cursor has no fixed token.
pub open spec fn cursor_token_z(c: Cursor) -> Seq<char> {
    match c {
        Cursor::Hidden => "NONE\0"@,
        Cursor::Arrow => "ARROW\0"@,
        Cursor::Busy => "BUSY\0"@,
        Cursor::Cross => "CROSS\0"@,
        Cursor::Hand => "HAND\0"@,
        Cursor::Help => "HELP\0"@,
        Cursor::Move => "MOVE\0"@,
        Cursor::ResizeN => "RESIZE_N\0"@,
        Cursor::ResizeS => "RESIZE_S\0"@,
        Cursor::ResizeNS => "RESIZE_NS\0"@,
        Cursor::ResizeW => "RESIZE_W\0"@,
        Cursor::ResizeE => "RESIZE_E\0"@,
        Cursor::ResizeWE => "RESIZE_WE\0"@,
        Cursor::ResizeNE => "RESIZE_NE\0"@,
        Cursor::ResizeSW => "RESIZE_SW\0"@,
        Cursor::ResizeNW => "RESIZE_NW\0"@,
        Cursor::ResizeSE => "RESIZE_SE\0"@,
        Cursor::Text => "TEXT\0"@,
        Cursor::AppStarting => "APPSTARTING\0"@,
        Cursor::No => "NO\0"@,
        Cursor::UpArrow => "UPARROW\0"@,
        Cursor::Image => Seq::<char>::empty(),
    }
}

/// Which named cursor a CURSOR token denotes.
pub open spec fn cursor_of(s: Seq<char>) -> Option<Cursor> {
    if s == "NONE"@ {
        Some(Cursor::Hidden)
    } else if s == "ARROW"@ {
        Some(Cursor::Arrow)
    } else if s == "BUSY"@ {
        Some(Cursor::Busy)
    } else if s == "CROSS"@ {
        Some(Cursor::Cross)
    } else if s == "HAND"@ {
        Some(Cursor::Hand)
    } else if s == "HELP"@ {
        Some(Cursor::Help)
    } else if s == "MOVE"@ {
        Some(Cursor::Move)
    } else if s == "RESIZE_N"@ {
        Some(Cursor::ResizeN)
    } else if s == "RESIZE_S"@ {
        Some(Cursor::ResizeS)
    } else if s == "RESIZE_NS"@ {
        Some(Cursor::ResizeNS)
    } else if s == "RESIZE_W"@ {
        Some(Cursor::ResizeW)
    } else if s == "RESIZE_E"@ {
        Some(Cursor::ResizeE)
    } else if s == "RESIZE_WE"@ {
        Some(Cursor::ResizeWE)
    } else if s == "RESIZE_NE"@ {
        Some(Cursor::ResizeNE)
    } else if s == "RESIZE_SW"@ {
        Some(Cursor::ResizeSW)
    } else if s == "RESIZE_NW"@ {
        Some(Cursor::ResizeNW)
    } else if s == "RESIZE_SE"@ {
        Some(Cursor::ResizeSE)
    } else if s == "TEXT"@ {
        Some(Cursor::Text)
    } else if s == "APPSTARTING"@ {
        Some(Cursor::AppStarting)
    } else if s == "NO"@ {
        Some(Cursor::No)
    } else if s == "UPARROW"@ {
        Some(Cursor::UpArrow)
    } else {
        None
    }
}

impl Cursor {
    /// Decode a stored CURSOR token.  An unknown token is a toolkit
    /// contract violation, excluded by the precondition; image cursors are
    /// stored under coined names and never decode here.
    pub fn from_str(s: &str) -> (r: Cursor)
        requires
            cursor_of(s@) is Some,
        ensures
            Some(r) == cursor_of(s@),
    {
        if str_eq(s, "NONE") {
            Cursor::Hidden
        } else if str_eq(s, "ARROW") {
            Cursor::Arrow
        } else if str_eq(s, "BUSY") {
            Cursor::Busy
        } else if str_eq(s, "CROSS") {
            Cursor::Cross
        } else if str_eq(s, "HAND") {
            Cursor::Hand
        } else if str_eq(s, "HELP") {
            Cursor::Help
        } else if str_eq(s, "MOVE") {
            Cursor::Move
        } else if str_eq(s, "RESIZE_N") {
            Cursor::ResizeN
        } else if str_eq(s, "RESIZE_S") {
            Cursor::ResizeS
        } else if str_eq(s, "RESIZE_NS") {
            Cursor::ResizeNS
        } else if str_eq(s, "RESIZE_W") {
            Cursor::ResizeW
        } else if str_eq(s, "RESIZE_E") {
            Cursor::ResizeE
        } else if str_eq(s, "RESIZE_WE") {
            Cursor::ResizeWE
        } else if str_eq(s, "RESIZE_NE") {
            Cursor::ResizeNE
        } else if str_eq(s, "RESIZE_SW") {
            Cursor::ResizeSW
        } else if str_eq(s, "RESIZE_NW") {
            Cursor::ResizeNW
        } else if str_eq(s, "RESIZE_SE") {
            Cursor::ResizeSE
        } else if str_eq(s, "TEXT") {
            Cursor::Text
        } else if str_eq(s, "APPSTARTING") {
            Cursor::AppStarting
        } else if str_eq(s, "NO") {
            Cursor::No
        } else {
            proof {
                if s@ != "UPARROW"@ {
                    assert(false);
                }
            }
            Cursor::UpArrow
        }
    }

    /// The token to transmit for a named cursor.  An image cursor's token
    /// is its coined name; see `image_cursor_name`.
    pub fn to_str(self) -> (r: &'static str)
        requires
            !(self is Image),
        ensures
            r@ == cursor_token_z(self),
            r@.len() <= 16,
    {
        proof {
            reveal_strlit("NONE\0");
            reveal_strlit("ARROW\0");
            reveal_strlit("BUSY\0");
            reveal_strlit("CROSS\0");
            reveal_strlit("HAND\0");
            reveal_strlit("HELP\0");
            reveal_strlit("MOVE\0");
            reveal_strlit("RESIZE_N\0");
            reveal_strlit("RESIZE_S\0");
            reveal_strlit("RESIZE_NS\0");
            reveal_strlit("RESIZE_W\0");
            reveal_strlit("RESIZE_E\0");
            reveal_strlit("RESIZE_WE\0");
            reveal_strlit("RESIZE_NE\0");
            reveal_strlit("RESIZE_SW\0");
            reveal_strlit("RESIZE_NW\0");
            reveal_strlit("RESIZE_SE\0");
            reveal_strlit("TEXT\0");
            reveal_strlit("APPSTARTING\0");
            reveal_strlit("NO\0");
            reveal_strlit("UPARROW\0");
        }
        match self {
            Cursor::Hidden => "NONE\0",
            Cursor::Arrow => "ARROW\0",
            Cursor::Busy => "BUSY\0",
            Cursor::Cross => "CROSS\0",
            Cursor::Hand => "HAND\0",
            Cursor::Help => "HELP\0",
            Cursor::Move => "MOVE\0",
            Cursor::ResizeN => "RESIZE_N\0",
            Cursor::ResizeS => "RESIZE_S\0",
            Cursor::ResizeNS => "RESIZE_NS\0",
            Cursor::ResizeW => "RESIZE_W\0",
            Cursor::ResizeE => "RESIZE_E\0",
            Cursor::ResizeWE => "RESIZE_WE\0",
            Cursor::ResizeNE => "RESIZE_NE\0",
            Cursor::ResizeSW => "RESIZE_SW\0",
            Cursor::ResizeNW => "RESIZE_NW\0",
            Cursor::ResizeSE => "RESIZE_SE\0",
            Cursor::Text => "TEXT\0",
            Cursor::AppStarting => "APPSTARTING\0",
            Cursor::No => "NO\0",
            Cursor::UpArrow => {
                proof {
                    if self is Image {
                        assert(false);
                    }
                }
                "UPARROW\0"
            },
            Cursor::Image => {
                proof {
                    assert(false);
                }
                "NONE\0"
            },
        }
    }
}

/// The CURSOR token for an image cursor: the image's registered name if it
/// has one, else a freshly coined unique name that is registered for it.
/// The returned bytes are the name payload, without a trailing NUL.
pub fn image_cursor_name(tk: &mut Toolkit, img: NativeHandle) -> (r: Vec<u8>)
    requires
        old(tk).wf(),
        old(tk).names_used() < u64::MAX,
    ensures
        final(tk).wf(),
        old(tk).name_of(img@) matches Some(n) ==> r@ == n && *final(tk) == *old(tk),
        old(tk).name_of(img@) is None ==> {
            &&& final(tk).named_handle(r@) == Some(img@)
            &&& forall|n: Seq<u8>|
                n != r@ ==> #[trigger] final(tk).named_handle(n) == old(tk).named_handle(n)
            &&& widgets_same(*old(tk), *final(tk))
            &&& attrs_same(*old(tk), *final(tk))
            &&& handle_attrs_same(*old(tk), *final(tk))
            &&& counts_same(*old(tk), *final(tk))
        },
{
    let existing: Option<Vec<u8>> = match tk.registered_name(img) {
        Some(v) => Some(bytes_to_vec(v.as_slice())),
        None => None,
    };
    match existing {
        Some(name) => name,
        None => {
            let z = get_unique_attribute_name(tk);
            let zlen = z.len();
            let name = bytes_to_vec(&z[0..zlen - 1]);
            proof {
                assert(name@ =~= z@.drop_last());
            }
            let ghost mid = *tk;
            tk.set_named_c(z.as_slice(), img);
            proof {
                assert(name@ == z@.drop_last());
            }
            name
        },
    }
}


/// Whether the widget reacts to user input.
pub fn active(tk: &Toolkit, h: NativeHandle) -> (r: bool)
    requires
        tk.wf(),
        tk.is_live(h@),
    ensures
        r == attr_is(*tk, h, "ACTIVE\0", "YES\0"),
{
    proof {
        reveal_strlit("ACTIVE\0");
        reveal_strlit("YES\0");
        lemma_encode_utf8_len("ACTIVE\0"@);
        lemma_encode_utf8_len("YES\0"@);
    }
    attr_equals(tk, h, "ACTIVE\0", "YES\0")
}

/// Make the widget react to user input, or grey it out.
pub fn set_active(tk: &mut Toolkit, h: NativeHandle, active: bool)
    requires
        old(tk).wf(),
        old(tk).is_live(h@),
    ensures
        attr_is(*final(tk), h, "ACTIVE\0", if active { "YES\0" } else { "NO\0" }),
        only_attr_changed(*old(tk), *final(tk), h, "ACTIVE\0"),
{
    proof {
        reveal_strlit("ACTIVE\0");
        reveal_strlit("YES\0");
        reveal_strlit("NO\0");
        lemma_encode_utf8_len("ACTIVE\0"@);
        lemma_encode_utf8_len("YES\0"@);
        lemma_encode_utf8_len("NO\0"@);
    }
    set_str_attribute(tk, h, "ACTIVE\0", if active { "YES\0" } else { "NO\0" });
}

/// Whether the widget can take keyboard focus.
pub fn can_focus(tk: &Toolkit, h: NativeHandle) -> (r: bool)
    requires
        tk.wf(),
        tk.is_live(h@),
    ensures
        r == attr_is(*tk, h, "CANFOCUS\0", "YES\0"),
{
    proof {
        reveal_strlit("CANFOCUS\0");
        reveal_strlit("YES\0");
        lemma_encode_utf8_len("CANFOCUS\0"@);
        lemma_encode_utf8_len("YES\0"@);
    }
    attr_equals(tk, h, "CANFOCUS\0", "YES\0")
}

/// Allow or forbid keyboard focus on the widget.
pub fn set_can_focus(tk: &mut Toolkit, h: NativeHandle, can: bool)
    requires
        old(tk).wf(),
        old(tk).is_live(h@),
    ensures
        attr_is(*final(tk), h, "CANFOCUS\0", if can { "YES\0" } else { "NO\0" }),
        only_attr_changed(*old(tk), *final(tk), h, "CANFOCUS\0"),
{
    proof {
        reveal_strlit("CANFOCUS\0");
        reveal_strlit("YES\0");
        reveal_strlit("NO\0");
        lemma_encode_utf8_len("CANFOCUS\0"@);
        lemma_encode_utf8_len("YES\0"@);
        lemma_encode_utf8_len("NO\0"@);
    }
    set_str_attribute(tk, h, "CANFOCUS\0", if can { "YES\0" } else { "NO\0" });
}

/// The widget's cursor.  The stored token must be one of the contracted
/// names; anything else is a toolkit contract violation, excluded by the
/// precondition.
pub fn cursor(tk: &Toolkit, h: NativeHandle) -> (r: Cursor)
    requires
        tk.wf(),
        tk.is_live(h@),
        attr_token(*tk, h, "CURSOR\0") is Some,
        cursor_of(attr_token(*tk, h, "CURSOR\0").unwrap()) is Some,
    ensures
        Some(r) == cursor_of(attr_token(*tk, h, "CURSOR\0").unwrap()),
{
    proof {
        reveal_strlit("CURSOR\0");
        lemma_encode_utf8_len("CURSOR\0"@);
    }
    let s = get_str_attribute(tk, h, "CURSOR\0");
    Cursor::from_str(s.as_str())
}

/// Give the widget a named cursor.  An image cursor goes through its
/// coined name instead; see `image_cursor_name`.
pub fn set_cursor(tk: &mut Toolkit, h: NativeHandle, cursor: Cursor)
    requires
        old(tk).wf(),
        old(tk).is_live(h@),
        !(cursor is Image),
    ensures
        final(tk).attr(h@, payload("CURSOR\0")) == Some(
            c_payload(encode_utf8(cursor_token_z(cursor))),
        ),
        only_attr_changed(*old(tk), *final(tk), h, "CURSOR\0"),
{
    proof {
        reveal_strlit("CURSOR\0");
        lemma_encode_utf8_len("CURSOR\0"@);
    }
    let s = cursor.to_str();
    proof {
        lemma_encode_utf8_len(s@);
    }
    set_str_attribute(tk, h, "CURSOR\0", s);
}

/// How the widget expands into its cell.
pub fn expand(tk: &Toolkit, h: NativeHandle) -> (r: Expand)
    requires
        tk.wf(),
        tk.is_live(h@),
        attr_token(*tk, h, "EXPAND\0") is Some,
        expand_of(attr_token(*tk, h, "EXPAND\0").unwrap()) is Some,
    ensures
        Some(r) == expand_of(attr_token(*tk, h, "EXPAND\0").unwrap()),
{
    proof {
        reveal_strlit("EXPAND\0");
        lemma_encode_utf8_len("EXPAND\0"@);
    }
    let s = get_str_attribute(tk, h, "EXPAND\0");
    Expand::from_str(s.as_str())
}

/// Choose how the widget expands into its cell.
pub fn set_expand(tk: &mut Toolkit, h: NativeHandle, expand: Expand)
    requires
        old(tk).wf(),
        old(tk).is_live(h@),
    ensures
        final(tk).attr(h@, payload("EXPAND\0")) == Some(
            c_payload(encode_utf8(expand_token_z(expand))),
        ),
        only_attr_changed(*old(tk), *final(tk), h, "EXPAND\0"),
{
    proof {
        reveal_strlit("EXPAND\0");
        lemma_encode_utf8_len("EXPAND\0"@);
    }
    let s = expand.to_str();
    proof {
        lemma_encode_utf8_len(s@);
    }
    set_str_attribute(tk, h, "EXPAND\0", s);
}

/// The widget's layout orientation.
pub fn orientation(tk: &Toolkit, h: NativeHandle) -> (r: crate::Orientation)
    requires
        tk.wf(),
        tk.is_live(h@),
        tk.attr(h@, payload("ORIENTATION\0")) is Some,
        crate::orientation_of_bytes(tk.attr(h@, payload("ORIENTATION\0")).unwrap()) is Some,
    ensures
        Some(r) == crate::orientation_of_bytes(tk.attr(h@, payload("ORIENTATION\0")).unwrap()),
{
    proof {
        reveal_strlit("ORIENTATION\0");
        lemma_encode_utf8_len("ORIENTATION\0"@);
    }
    match get_str_attribute_slice(tk, h, "ORIENTATION\0") {
        Some(v) => crate::Orientation::from_str(v.as_slice()),
        None => {
            proof {
                assert(false);
            }
            crate::Orientation::Vertical
        },
    }
}

/// Choose the widget's layout orientation.
pub fn set_orientation(tk: &mut Toolkit, h: NativeHandle, orientation: crate::Orientation)
    requires
        old(tk).wf(),
        old(tk).is_live(h@),
    ensures
        final(tk).attr(h@, payload("ORIENTATION\0")) == Some(
            c_payload(encode_utf8(crate::orientation_token_z(orientation))),
        ),
        only_attr_changed(*old(tk), *final(tk), h, "ORIENTATION\0"),
{
    proof {
        reveal_strlit("ORIENTATION\0");
        lemma_encode_utf8_len("ORIENTATION\0"@);
    }
    let s = orientation.to_str();
    proof {
        lemma_encode_utf8_len(s@);
    }
    set_str_attribute(tk, h, "ORIENTATION\0", s);
}

/// Which scrollbars the widget shows.
pub fn scrollbar(tk: &Toolkit, h: NativeHandle) -> (r: Orientations)
    requires
        tk.wf(),
        tk.is_live(h@),
        attr_token(*tk, h, "SCROLLBAR\0") is Some,
        scrollbar_of(attr_token(*tk, h, "SCROLLBAR\0").unwrap()) is Some,
    ensures
        Some(r) == scrollbar_of(attr_token(*tk, h, "SCROLLBAR\0").unwrap()),
{
    proof {
        reveal_strlit("SCROLLBAR\0");
        lemma_encode_utf8_len("SCROLLBAR\0"@);
    }
    let s = get_str_attribute(tk, h, "SCROLLBAR\0");
    Orientations::from_scrollbar_str(s.as_str())
}

/// Choose which scrollbars the widget shows.
pub fn set_scrollbar(tk: &mut Toolkit, h: NativeHandle, orientations: Orientations)
    requires
        old(tk).wf(),
        old(tk).is_live(h@),
    ensures
        final(tk).attr(h@, payload("SCROLLBAR\0")) == Some(
            c_payload(encode_utf8(scrollbar_token_z(orientations))),
        ),
        only_attr_changed(*old(tk), *final(tk), h, "SCROLLBAR\0"),
{
    proof {
        reveal_strlit("SCROLLBAR\0");
        lemma_encode_utf8_len("SCROLLBAR\0"@);
    }
    let s = orientations.to_scrollbar_str();
    proof {
        lemma_encode_utf8_len(s@);
    }
    set_str_attribute(tk, h, "SCROLLBAR\0", s);
}

/// The widget's minimum size, as the toolkit reports it.
pub fn min_size(tk: &Toolkit, h: NativeHandle) -> (r: (i32, i32))
    requires
        tk.wf(),
        tk.is_live(h@),
        attr_int_pair(*tk, h, "MINSIZE\0") is Some,
    ensures
        Some(r) == attr_int_pair(*tk, h, "MINSIZE\0"),
{
    proof {
        reveal_strlit("MINSIZE\0");
        lemma_encode_utf8_len("MINSIZE\0"@);
    }
    get_int_int_attribute(tk, h, "MINSIZE\0")
}

/// Keep the widget at least this large.
pub fn set_min_size(tk: &mut Toolkit, h: NativeHandle, x: i32, y: i32)
    requires
        old(tk).wf(),
        old(tk).is_live(h@),
    ensures
        final(tk).attr(h@, payload("MINSIZE\0")) == Some(
            dec_rep(x as int) + seq![120u8] + dec_rep(y as int),
        ),
        only_attr_changed(*old(tk), *final(tk), h, "MINSIZE\0"),
{
    proof {
        reveal_strlit("MINSIZE\0");
        lemma_encode_utf8_len("MINSIZE\0"@);
    }
    set_int_pair_attribute(tk, h, "MINSIZE\0", x, y);
}

/// The widget's maximum size, as the toolkit reports it.
pub fn max_size(tk: &Toolkit, h: NativeHandle) -> (r: (i32, i32))
    requires
        tk.wf(),
        tk.is_live(h@),
        attr_int_pair(*tk, h, "MAXSIZE\0") is Some,
    ensures
        Some(r) == attr_int_pair(*tk, h, "MAXSIZE\0"),
{
    proof {
        reveal_strlit("MAXSIZE\0");
        lemma_encode_utf8_len("MAXSIZE\0"@);
    }
    get_int_int_attribute(tk, h, "MAXSIZE\0")
}

/// Keep the widget at most this large.
pub fn set_max_size(tk: &mut Toolkit, h: NativeHandle, x: i32, y: i32)
    requires
        old(tk).wf(),
        old(tk).is_live(h@),
    ensures
        final(tk).attr(h@, payload("MAXSIZE\0")) == Some(
            dec_rep(x as int) + seq![120u8] + dec_rep(y as int),
        ),
        only_attr_changed(*old(tk), *final(tk), h, "MAXSIZE\0"),
{
    proof {
        reveal_strlit("MAXSIZE\0");
        lemma_encode_utf8_len("MAXSIZE\0"@);
    }
    set_int_pair_attribute(tk, h, "MAXSIZE\0", x, y);
}

/// The widget's size in pixels.
pub fn raster_size(tk: &Toolkit, h: NativeHandle) -> (r: (u32, u32))
    requires
        tk.wf(),
        tk.is_live(h@),
        attr_int_pair(*tk, h, "RASTERSIZE\0") is Some,
    ensures
        ({
            let p = attr_int_pair(*tk, h, "RASTERSIZE\0").unwrap();
            r == ((p.0 as u32), (p.1 as u32))
        }),
{
    proof {
        reveal_strlit("RASTERSIZE\0");
        lemma_encode_utf8_len("RASTERSIZE\0"@);
    }
    let p = get_int_int_attribute(tk, h, "RASTERSIZE\0");
    (p.0 as u32, p.1 as u32)
}

/// Set the widget's size in pixels.
pub fn set_raster_size(tk: &mut Toolkit, h: NativeHandle, width: u32, height: u32)
    requires
        old(tk).wf(),
        old(tk).is_live(h@),
        width <= i32::MAX,
        height <= i32::MAX,
    ensures
        final(tk).attr(h@, payload("RASTERSIZE\0")) == Some(
            dec_rep(width as int) + seq![120u8] + dec_rep(height as int),
        ),
        only_attr_changed(*old(tk), *final(tk), h, "RASTERSIZE\0"),
{
    proof {
        reveal_strlit("RASTERSIZE\0");
        lemma_encode_utf8_len("RASTERSIZE\0"@);
    }
    set_int_pair_attribute(tk, h, "RASTERSIZE\0", width as i32, height as i32);
}

/// Set the widget's size in pixels by a single measure.
pub fn set_raster_size_single(tk: &mut Toolkit, h: NativeHandle, size: u32)
    requires
        old(tk).wf(),
        old(tk).is_live(h@),
    ensures
        final(tk).attr(h@, payload("RASTERSIZE\0")) == Some(dec_digits(size as nat)),
        only_attr_changed(*old(tk), *final(tk), h, "RASTERSIZE\0"),
{
    proof {
        reveal_strlit("RASTERSIZE\0");
        lemma_encode_utf8_len("RASTERSIZE\0"@);
    }
    set_u32_attribute(tk, h, "RASTERSIZE\0", size);
}

/// The widget's tooltip text.
pub fn tip(tk: &Toolkit, h: NativeHandle) -> (r: String)
    requires
        tk.wf(),
        tk.is_live(h@),
    ensures
        tk.attr(h@, payload("TIP\0")) is None ==> r@ == Seq::<char>::empty(),
        tk.attr(h@, payload("TIP\0")) matches Some(v) ==> r@ == lossy_text(v) && (valid_utf8(v)
            ==> r@ == decode_utf8(v)),
{
    proof {
        reveal_strlit("TIP\0");
        lemma_encode_utf8_len("TIP\0"@);
    }
    get_str_attribute(tk, h, "TIP\0")
}

/// Set the widget's tooltip text.
pub fn set_tip(tk: &mut Toolkit, h: NativeHandle, tip: &str)
    requires
        old(tk).wf(),
        old(tk).is_live(h@),
        fits_scratch(tip.spec_bytes()),
    ensures
        final(tk).attr(h@, payload("TIP\0")) == Some(payload(tip)),
        only_attr_changed(*old(tk), *final(tk), h, "TIP\0"),
{
    proof {
        reveal_strlit("TIP\0");
        lemma_encode_utf8_len("TIP\0"@);
    }
    set_str_attribute(tk, h, "TIP\0", tip);
}

/// The widget's title text.
pub fn title(tk: &Toolkit, h: NativeHandle) -> (r: String)
    requires
        tk.wf(),
        tk.is_live(h@),
    ensures
        tk.attr(h@, payload("TITLE\0")) is None ==> r@ == Seq::<char>::empty(),
        tk.attr(h@, payload("TITLE\0")) matches Some(v) ==> r@ == lossy_text(v) && (valid_utf8(v)
            ==> r@ == decode_utf8(v)),
{
    proof {
        reveal_strlit("TITLE\0");
        lemma_encode_utf8_len("TITLE\0"@);
    }
    get_str_attribute(tk, h, "TITLE\0")
}

/// Set the widget's title text.
pub fn set_title(tk: &mut Toolkit, h: NativeHandle, title: &str)
    requires
        old(tk).wf(),
        old(tk).is_live(h@),
        fits_scratch(title.spec_bytes()),
    ensures
        final(tk).attr(h@, payload("TITLE\0")) == Some(payload(title)),
        only_attr_changed(*old(tk), *final(tk), h, "TITLE\0"),
{
    proof {
        reveal_strlit("TITLE\0");
        lemma_encode_utf8_len("TITLE\0"@);
    }
    set_str_attribute(tk, h, "TITLE\0", title);
}

/// Map the widget onto the screen.  The outcome is an operational result,
/// never a panic; in the model a live widget can always be shown.
pub fn show(tk: &mut Toolkit, h: NativeHandle) -> (r: Result<(), ()>)
    requires
        old(tk).wf(),
        old(tk).is_live(h@),
    ensures
        r is Ok,
        attr_is(*final(tk), h, "VISIBLE\0", "YES\0"),
        only_attr_changed(*old(tk), *final(tk), h, "VISIBLE\0"),
{
    proof {
        reveal_strlit("VISIBLE\0");
        reveal_strlit("YES\0");
        lemma_encode_utf8_len("VISIBLE\0"@);
        lemma_encode_utf8_len("YES\0"@);
    }
    set_str_attribute(tk, h, "VISIBLE\0", "YES\0");
    Ok(())
}

/// Take the widget off the screen.
pub fn hide_widget(tk: &mut Toolkit, h: NativeHandle) -> (r: Result<(), ()>)
    requires
        old(tk).wf(),
        old(tk).is_live(h@),
    ensures
        r is Ok,
        attr_is(*final(tk), h, "VISIBLE\0", "NO\0"),
        only_attr_changed(*old(tk), *final(tk), h, "VISIBLE\0"),
{
    proof {
        reveal_strlit("VISIBLE\0");
        reveal_strlit("NO\0");
        lemma_encode_utf8_len("VISIBLE\0"@);
        lemma_encode_utf8_len("NO\0"@);
    }
    set_str_attribute(tk, h, "VISIBLE\0", "NO\0");
    Ok(())
}

/// Whether the widget is mapped onto the screen.
pub fn visible(tk: &Toolkit, h: NativeHandle) -> (r: bool)
    requires
        tk.wf(),
        tk.is_live(h@),
    ensures
        r == attr_is(*tk, h, "VISIBLE\0", "YES\0"),
{
    proof {
        reveal_strlit("VISIBLE\0");
        reveal_strlit("YES\0");
        lemma_encode_utf8_len("VISIBLE\0"@);
        lemma_encode_utf8_len("YES\0"@);
    }
    attr_equals(tk, h, "VISIBLE\0", "YES\0")
}

/// Show or hide the widget.
pub fn set_visible(tk: &mut Toolkit, h: NativeHandle, visible: bool) -> (r: Result<(), ()>)
    requires
        old(tk).wf(),
        old(tk).is_live(h@),
    ensures
        r is Ok,
        attr_is(*final(tk), h, "VISIBLE\0", if visible { "YES\0" } else { "NO\0" }),
        only_attr_changed(*old(tk), *final(tk), h, "VISIBLE\0"),
{
    if visible {
        show(tk, h)
    } else {
        hide_widget(tk, h)
    }
}

/// How many text columns the widget shows.
pub fn visible_columns(tk: &Toolkit, h: NativeHandle) -> (r: u32)
    requires
        tk.wf(),
        tk.is_live(h@),
        attr_u32(*tk, h, "VISIBLECOLUMNS\0") is Some,
    ensures
        Some(r) == attr_u32(*tk, h, "VISIBLECOLUMNS\0"),
{
    proof {
        reveal_strlit("VISIBLECOLUMNS\0");
        lemma_encode_utf8_len("VISIBLECOLUMNS\0"@);
    }
    get_u32_attribute(tk, h, "VISIBLECOLUMNS\0")
}

/// Choose how many text columns the widget shows.
pub fn set_visible_columns(tk: &mut Toolkit, h: NativeHandle, cols: u32)
    requires
        old(tk).wf(),
        old(tk).is_live(h@),
    ensures
        final(tk).attr(h@, payload("VISIBLECOLUMNS\0")) == Some(dec_digits(cols as nat)),
        only_attr_changed(*old(tk), *final(tk), h, "VISIBLECOLUMNS\0"),
{
    proof {
        reveal_strlit("VISIBLECOLUMNS\0");
        lemma_encode_utf8_len("VISIBLECOLUMNS\0"@);
    }
    set_u32_attribute(tk, h, "VISIBLECOLUMNS\0", cols);
}

/// How many text lines the widget shows.
pub fn visible_lines(tk: &Toolkit, h: NativeHandle) -> (r: u32)
    requires
        tk.wf(),
        tk.is_live(h@),
        attr_u32(*tk, h, "VISIBLELINES\0") is Some,
    ensures
        Some(r) == attr_u32(*tk, h, "VISIBLELINES\0"),
{
    proof {
        reveal_strlit("VISIBLELINES\0");
        lemma_encode_utf8_len("VISIBLELINES\0"@);
    }
    get_u32_attribute(tk, h, "VISIBLELINES\0")
}

/// Choose how many text lines the widget shows.
pub fn set_visible_lines(tk: &mut Toolkit, h: NativeHandle, lines: u32)
    requires
        old(tk).wf(),
        old(tk).is_live(h@),
    ensures
        final(tk).attr(h@, payload("VISIBLELINES\0")) == Some(dec_digits(lines as nat)),
        only_attr_changed(*old(tk), *final(tk), h, "VISIBLELINES\0"),
{
    proof {
        reveal_strlit("VISIBLELINES\0");
        lemma_encode_utf8_len("VISIBLELINES\0"@);
    }
    set_u32_attribute(tk, h, "VISIBLELINES\0", lines);
}

/// A widget wrapper that exposes its native handle.
pub trait Control {
    /// The wrapped handle.
    spec fn handle_spec(&self) -> NativeHandle;

    /// The wrapped handle, for toolkit calls.
    fn handle(&self) -> (h: NativeHandle)
        ensures
            h == self.handle_spec(),
    ;
}

/// Widgets that can be greyed out.
pub trait ActiveAttribute: Control {
    /// Whether the widget reacts to user input.
    fn active(&self, tk: &Toolkit) -> (r: bool)
        requires
            tk.wf(),
            tk.is_live(self.handle_spec()@),
        ensures
            r == attr_is(*tk, self.handle_spec(), "ACTIVE\0", "YES\0"),
    ;

    /// Make the widget react to user input, or grey it out.
    fn set_active(&self, tk: &mut Toolkit, active: bool)
        requires
            old(tk).wf(),
            old(tk).is_live(self.handle_spec()@),
        ensures
            attr_is(
                *final(tk),
                self.handle_spec(),
                "ACTIVE\0",
                if active { "YES\0" } else { "NO\0" },
            ),
            only_attr_changed(*old(tk), *final(tk), self.handle_spec(), "ACTIVE\0"),
    ;
}

/// Widgets with minimum and maximum size bounds.
pub trait MinMaxSizeAttribute: Control {
    /// The widget's minimum size.
    fn min_size(&self, tk: &Toolkit) -> (r: (i32, i32))
        requires
            tk.wf(),
            tk.is_live(self.handle_spec()@),
            attr_int_pair(*tk, self.handle_spec(), "MINSIZE\0") is Some,
        ensures
            Some(r) == attr_int_pair(*tk, self.handle_spec(), "MINSIZE\0"),
    ;

    /// Keep the widget at least this large.
    fn set_min_size(&self, tk: &mut Toolkit, x: i32, y: i32)
        requires
            old(tk).wf(),
            old(tk).is_live(self.handle_spec()@),
        ensures
            final(tk).attr(self.handle_spec()@, payload("MINSIZE\0")) == Some(
                dec_rep(x as int) + seq![120u8] + dec_rep(y as int),
            ),
            only_attr_changed(*old(tk), *final(tk), self.handle_spec(), "MINSIZE\0"),
    ;

    /// The widget's maximum size.
    fn max_size(&self, tk: &Toolkit) -> (r: (i32, i32))
        requires
            tk.wf(),
            tk.is_live(self.handle_spec()@),
            attr_int_pair(*tk, self.handle_spec(), "MAXSIZE\0") is Some,
        ensures
            Some(r) == attr_int_pair(*tk, self.handle_spec(), "MAXSIZE\0"),
    ;

    /// Keep the widget at most this large.
    fn set_max_size(&self, tk: &mut Toolkit, x: i32, y: i32)
        requires
            old(tk).wf(),
            old(tk).is_live(self.handle_spec()@),
        ensures
            final(tk).attr(self.handle_spec()@, payload("MAXSIZE\0")) == Some(
                dec_rep(x as int) + seq![120u8] + dec_rep(y as int),
            ),
            only_attr_changed(*old(tk), *final(tk), self.handle_spec(), "MAXSIZE\0"),
    ;
}

/// Widgets with a tooltip.
pub trait TipAttribute: Control {
    /// The widget's tooltip text.
    fn tip(&self, tk: &Toolkit) -> (r: String)
        requires
            tk.wf(),
            tk.is_live(self.handle_spec()@),
        ensures
            tk.attr(self.handle_spec()@, payload("TIP\0")) is None ==> r@ == Seq::<
                char,
            >::empty(),
            tk.attr(self.handle_spec()@, payload("TIP\0")) matches Some(v) ==> r@ == lossy_text(
                v,
            ) && (valid_utf8(v) ==> r@ == decode_utf8(v)),
    ;

    /// Set the widget's tooltip text.
    fn set_tip(&self, tk: &mut Toolkit, tip: &str)
        requires
            old(tk).wf(),
            old(tk).is_live(self.handle_spec()@),
            fits_scratch(tip.spec_bytes()),
        ensures
            final(tk).attr(self.handle_spec()@, payload("TIP\0")) == Some(payload(tip)),
            only_attr_changed(*old(tk), *final(tk), self.handle_spec(), "TIP\0"),
    ;
}

/// Widgets with a title.
pub trait TitleAttribute: Control {
    /// The widget's title text.
    fn title(&self, tk: &Toolkit) -> (r: String)
        requires
            tk.wf(),
            tk.is_live(self.handle_spec()@),
        ensures
            tk.attr(self.handle_spec()@, payload("TITLE\0")) is None ==> r@ == Seq::<
                char,
            >::empty(),
            tk.attr(self.handle_spec()@, payload("TITLE\0")) matches Some(v) ==> r@
                == lossy_text(v) && (valid_utf8(v) ==> r@ == decode_utf8(v)),
    ;

    /// Set the widget's title text.
    fn set_title(&self, tk: &mut Toolkit, title: &str)
        requires
            old(tk).wf(),
            old(tk).is_live(self.handle_spec()@),
            fits_scratch(title.spec_bytes()),
        ensures
            final(tk).attr(self.handle_spec()@, payload("TITLE\0")) == Some(payload(title)),
            only_attr_changed(*old(tk), *final(tk), self.handle_spec(), "TITLE\0"),
    ;
}

/// Widgets that can be shown and hidden.
pub trait VisibleAttribute: Control {
    /// Map the widget onto the screen.
    fn show(&self, tk: &mut Toolkit) -> (r: Result<(), ()>)
        requires
            old(tk).wf(),
            old(tk).is_live(self.handle_spec()@),
        ensures
            r is Ok,
            attr_is(*final(tk), self.handle_spec(), "VISIBLE\0", "YES\0"),
            only_attr_changed(*old(tk), *final(tk), self.handle_spec(), "VISIBLE\0"),
    ;

    /// Take the widget off the screen.
    fn hide_widget(&self, tk: &mut Toolkit) -> (r: Result<(), ()>)
        requires
            old(tk).wf(),
            old(tk).is_live(self.handle_spec()@),
        ensures
            r is Ok,
            attr_is(*final(tk), self.handle_spec(), "VISIBLE\0", "NO\0"),
            only_attr_changed(*old(tk), *final(tk), self.handle_spec(), "VISIBLE\0"),
    ;

    /// Whether the widget is mapped onto the screen.
    fn visible(&self, tk: &Toolkit) -> (r: bool)
        requires
            tk.wf(),
            tk.is_live(self.handle_spec()@),
        ensures
            r == attr_is(*tk, self.handle_spec(), "VISIBLE\0", "YES\0"),
    ;

    /// Show or hide the widget.
    fn set_visible(&self, tk: &mut Toolkit, visible: bool) -> (r: Result<(), ()>)
        requires
            old(tk).wf(),
            old(tk).is_live(self.handle_spec()@),
        ensures
            r is Ok,
            attr_is(
                *final(tk),
                self.handle_spec(),
                "VISIBLE\0",
                if visible { "YES\0" } else { "NO\0" },
            ),
            only_attr_changed(*old(tk), *final(tk), self.handle_spec(), "VISIBLE\0"),
    ;
}


/// Store a marshaled string value under an already-NUL-terminated byte
/// name — the path for attribute names computed at run time, such as item
/// numbers.
pub fn set_str_attribute_z(tk: &mut Toolkit, handle: NativeHandle, name_z: &[u8], value: &str)
    requires
        old(tk).wf(),
        old(tk).is_live(handle@),
        is_c_string(name_z@),
        fits_scratch(value.spec_bytes()),
    ensures
        final(tk).wf(),
        final(tk).attr(handle@, name_z@.drop_last()) == Some(payload(value)),
        attrs_same_except(*old(tk), *final(tk), handle@, name_z@.drop_last()),
        widgets_same(*old(tk), *final(tk)),
        handle_attrs_same(*old(tk), *final(tk)),
        named_same(*old(tk), *final(tk)),
        counts_same(*old(tk), *final(tk)),
{
    let mut vbuf = scratch_new();
    let value_z = marshal_z(value, &mut vbuf);
    tk.set_attr_c(handle, name_z, value_z);
}

/// Read an attribute under an already-NUL-terminated byte name, as an
/// owned string.
pub fn get_str_attribute_z(tk: &Toolkit, handle: NativeHandle, name_z: &[u8]) -> (r: String)
    requires
        tk.wf(),
        tk.is_live(handle@),
        is_c_string(name_z@),
    ensures
        tk.attr(handle@, name_z@.drop_last()) is None ==> r@ == Seq::<char>::empty(),
        tk.attr(handle@, name_z@.drop_last()) matches Some(v) ==> r@ == lossy_text(v) && (
        valid_utf8(v) ==> r@ == decode_utf8(v)),
{
    match tk.get_attr_c(handle, name_z) {
        Some(v) => utf8_lossy(v.as_slice()),
        None => String::new(),
    }
}

/// What an attribute parses to as an unsigned 64-bit number.
pub open spec fn attr_u64(tk: Toolkit, h: NativeHandle, name_z: &str) -> Option<u64> {
    match tk.attr(h@, payload(name_z)) {
        Some(v) => parse_u64_spec(v),
        None => None,
    }
}

/// Read an attribute as an unsigned 64-bit number.  A value that is absent
/// or not a number is a toolkit contract violation, excluded by the
/// precondition.
pub fn get_u64_attribute(tk: &Toolkit, handle: NativeHandle, name: &str) -> (r: u64)
    requires
        tk.wf(),
        tk.is_live(handle@),
        fits_scratch(name.spec_bytes()),
        attr_u64(*tk, handle, name) is Some,
    ensures
        Some(r) == attr_u64(*tk, handle, name),
{
    match get_str_attribute_slice(tk, handle, name) {
        Some(v) => {
            match parse_u64(v.as_slice()) {
                Some(x) => x,
                None => 0,
            }
        },
        None => 0,
    }
}



/// Token round trip for `Orientations`: the transmitted payload of the
/// NUL-terminated token is valid UTF-8 and decodes back to a token that
/// denotes the same choice — so writing the choice and reading the same
/// attribute yields the choice again.
pub proof fn lemma_orientations_round_trip(o: Orientations)
    ensures
        valid_utf8(c_payload(encode_utf8(orientations_token_z(o)))),
        orientations_of(decode_utf8(c_payload(encode_utf8(orientations_token_z(o))))) == Some(o),
{
    reveal_strlit("BOTH");
    reveal_strlit("HORIZONTAL");
    reveal_strlit("NO");
    reveal_strlit("VERTICAL");
    match o {
        Orientations::Vertical => {
            reveal_strlit("VERTICAL\0");
            assert("VERTICAL\0"@ =~= "VERTICAL"@.push('\0'));
            assert(is_ascii_chars("VERTICAL"@));
            assert(forall|i: int| 0 <= i < "VERTICAL"@.len() ==> "VERTICAL"@[i] != '\0');
            lemma_token_round_trip("VERTICAL"@);
        },
        Orientations::Horizontal => {
            reveal_strlit("HORIZONTAL\0");
            assert("HORIZONTAL\0"@ =~= "HORIZONTAL"@.push('\0'));
            assert(is_ascii_chars("HORIZONTAL"@));
            assert(forall|i: int| 0 <= i < "HORIZONTAL"@.len() ==> "HORIZONTAL"@[i] != '\0');
            lemma_token_round_trip("HORIZONTAL"@);
        },
        Orientations::Both => {
            reveal_strlit("BOTH\0");
            assert("BOTH\0"@ =~= "BOTH"@.push('\0'));
            assert(is_ascii_chars("BOTH"@));
            assert(forall|i: int| 0 <= i < "BOTH"@.len() ==> "BOTH"@[i] != '\0');
            lemma_token_round_trip("BOTH"@);
        },
        Orientations::Off => {
            reveal_strlit("NO\0");
            assert("NO\0"@ =~= "NO"@.push('\0'));
            assert(is_ascii_chars("NO"@));
            assert(forall|i: int| 0 <= i < "NO"@.len() ==> "NO"@[i] != '\0');
            lemma_token_round_trip("NO"@);
        },
    }
}

/// Token round trip for `Orientations` on the SCROLLBAR spelling: the transmitted payload of the
/// NUL-terminated token is valid UTF-8 and decodes back to a token that
/// denotes the same choice — so writing the choice and reading the same
/// attribute yields the choice again.
pub proof fn lemma_scrollbar_round_trip(o: Orientations)
    ensures
        valid_utf8(c_payload(encode_utf8(scrollbar_token_z(o)))),
        scrollbar_of(decode_utf8(c_payload(encode_utf8(scrollbar_token_z(o))))) == Some(o),
{
    reveal_strlit("HORIZONTAL");
    reveal_strlit("NO");
    reveal_strlit("VERTICAL");
    reveal_strlit("YES");
    match o {
        Orientations::Vertical => {
            reveal_strlit("VERTICAL\0");
            assert("VERTICAL\0"@ =~= "VERTICAL"@.push('\0'));
            assert(is_ascii_chars("VERTICAL"@));
            assert(forall|i: int| 0 <= i < "VERTICAL"@.len() ==> "VERTICAL"@[i] != '\0');
            lemma_token_round_trip("VERTICAL"@);
        },
        Orientations::Horizontal => {
            reveal_strlit("HORIZONTAL\0");
            assert("HORIZONTAL\0"@ =~= "HORIZONTAL"@.push('\0'));
            assert(is_ascii_chars("HORIZONTAL"@));
            assert(forall|i: int| 0 <= i < "HORIZONTAL"@.len() ==> "HORIZONTAL"@[i] != '\0');
            lemma_token_round_trip("HORIZONTAL"@);
        },
        Orientations::Both => {
            reveal_strlit("YES\0");
            assert("YES\0"@ =~= "YES"@.push('\0'));
            assert(is_ascii_chars("YES"@));
            assert(forall|i: int| 0 <= i < "YES"@.len() ==> "YES"@[i] != '\0');
            lemma_token_round_trip("YES"@);
        },
        Orientations::Off => {
            reveal_strlit("NO\0");
            assert("NO\0"@ =~= "NO"@.push('\0'));
            assert(is_ascii_chars("NO"@));
            assert(forall|i: int| 0 <= i < "NO"@.len() ==> "NO"@[i] != '\0');
            lemma_token_round_trip("NO"@);
        },
    }
}

/// Token round trip for `Expand`: the transmitted payload of the
/// NUL-terminated token is valid UTF-8 and decodes back to a token that
/// denotes the same choice — so writing the choice and reading the same
/// attribute yields the choice again.
pub proof fn lemma_expand_round_trip(o: Expand)
    ensures
        valid_utf8(c_payload(encode_utf8(expand_token_z(o)))),
        expand_of(decode_utf8(c_payload(encode_utf8(expand_token_z(o))))) == Some(o),
{
    reveal_strlit("HORIZONTAL");
    reveal_strlit("HORIZONTALFREE");
    reveal_strlit("NO");
    reveal_strlit("VERTICAL");
    reveal_strlit("VERTICALFREE");
    reveal_strlit("YES");
    match o {
        Expand::Yes => {
            reveal_strlit("YES\0");
            assert("YES\0"@ =~= "YES"@.push('\0'));
            assert(is_ascii_chars("YES"@));
            assert(forall|i: int| 0 <= i < "YES"@.len() ==> "YES"@[i] != '\0');
            lemma_token_round_trip("YES"@);
        },
        Expand::Horizontal => {
            reveal_strlit("HORIZONTAL\0");
            assert("HORIZONTAL\0"@ =~= "HORIZONTAL"@.push('\0'));
            assert(is_ascii_chars("HORIZONTAL"@));
            assert(forall|i: int| 0 <= i < "HORIZONTAL"@.len() ==> "HORIZONTAL"@[i] != '\0');
            lemma_token_round_trip("HORIZONTAL"@);
        },
        Expand::Vertical => {
            reveal_strlit("VERTICAL\0");
            assert("VERTICAL\0"@ =~= "VERTICAL"@.push('\0'));
            assert(is_ascii_chars("VERTICAL"@));
            assert(forall|i: int| 0 <= i < "VERTICAL"@.len() ==> "VERTICAL"@[i] != '\0');
            lemma_token_round_trip("VERTICAL"@);
        },
        Expand::HorizontalFree => {
            reveal_strlit("HORIZONTALFREE\0");
            assert("HORIZONTALFREE\0"@ =~= "HORIZONTALFREE"@.push('\0'));
            assert(is_ascii_chars("HORIZONTALFREE"@));
            assert(forall|i: int| 0 <= i < "HORIZONTALFREE"@.len() ==> "HORIZONTALFREE"@[i] != '\0');
            lemma_token_round_trip("HORIZONTALFREE"@);
        },
        Expand::VerticalFree => {
            reveal_strlit("VERTICALFREE\0");
            assert("VERTICALFREE\0"@ =~= "VERTICALFREE"@.push('\0'));
            assert(is_ascii_chars("VERTICALFREE"@));
            assert(forall|i: int| 0 <= i < "VERTICALFREE"@.len() ==> "VERTICALFREE"@[i] != '\0');
            lemma_token_round_trip("VERTICALFREE"@);
        },
        Expand::No => {
            reveal_strlit("NO\0");
            assert("NO\0"@ =~= "NO"@.push('\0'));
            assert(is_ascii_chars("NO"@));
            assert(forall|i: int| 0 <= i < "NO"@.len() ==> "NO"@[i] != '\0');
            lemma_token_round_trip("NO"@);
        },
    }
}


/// Token round trip for `Cursor`: every named cursor's transmitted payload
/// is valid UTF-8 and decodes back to a token denoting the same cursor.
#[verifier::rlimit(100)]
pub proof fn lemma_cursor_round_trip(o: Cursor)
    requires
        !(o is Image),
    ensures
        valid_utf8(c_payload(encode_utf8(cursor_token_z(o)))),
        cursor_of(decode_utf8(c_payload(encode_utf8(cursor_token_z(o))))) == Some(o),
{
    reveal_strlit("APPSTARTING");
    reveal_strlit("ARROW");
    reveal_strlit("BUSY");
    reveal_strlit("CROSS");
    reveal_strlit("HAND");
    reveal_strlit("HELP");
    reveal_strlit("MOVE");
    reveal_strlit("NO");
    reveal_strlit("NONE");
    reveal_strlit("RESIZE_E");
    reveal_strlit("RESIZE_N");
    reveal_strlit("RESIZE_NE");
    reveal_strlit("RESIZE_NS");
    reveal_strlit("RESIZE_NW");
    reveal_strlit("RESIZE_S");
    reveal_strlit("RESIZE_SE");
    reveal_strlit("RESIZE_SW");
    reveal_strlit("RESIZE_W");
    reveal_strlit("RESIZE_WE");
    reveal_strlit("TEXT");
    reveal_strlit("UPARROW");
    match o {
        Cursor::Hidden => {
            reveal_strlit("NONE\0");
            assert("NONE\0"@ =~= "NONE"@.push('\0'));
            assert(is_ascii_chars("NONE"@));
            assert(forall|i: int| 0 <= i < "NONE"@.len() ==> "NONE"@[i] != '\0');
            lemma_token_round_trip("NONE"@);
            assert(decode_utf8(c_payload(encode_utf8("NONE\0"@))) == "NONE"@);
            assert(cursor_of("NONE"@) == Some(o));
        },
        Cursor::Arrow => {
            reveal_strlit("ARROW\0");
            assert("ARROW\0"@ =~= "ARROW"@.push('\0'));
            assert(is_ascii_chars("ARROW"@));
            assert(forall|i: int| 0 <= i < "ARROW"@.len() ==> "ARROW"@[i] != '\0');
            lemma_token_round_trip("ARROW"@);
            assert(decode_utf8(c_payload(encode_utf8("ARROW\0"@))) == "ARROW"@);
            assert(cursor_of("ARROW"@) == Some(o));
        },
        Cursor::Busy => {
            reveal_strlit("BUSY\0");
            assert("BUSY\0"@ =~= "BUSY"@.push('\0'));
            assert(is_ascii_chars("BUSY"@));
            assert(forall|i: int| 0 <= i < "BUSY"@.len() ==> "BUSY"@[i] != '\0');
            lemma_token_round_trip("BUSY"@);
            assert(decode_utf8(c_payload(encode_utf8("BUSY\0"@))) == "BUSY"@);
            assert("BUSY"@ != "NONE"@) by {
                assert("BUSY"@[0] == 'B');
                assert("NONE"@[0] == 'N');
            }
            assert(cursor_of("BUSY"@) == Some(o));
        },
        Cursor::Cross => {
            reveal_strlit("CROSS\0");
            assert("CROSS\0"@ =~= "CROSS"@.push('\0'));
            assert(is_ascii_chars("CROSS"@));
            assert(forall|i: int| 0 <= i < "CROSS"@.len() ==> "CROSS"@[i] != '\0');
            lemma_token_round_trip("CROSS"@);
            assert(decode_utf8(c_payload(encode_utf8("CROSS\0"@))) == "CROSS"@);
            assert("CROSS"@ != "ARROW"@) by {
                assert("CROSS"@[0] == 'C');
                assert("ARROW"@[0] == 'A');
            }
            assert(cursor_of("CROSS"@) == Some(o));
        },
        Cursor::Hand => {
            reveal_strlit("HAND\0");
            assert("HAND\0"@ =~= "HAND"@.push('\0'));
            assert(is_ascii_chars("HAND"@));
            assert(forall|i: int| 0 <= i < "HAND"@.len() ==> "HAND"@[i] != '\0');
            lemma_token_round_trip("HAND"@);
            assert(decode_utf8(c_payload(encode_utf8("HAND\0"@))) == "HAND"@);
            assert("HAND"@ != "NONE"@) by {
                assert("HAND"@[0] == 'H');
                assert("NONE"@[0] == 'N');
            }
            assert("HAND"@ != "BUSY"@) by {
                assert("HAND"@[0] == 'H');
                assert("BUSY"@[0] == 'B');
            }
            assert(cursor_of("HAND"@) == Some(o));
        },
        Cursor::Help => {
            reveal_strlit("HELP\0");
            assert("HELP\0"@ =~= "HELP"@.push('\0'));
            assert(is_ascii_chars("HELP"@));
            assert(forall|i: int| 0 <= i < "HELP"@.len() ==> "HELP"@[i] != '\0');
            lemma_token_round_trip("HELP"@);
            assert(decode_utf8(c_payload(encode_utf8("HELP\0"@))) == "HELP"@);
            assert("HELP"@ != "NONE"@) by {
                assert("HELP"@[0] == 'H');
                assert("NONE"@[0] == 'N');
            }
            assert("HELP"@ != "BUSY"@) by {
                assert("HELP"@[0] == 'H');
                assert("BUSY"@[0] == 'B');
            }
            assert("HELP"@ != "HAND"@) by {
                assert("HELP"@[1] == 'E');
                assert("HAND"@[1] == 'A');
            }
            assert(cursor_of("HELP"@) == Some(o));
        },
        Cursor::Move => {
            reveal_strlit("MOVE\0");
            assert("MOVE\0"@ =~= "MOVE"@.push('\0'));
            assert(is_ascii_chars("MOVE"@));
            assert(forall|i: int| 0 <= i < "MOVE"@.len() ==> "MOVE"@[i] != '\0');
            lemma_token_round_trip("MOVE"@);
            assert(decode_utf8(c_payload(encode_utf8("MOVE\0"@))) == "MOVE"@);
            assert("MOVE"@ != "NONE"@) by {
                assert("MOVE"@[0] == 'M');
                assert("NONE"@[0] == 'N');
            }
            assert("MOVE"@ != "BUSY"@) by {
                assert("MOVE"@[0] == 'M');
                assert("BUSY"@[0] == 'B');
            }
            assert("MOVE"@ != "HAND"@) by {
                assert("MOVE"@[0] == 'M');
                assert("HAND"@[0] == 'H');
            }
            assert("MOVE"@ != "HELP"@) by {
                assert("MOVE"@[0] == 'M');
                assert("HELP"@[0] == 'H');
            }
            assert(cursor_of("MOVE"@) == Some(o));
        },
        Cursor::ResizeN => {
            reveal_strlit("RESIZE_N\0");
            assert("RESIZE_N\0"@ =~= "RESIZE_N"@.push('\0'));
            assert(is_ascii_chars("RESIZE_N"@));
            assert(forall|i: int| 0 <= i < "RESIZE_N"@.len() ==> "RESIZE_N"@[i] != '\0');
            lemma_token_round_trip("RESIZE_N"@);
            assert(decode_utf8(c_payload(encode_utf8("RESIZE_N\0"@))) == "RESIZE_N"@);
            assert(cursor_of("RESIZE_N"@) == Some(o));
        },
        Cursor::ResizeS => {
            reveal_strlit("RESIZE_S\0");
            assert("RESIZE_S\0"@ =~= "RESIZE_S"@.push('\0'));
            assert(is_ascii_chars("RESIZE_S"@));
            assert(forall|i: int| 0 <= i < "RESIZE_S"@.len() ==> "RESIZE_S"@[i] != '\0');
            lemma_token_round_trip("RESIZE_S"@);
            assert(decode_utf8(c_payload(encode_utf8("RESIZE_S\0"@))) == "RESIZE_S"@);
            assert("RESIZE_S"@ != "RESIZE_N"@) by {
                assert("RESIZE_S"@[7] == 'S');
                assert("RESIZE_N"@[7] == 'N');
            }
            assert(cursor_of("RESIZE_S"@) == Some(o));
        },
        Cursor::ResizeNS => {
            reveal_strlit("RESIZE_NS\0");
            assert("RESIZE_NS\0"@ =~= "RESIZE_NS"@.push('\0'));
            assert(is_ascii_chars("RESIZE_NS"@));
            assert(forall|i: int| 0 <= i < "RESIZE_NS"@.len() ==> "RESIZE_NS"@[i] != '\0');
            lemma_token_round_trip("RESIZE_NS"@);
            assert(decode_utf8(c_payload(encode_utf8("RESIZE_NS\0"@))) == "RESIZE_NS"@);
            assert(cursor_of("RESIZE_NS"@) == Some(o));
        },
        Cursor::ResizeW => {
            reveal_strlit("RESIZE_W\0");
            assert("RESIZE_W\0"@ =~= "RESIZE_W"@.push('\0'));
            assert(is_ascii_chars("RESIZE_W"@));
            assert(forall|i: int| 0 <= i < "RESIZE_W"@.len() ==> "RESIZE_W"@[i] != '\0');
            lemma_token_round_trip("RESIZE_W"@);
            assert(decode_utf8(c_payload(encode_utf8("RESIZE_W\0"@))) == "RESIZE_W"@);
            assert("RESIZE_W"@ != "RESIZE_N"@) by {
                assert("RESIZE_W"@[7] == 'W');
                assert("RESIZE_N"@[7] == 'N');
            }
            assert("RESIZE_W"@ != "RESIZE_S"@) by {
                assert("RESIZE_W"@[7] == 'W');
                assert("RESIZE_S"@[7] == 'S');
            }
            assert(cursor_of("RESIZE_W"@) == Some(o));
        },
        Cursor::ResizeE => {
            reveal_strlit("RESIZE_E\0");
            assert("RESIZE_E\0"@ =~= "RESIZE_E"@.push('\0'));
            assert(is_ascii_chars("RESIZE_E"@));
            assert(forall|i: int| 0 <= i < "RESIZE_E"@.len() ==> "RESIZE_E"@[i] != '\0');
            lemma_token_round_trip("RESIZE_E"@);
            assert(decode_utf8(c_payload(encode_utf8("RESIZE_E\0"@))) == "RESIZE_E"@);
            assert("RESIZE_E"@ != "RESIZE_N"@) by {
                assert("RESIZE_E"@[7] == 'E');
                assert("RESIZE_N"@[7] == 'N');
            }
            assert("RESIZE_E"@ != "RESIZE_S"@) by {
                assert("RESIZE_E"@[7] == 'E');
                assert("RESIZE_S"@[7] == 'S');
            }
            assert("RESIZE_E"@ != "RESIZE_W"@) by {
                assert("RESIZE_E"@[7] == 'E');
                assert("RESIZE_W"@[7] == 'W');
            }
            assert(cursor_of("RESIZE_E"@) == Some(o));
        },
        Cursor::ResizeWE => {
            reveal_strlit("RESIZE_WE\0");
            assert("RESIZE_WE\0"@ =~= "RESIZE_WE"@.push('\0'));
            assert(is_ascii_chars("RESIZE_WE"@));
            assert(forall|i: int| 0 <= i < "RESIZE_WE"@.len() ==> "RESIZE_WE"@[i] != '\0');
            lemma_token_round_trip("RESIZE_WE"@);
            assert(decode_utf8(c_payload(encode_utf8("RESIZE_WE\0"@))) == "RESIZE_WE"@);
            assert("RESIZE_WE"@ != "RESIZE_NS"@) by {
                assert("RESIZE_WE"@[7] == 'W');
                assert("RESIZE_NS"@[7] == 'N');
            }
            assert(cursor_of("RESIZE_WE"@) == Some(o));
        },
        Cursor::ResizeNE => {
            reveal_strlit("RESIZE_NE\0");
            assert("RESIZE_NE\0"@ =~= "RESIZE_NE"@.push('\0'));
            assert(is_ascii_chars("RESIZE_NE"@));
            assert(forall|i: int| 0 <= i < "RESIZE_NE"@.len() ==> "RESIZE_NE"@[i] != '\0');
            lemma_token_round_trip("RESIZE_NE"@);
            assert(decode_utf8(c_payload(encode_utf8("RESIZE_NE\0"@))) == "RESIZE_NE"@);
            assert("RESIZE_NE"@ != "RESIZE_NS"@) by {
                assert("RESIZE_NE"@[8] == 'E');
                assert("RESIZE_NS"@[8] == 'S');
            }
            assert("RESIZE_NE"@ != "RESIZE_WE"@) by {
                assert("RESIZE_NE"@[7] == 'N');
                assert("RESIZE_WE"@[7] == 'W');
            }
            assert(cursor_of("RESIZE_NE"@) == Some(o));
        },
        Cursor::ResizeSW => {
            reveal_strlit("RESIZE_SW\0");
            assert("RESIZE_SW\0"@ =~= "RESIZE_SW"@.push('\0'));
            assert(is_ascii_chars("RESIZE_SW"@));
            assert(forall|i: int| 0 <= i < "RESIZE_SW"@.len() ==> "RESIZE_SW"@[i] != '\0');
            lemma_token_round_trip("RESIZE_SW"@);
            assert(decode_utf8(c_payload(encode_utf8("RESIZE_SW\0"@))) == "RESIZE_SW"@);
            assert("RESIZE_SW"@ != "RESIZE_NS"@) by {
                assert("RESIZE_SW"@[7] == 'S');
                assert("RESIZE_NS"@[7] == 'N');
            }
            assert("RESIZE_SW"@ != "RESIZE_WE"@) by {
                assert("RESIZE_SW"@[7] == 'S');
                assert("RESIZE_WE"@[7] == 'W');
            }
            assert("RESIZE_SW"@ != "RESIZE_NE"@) by {
                assert("RESIZE_SW"@[7] == 'S');
                assert("RESIZE_NE"@[7] == 'N');
            }
            assert(cursor_of("RESIZE_SW"@) == Some(o));
        },
        Cursor::ResizeNW => {
            reveal_strlit("RESIZE_NW\0");
            assert("RESIZE_NW\0"@ =~= "RESIZE_NW"@.push('\0'));
            assert(is_ascii_chars("RESIZE_NW"@));
            assert(forall|i: int| 0 <= i < "RESIZE_NW"@.len() ==> "RESIZE_NW"@[i] != '\0');
            lemma_token_round_trip("RESIZE_NW"@);
            assert(decode_utf8(c_payload(encode_utf8("RESIZE_NW\0"@))) == "RESIZE_NW"@);
            assert("RESIZE_NW"@ != "RESIZE_NS"@) by {
                assert("RESIZE_NW"@[8] == 'W');
                assert("RESIZE_NS"@[8] == 'S');
            }
            assert("RESIZE_NW"@ != "RESIZE_WE"@) by {
                assert("RESIZE_NW"@[7] == 'N');
                assert("RESIZE_WE"@[7] == 'W');
            }
            assert("RESIZE_NW"@ != "RESIZE_NE"@) by {
                assert("RESIZE_NW"@[8] == 'W');
                assert("RESIZE_NE"@[8] == 'E');
            }
            assert("RESIZE_NW"@ != "RESIZE_SW"@) by {
                assert("RESIZE_NW"@[7] == 'N');
                assert("RESIZE_SW"@[7] == 'S');
            }
            assert(cursor_of("RESIZE_NW"@) == Some(o));
        },
        Cursor::ResizeSE => {
            reveal_strlit("RESIZE_SE\0");
            assert("RESIZE_SE\0"@ =~= "RESIZE_SE"@.push('\0'));
            assert(is_ascii_chars("RESIZE_SE"@));
            assert(forall|i: int| 0 <= i < "RESIZE_SE"@.len() ==> "RESIZE_SE"@[i] != '\0');
            lemma_token_round_trip("RESIZE_SE"@);
            assert(decode_utf8(c_payload(encode_utf8("RESIZE_SE\0"@))) == "RESIZE_SE"@);
            assert("RESIZE_SE"@ != "RESIZE_NS"@) by {
                assert("RESIZE_SE"@[7] == 'S');
                assert("RESIZE_NS"@[7] == 'N');
            }
            assert("RESIZE_SE"@ != "RESIZE_WE"@) by {
                assert("RESIZE_SE"@[7] == 'S');
                assert("RESIZE_WE"@[7] == 'W');
            }
            assert("RESIZE_SE"@ != "RESIZE_NE"@) by {
                assert("RESIZE_SE"@[7] == 'S');
                assert("RESIZE_NE"@[7] == 'N');
            }
            assert("RESIZE_SE"@ != "RESIZE_SW"@) by {
                assert("RESIZE_SE"@[8] == 'E');
                assert("RESIZE_SW"@[8] == 'W');
            }
            assert("RESIZE_SE"@ != "RESIZE_NW"@) by {
                assert("RESIZE_SE"@[7] == 'S');
                assert("RESIZE_NW"@[7] == 'N');
            }
            assert(cursor_of("RESIZE_SE"@) == Some(o));
        },
        Cursor::Text => {
            reveal_strlit("TEXT\0");
            assert("TEXT\0"@ =~= "TEXT"@.push('\0'));
            assert(is_ascii_chars("TEXT"@));
            assert(forall|i: int| 0 <= i < "TEXT"@.len() ==> "TEXT"@[i] != '\0');
            lemma_token_round_trip("TEXT"@);
            assert(decode_utf8(c_payload(encode_utf8("TEXT\0"@))) == "TEXT"@);
            assert("TEXT"@ != "NONE"@) by {
                assert("TEXT"@[0] == 'T');
                assert("NONE"@[0] == 'N');
            }
            assert("TEXT"@ != "BUSY"@) by {
                assert("TEXT"@[0] == 'T');
                assert("BUSY"@[0] == 'B');
            }
            assert("TEXT"@ != "HAND"@) by {
                assert("TEXT"@[0] == 'T');
                assert("HAND"@[0] == 'H');
            }
            assert("TEXT"@ != "HELP"@) by {
                assert("TEXT"@[0] == 'T');
                assert("HELP"@[0] == 'H');
            }
            assert("TEXT"@ != "MOVE"@) by {
                assert("TEXT"@[0] == 'T');
                assert("MOVE"@[0] == 'M');
            }
            assert(cursor_of("TEXT"@) == Some(o));
        },
        Cursor::AppStarting => {
            reveal_strlit("APPSTARTING\0");
            assert("APPSTARTING\0"@ =~= "APPSTARTING"@.push('\0'));
            assert(is_ascii_chars("APPSTARTING"@));
            assert(forall|i: int| 0 <= i < "APPSTARTING"@.len() ==> "APPSTARTING"@[i] != '\0');
            lemma_token_round_trip("APPSTARTING"@);
            assert(decode_utf8(c_payload(encode_utf8("APPSTARTING\0"@))) == "APPSTARTING"@);
            assert(cursor_of("APPSTARTING"@) == Some(o));
        },
        Cursor::No => {
            reveal_strlit("NO\0");
            assert("NO\0"@ =~= "NO"@.push('\0'));
            assert(is_ascii_chars("NO"@));
            assert(forall|i: int| 0 <= i < "NO"@.len() ==> "NO"@[i] != '\0');
            lemma_token_round_trip("NO"@);
            assert(decode_utf8(c_payload(encode_utf8("NO\0"@))) == "NO"@);
            assert(cursor_of("NO"@) == Some(o));
        },
        Cursor::UpArrow => {
            reveal_strlit("UPARROW\0");
            assert("UPARROW\0"@ =~= "UPARROW"@.push('\0'));
            assert(is_ascii_chars("UPARROW"@));
            assert(forall|i: int| 0 <= i < "UPARROW"@.len() ==> "UPARROW"@[i] != '\0');
            lemma_token_round_trip("UPARROW"@);
            assert(decode_utf8(c_payload(encode_utf8("UPARROW\0"@))) == "UPARROW"@);
            assert(cursor_of("UPARROW"@) == Some(o));
        },
        Cursor::Image => {
            assert(false);
        },
    }
}

} // verus!
