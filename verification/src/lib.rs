//! A safety bridge between Rust code and a handle-based native GUI toolkit.
//!
//! The native toolkit exchanges NUL-terminated byte strings and opaque widget
//! handles, and notifies the application through C-style callback entry
//! points.  This crate covers the three subsystems that make that boundary
//! safe, with machine-checked contracts:
//!
//! * [`marshal`] — low-copy conversion of strings to the toolkit's
//!   NUL-terminated convention;
//! * [`handle_rc`] — shared-ownership wrappers around opaque handles that
//!   issue the native destroy call exactly once;
//! * [`callbacks`] — a registry that associates (handle, event-kind) pairs
//!   with application callbacks and supports token-based deregistration.
//!
//! All toolkit state that the bridge's correctness depends on (the attribute
//! store, handle liveness, destroy calls) is modelled by an explicit
//! [`toolkit::Toolkit`] context object that every operation takes by
//! reference.  The unverifiable outer layer owns the foreign calls and keeps
//! the context in step with them.

pub mod marshal;
pub mod numtext;
pub mod table;
pub mod toolkit;
pub mod handle_rc;
pub mod callbacks;
pub mod attributes;
pub mod button;
pub mod list;

pub use marshal::str_to_c_vec;

use vstd::prelude::*;
use vstd::string::StringSliceAdditionalSpecFns;

verus! {

/// The axis a widget is laid out along.
#[derive(Debug, Copy, Clone, PartialEq, Eq, Structural)]
pub enum Orientation {
    Vertical,
    Horizontal,
}

/// The attribute token of an orientation, with the literal trailing NUL.
pub open spec fn orientation_token_z(o: Orientation) -> Seq<char> {
    match o {
        Orientation::Vertical => "VERTICAL\0"@,
        Orientation::Horizontal => "HORIZONTAL\0"@,
    }
}

/// Which orientation a stored attribute byte string denotes.
pub open spec fn orientation_of_bytes(b: Seq<u8>) -> Option<Orientation> {
    if b == "VERTICAL".spec_bytes() {
        Some(Orientation::Vertical)
    } else if b == "HORIZONTAL".spec_bytes() {
        Some(Orientation::Horizontal)
    } else {
        None
    }
}

impl Orientation {
    /// Decode a stored orientation token.  Any other byte string is a
    /// toolkit contract violation, excluded by the precondition.
    pub fn from_str(s: &[u8]) -> (r: Orientation)
        requires
            orientation_of_bytes(s@) is Some,
        ensures
            Some(r) == orientation_of_bytes(s@),
    {
        if crate::table::bytes_eq(s, "VERTICAL".as_bytes()) {
            Orientation::Vertical
        } else {
            proof {
                if s@ != "HORIZONTAL".spec_bytes() {
                    assert(false);
                }
            }
            Orientation::Horizontal
        }
    }

    /// The token to transmit for this orientation.
    pub fn to_str(self) -> (r: &'static str)
        ensures
            r@ == orientation_token_z(self),
            r@.len() <= 16,
    {
        match self {
            Orientation::Vertical => {
                proof {
                    reveal_strlit("VERTICAL\0");
                }
                "VERTICAL\0"
            },
            Orientation::Horizontal => {
                proof {
                    reveal_strlit("HORIZONTAL\0");
                }
                "HORIZONTAL\0"
            },
        }
    }
}


/// Token round trip for `Orientation`: the transmitted payload of the
/// NUL-terminated token decodes back to the same orientation — writing the
/// orientation and reading the same attribute yields it again.
pub proof fn lemma_orientation_round_trip(o: Orientation)
    ensures
        orientation_of_bytes(
            crate::marshal::c_payload(vstd::utf8::encode_utf8(orientation_token_z(o))),
        ) == Some(o),
{
    reveal_strlit("VERTICAL");
    reveal_strlit("HORIZONTAL");
    vstd::utf8::is_ascii_chars_encode_utf8("VERTICAL"@);
    vstd::utf8::is_ascii_chars_encode_utf8("HORIZONTAL"@);
    match o {
        Orientation::Vertical => {
            reveal_strlit("VERTICAL\0");
            assert("VERTICAL\0"@ =~= "VERTICAL"@.push('\0'));
            assert(vstd::utf8::is_ascii_chars("VERTICAL"@));
            assert(forall|i: int| 0 <= i < "VERTICAL"@.len() ==> "VERTICAL"@[i] != '\0');
            crate::attributes::lemma_token_round_trip("VERTICAL"@);
        },
        Orientation::Horizontal => {
            reveal_strlit("HORIZONTAL\0");
            assert("HORIZONTAL\0"@ =~= "HORIZONTAL"@.push('\0'));
            assert(vstd::utf8::is_ascii_chars("HORIZONTAL"@));
            assert(forall|i: int| 0 <= i < "HORIZONTAL"@.len() ==> "HORIZONTAL"@[i] != '\0');
            crate::attributes::lemma_token_round_trip("HORIZONTAL"@);
        },
    }
}

} // verus!
