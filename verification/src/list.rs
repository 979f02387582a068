//! A list widget wrapper.
//!
//! Items are addressed through numbered attributes: item `i` (zero-based
//! for callers) lives under the attribute named `i + 1`, and the editing
//! actions (`APPENDITEM`, `INSERTITEM<n>`, `REMOVEITEM`) are attributes
//! too.  The wrapper transmits exactly those byte strings; what the widget
//! makes of them belongs to the toolkit.

use vstd::prelude::*;
use vstd::string::StringSliceAdditionalSpecFns;
use vstd::utf8::{valid_utf8, decode_utf8, is_ascii_chars, is_ascii_chars_encode_utf8};
use crate::handle_rc::HandleRc;
use crate::toolkit::{Toolkit, NativeHandle, attrs_same, attrs_same_except, handle_attrs_same,
    named_same, counts_same, counts_same_except, widgets_same};
use crate::attributes::{Control, ActiveAttribute, MinMaxSizeAttribute, VisibleAttribute, attr_is,
    attr_u64, only_attr_changed, payload, lossy_text, lemma_encode_utf8_len,
    attr_equals, set_str_attribute, set_str_attribute_z, get_str_attribute, get_str_attribute_z,
    get_str_attribute_slice, set_bytes_attribute};
use crate::marshal::{fits_scratch, is_c_string};
use crate::numtext::{dec_digits, parse_u64_spec, parse_u64, format_u64, lemma_dec_digits_val};
use crate::table::bytes_to_vec;

verus! {

/// The NUL-terminated attribute name of item `index`: items are numbered
/// from one on the wire.
fn item_name_z(index: usize) -> (r: Vec<u8>)
    requires
        index < usize::MAX,
    ensures
        r@.drop_last() == dec_digits((index + 1) as nat),
        is_c_string(r@),
{
    let mut r = format_u64((index as u64) + 1);
    proof {
        lemma_dec_digits_val((index + 1) as nat);
    }
    r.push(0);
    proof {
        assert(r@.drop_last() =~= dec_digits((index + 1) as nat));
    }
    r
}

/// The positions of the selection markers (`+`) among the first `i` bytes.
pub open spec fn plus_positions_upto(s: Seq<u8>, i: int) -> Seq<usize>
    decreases i,
{
    if i <= 0 {
        Seq::<usize>::empty()
    } else if s[i - 1] == 43 {
        plus_positions_upto(s, i - 1).push((i - 1) as usize)
    } else {
        plus_positions_upto(s, i - 1)
    }
}

/// One shared owner of a native list widget.
pub struct List(HandleRc);

impl List {
    /// Create a fresh list widget with a single owner.
    pub fn new(tk: &mut Toolkit) -> (l: List)
        requires
            old(tk).wf(),
            old(tk).fresh_ok(),
        ensures
            final(tk).wf(),
            final(tk).is_live(l.handle_spec()@),
            !old(tk).is_live(l.handle_spec()@),
            final(tk).rc_count(l.handle_spec()@) == Some(1u64),
            final(tk).destroys() == old(tk).destroys(),
            !old(tk).destroys().contains(l.handle_spec()@),
            forall|id: u64|
                id != l.handle_spec()@ ==> final(tk).is_live(id) == old(tk).is_live(id),
            final(tk).ids_used() == old(tk).ids_used() + 1,
            attrs_same(*old(tk), *final(tk)),
            handle_attrs_same(*old(tk), *final(tk)),
            named_same(*old(tk), *final(tk)),
            counts_same_except(*old(tk), *final(tk), l.handle_spec()@),
            forall|n: Seq<u8>| #[trigger] final(tk).attr(l.handle_spec()@, n) is None,
    {
        let h = tk.create_widget();
        let rc = HandleRc::new(tk, h);
        List(rc)
    }

    /// Derive another owner of the same list.
    pub fn clone_ref(&self, tk: &mut Toolkit) -> (l: List)
        requires
            old(tk).wf(),
            old(tk).rc_count(self.handle_spec()@) is Some,
            old(tk).rc_count(self.handle_spec()@).unwrap() < u64::MAX,
        ensures
            final(tk).wf(),
            l.handle_spec() == self.handle_spec(),
            final(tk).rc_count(self.handle_spec()@) == Some(
                (old(tk).rc_count(self.handle_spec()@).unwrap() + 1) as u64,
            ),
            counts_same_except(*old(tk), *final(tk), self.handle_spec()@),
            widgets_same(*old(tk), *final(tk)),
            attrs_same(*old(tk), *final(tk)),
            handle_attrs_same(*old(tk), *final(tk)),
            named_same(*old(tk), *final(tk)),
    {
        List(self.0.clone_rc(tk))
    }

    /// Give up this ownership; the final owner's release destroys the
    /// native widget exactly once.
    pub fn release(self, tk: &mut Toolkit)
        requires
            old(tk).wf(),
            old(tk).rc_count(self.handle_spec()@) is Some,
            old(tk).rc_count(self.handle_spec()@).unwrap() >= 1,
        ensures
            final(tk).wf(),
            counts_same_except(*old(tk), *final(tk), self.handle_spec()@),
            old(tk).rc_count(self.handle_spec()@).unwrap() >= 2 ==> final(tk).rc_count(
                self.handle_spec()@,
            ) == Some((old(tk).rc_count(self.handle_spec()@).unwrap() - 1) as u64) && widgets_same(
                *old(tk),
                *final(tk),
            ),
            old(tk).rc_count(self.handle_spec()@).unwrap() == 1 ==> final(tk).rc_count(
                self.handle_spec()@,
            ) is None && !final(tk).is_live(self.handle_spec()@),
            old(tk).rc_count(self.handle_spec()@).unwrap() == 1 && old(tk).is_live(
                self.handle_spec()@,
            ) ==> final(tk).destroys() == old(tk).destroys().push(self.handle_spec()@),
            old(tk).rc_count(self.handle_spec()@).unwrap() == 1 && !old(tk).is_live(
                self.handle_spec()@,
            ) ==> final(tk).destroys() == old(tk).destroys(),
    {
        let List(rc) = self;
        rc.release(tk);
    }

    /// Whether the list is a dropdown.
    pub fn dropdown(&self, tk: &Toolkit) -> (r: bool)
        requires
            tk.wf(),
            tk.is_live(self.handle_spec()@),
        ensures
            r == attr_is(*tk, self.handle_spec(), "DROPDOWN\0", "YES\0"),
    {
        proof {
            reveal_strlit("DROPDOWN\0");
            reveal_strlit("YES\0");
            lemma_encode_utf8_len("DROPDOWN\0"@);
            lemma_encode_utf8_len("YES\0"@);
        }
        attr_equals(tk, self.handle(), "DROPDOWN\0", "YES\0")
    }

    /// Make the list a dropdown, or a plain list.
    pub fn set_dropdown(&self, tk: &mut Toolkit, dropdown: bool) -> (r: &Self)
        requires
            old(tk).wf(),
            old(tk).is_live(self.handle_spec()@),
        ensures
            attr_is(
                *final(tk),
                self.handle_spec(),
                "DROPDOWN\0",
                if dropdown { "YES\0" } else { "NO\0" },
            ),
            only_attr_changed(*old(tk), *final(tk), self.handle_spec(), "DROPDOWN\0"),
    {
        proof {
            reveal_strlit("DROPDOWN\0");
            reveal_strlit("YES\0");
            reveal_strlit("NO\0");
            lemma_encode_utf8_len("DROPDOWN\0"@);
            lemma_encode_utf8_len("YES\0"@);
            lemma_encode_utf8_len("NO\0"@);
        }
        set_str_attribute(
            tk,
            self.handle(),
            "DROPDOWN\0",
            if dropdown {
                "YES\0"
            } else {
                "NO\0"
            },
        );
        self
    }

    /// Whether the list carries an edit box.
    pub fn edit_box(&self, tk: &Toolkit) -> (r: bool)
        requires
            tk.wf(),
            tk.is_live(self.handle_spec()@),
        ensures
            r == attr_is(*tk, self.handle_spec(), "EDITBOX\0", "YES\0"),
    {
        proof {
            reveal_strlit("EDITBOX\0");
            reveal_strlit("YES\0");
            lemma_encode_utf8_len("EDITBOX\0"@);
            lemma_encode_utf8_len("YES\0"@);
        }
        attr_equals(tk, self.handle(), "EDITBOX\0", "YES\0")
    }

    /// Give the list an edit box, or take it away.
    pub fn set_edit_box(&self, tk: &mut Toolkit, edit_box: bool) -> (r: &Self)
        requires
            old(tk).wf(),
            old(tk).is_live(self.handle_spec()@),
        ensures
            attr_is(
                *final(tk),
                self.handle_spec(),
                "EDITBOX\0",
                if edit_box { "YES\0" } else { "NO\0" },
            ),
            only_attr_changed(*old(tk), *final(tk), self.handle_spec(), "EDITBOX\0"),
    {
        proof {
            reveal_strlit("EDITBOX\0");
            reveal_strlit("YES\0");
            reveal_strlit("NO\0");
            lemma_encode_utf8_len("EDITBOX\0"@);
            lemma_encode_utf8_len("YES\0"@);
            lemma_encode_utf8_len("NO\0"@);
        }
        set_str_attribute(
            tk,
            self.handle(),
            "EDITBOX\0",
            if edit_box {
                "YES\0"
            } else {
                "NO\0"
            },
        );
        self
    }

    /// Whether several items can be selected at once.
    pub fn multiple(&self, tk: &Toolkit) -> (r: bool)
        requires
            tk.wf(),
            tk.is_live(self.handle_spec()@),
        ensures
            r == attr_is(*tk, self.handle_spec(), "MULTIPLE\0", "YES\0"),
    {
        proof {
            reveal_strlit("MULTIPLE\0");
            reveal_strlit("YES\0");
            lemma_encode_utf8_len("MULTIPLE\0"@);
            lemma_encode_utf8_len("YES\0"@);
        }
        attr_equals(tk, self.handle(), "MULTIPLE\0", "YES\0")
    }

    /// Allow or forbid selecting several items at once.
    pub fn set_multiple(&self, tk: &mut Toolkit, multiple: bool) -> (r: &Self)
        requires
            old(tk).wf(),
            old(tk).is_live(self.handle_spec()@),
        ensures
            attr_is(
                *final(tk),
                self.handle_spec(),
                "MULTIPLE\0",
                if multiple { "YES\0" } else { "NO\0" },
            ),
            only_attr_changed(*old(tk), *final(tk), self.handle_spec(), "MULTIPLE\0"),
    {
        proof {
            reveal_strlit("MULTIPLE\0");
            reveal_strlit("YES\0");
            reveal_strlit("NO\0");
            lemma_encode_utf8_len("MULTIPLE\0"@);
            lemma_encode_utf8_len("YES\0"@);
            lemma_encode_utf8_len("NO\0"@);
        }
        set_str_attribute(
            tk,
            self.handle(),
            "MULTIPLE\0",
            if multiple {
                "YES\0"
            } else {
                "NO\0"
            },
        );
        self
    }

    /// The text of the item at `index` (the first item is index 0).
    pub fn item(&self, tk: &Toolkit, index: usize) -> (r: String)
        requires
            tk.wf(),
            tk.is_live(self.handle_spec()@),
            index < usize::MAX,
        ensures
            tk.attr(self.handle_spec()@, dec_digits((index + 1) as nat)) is None ==> r@ == Seq::<
                char,
            >::empty(),
            tk.attr(self.handle_spec()@, dec_digits((index + 1) as nat)) matches Some(v) ==> r@
                == lossy_text(v) && (valid_utf8(v) ==> r@ == decode_utf8(v)),
    {
        let name_z = item_name_z(index);
        get_str_attribute_z(tk, self.handle(), name_z.as_slice())
    }

    /// Set the text of the item at `index` (the first item is index 0).
    pub fn set_item(&self, tk: &mut Toolkit, index: usize, text: &str) -> (r: &Self)
        requires
            old(tk).wf(),
            old(tk).is_live(self.handle_spec()@),
            index < usize::MAX,
            fits_scratch(text.spec_bytes()),
        ensures
            final(tk).wf(),
            final(tk).attr(self.handle_spec()@, dec_digits((index + 1) as nat)) == Some(
                payload(text),
            ),
            attrs_same_except(
                *old(tk),
                *final(tk),
                self.handle_spec()@,
                dec_digits((index + 1) as nat),
            ),
            widgets_same(*old(tk), *final(tk)),
            handle_attrs_same(*old(tk), *final(tk)),
            named_same(*old(tk), *final(tk)),
            counts_same(*old(tk), *final(tk)),
    {
        let name_z = item_name_z(index);
        set_str_attribute_z(tk, self.handle(), name_z.as_slice(), text);
        self
    }

    /// Append an item after the last one.
    pub fn append_item(&self, tk: &mut Toolkit, text: &str) -> (r: &Self)
        requires
            old(tk).wf(),
            old(tk).is_live(self.handle_spec()@),
            fits_scratch(text.spec_bytes()),
        ensures
            final(tk).attr(self.handle_spec()@, payload("APPENDITEM\0")) == Some(payload(text)),
            only_attr_changed(*old(tk), *final(tk), self.handle_spec(), "APPENDITEM\0"),
    {
        proof {
            reveal_strlit("APPENDITEM\0");
            lemma_encode_utf8_len("APPENDITEM\0"@);
        }
        set_str_attribute(tk, self.handle(), "APPENDITEM\0", text);
        self
    }

    /// Insert an item before `index` (the first item is index 0).
    pub fn insert_item(&self, tk: &mut Toolkit, index: usize, text: &str) -> (r: &Self)
        requires
            old(tk).wf(),
            old(tk).is_live(self.handle_spec()@),
            index < usize::MAX,
            fits_scratch(text.spec_bytes()),
        ensures
            final(tk).wf(),
            final(tk).attr(
                self.handle_spec()@,
                "INSERTITEM".spec_bytes() + dec_digits((index + 1) as nat),
            ) == Some(payload(text)),
            attrs_same_except(
                *old(tk),
                *final(tk),
                self.handle_spec()@,
                "INSERTITEM".spec_bytes() + dec_digits((index + 1) as nat),
            ),
            widgets_same(*old(tk), *final(tk)),
            handle_attrs_same(*old(tk), *final(tk)),
            named_same(*old(tk), *final(tk)),
            counts_same(*old(tk), *final(tk)),
    {
        let mut name_z = bytes_to_vec("INSERTITEM".as_bytes());
        let mut digits = format_u64((index as u64) + 1);
        name_z.append(&mut digits);
        proof {
            reveal_strlit("INSERTITEM");
            assert(is_ascii_chars("INSERTITEM"@));
            is_ascii_chars_encode_utf8("INSERTITEM"@);
            assert forall|i: int|
                0 <= i < "INSERTITEM".spec_bytes().len() implies "INSERTITEM".spec_bytes()[i]
                != 0 by {
                assert("INSERTITEM".spec_bytes()[i] == "INSERTITEM"@[i] as u8);
            }
            lemma_dec_digits_val((index + 1) as nat);
        }
        name_z.push(0);
        proof {
            assert(name_z@.drop_last() =~= "INSERTITEM".spec_bytes() + dec_digits(
                (index + 1) as nat,
            ));
        }
        set_str_attribute_z(tk, self.handle(), name_z.as_slice(), text);
        self
    }

    /// Remove the item at `index` (the first item is index 0).
    pub fn remove_item(&self, tk: &mut Toolkit, index: usize) -> (r: &Self)
        requires
            old(tk).wf(),
            old(tk).is_live(self.handle_spec()@),
            index < usize::MAX,
        ensures
            final(tk).attr(self.handle_spec()@, payload("REMOVEITEM\0")) == Some(
                dec_digits((index + 1) as nat),
            ),
            only_attr_changed(*old(tk), *final(tk), self.handle_spec(), "REMOVEITEM\0"),
    {
        proof {
            reveal_strlit("REMOVEITEM\0");
            lemma_encode_utf8_len("REMOVEITEM\0"@);
        }
        let value_z = item_name_z(index);
        set_bytes_attribute(tk, self.handle(), "REMOVEITEM\0", value_z.as_slice());
        self
    }

    /// Remove every item.
    pub fn clear(&self, tk: &mut Toolkit) -> (r: &Self)
        requires
            old(tk).wf(),
            old(tk).is_live(self.handle_spec()@),
        ensures
            attr_is(*final(tk), self.handle_spec(), "REMOVEITEM\0", "ALL\0"),
            only_attr_changed(*old(tk), *final(tk), self.handle_spec(), "REMOVEITEM\0"),
    {
        proof {
            reveal_strlit("REMOVEITEM\0");
            reveal_strlit("ALL\0");
            lemma_encode_utf8_len("REMOVEITEM\0"@);
            lemma_encode_utf8_len("ALL\0"@);
        }
        set_str_attribute(tk, self.handle(), "REMOVEITEM\0", "ALL\0");
        self
    }

    /// How many items the list holds.  A COUNT value that is absent or not
    /// a number is a toolkit contract violation, excluded by the
    /// precondition.
    pub fn count(&self, tk: &Toolkit) -> (r: usize)
        requires
            tk.wf(),
            tk.is_live(self.handle_spec()@),
            attr_u64(*tk, self.handle_spec(), "COUNT\0") is Some,
            attr_u64(*tk, self.handle_spec(), "COUNT\0").unwrap() <= usize::MAX,
        ensures
            r as u64 == attr_u64(*tk, self.handle_spec(), "COUNT\0").unwrap(),
    {
        proof {
            reveal_strlit("COUNT\0");
            lemma_encode_utf8_len("COUNT\0"@);
        }
        let n = crate::attributes::get_u64_attribute(tk, self.handle(), "COUNT\0");
        n as usize
    }

    /// The text in the edit box.  Only a list with an edit box has one.
    pub fn value_text(&self, tk: &Toolkit) -> (r: String)
        requires
            tk.wf(),
            tk.is_live(self.handle_spec()@),
            attr_is(*tk, self.handle_spec(), "EDITBOX\0", "YES\0"),
        ensures
            tk.attr(self.handle_spec()@, payload("VALUE\0")) is None ==> r@ == Seq::<
                char,
            >::empty(),
            tk.attr(self.handle_spec()@, payload("VALUE\0")) matches Some(v) ==> r@ == lossy_text(
                v,
            ) && (valid_utf8(v) ==> r@ == decode_utf8(v)),
    {
        proof {
            reveal_strlit("VALUE\0");
            lemma_encode_utf8_len("VALUE\0"@);
        }
        get_str_attribute(tk, self.handle(), "VALUE\0")
    }

    /// The index of the selected item, or nothing when no item is
    /// selected.  Only a single-selection list without an edit box has
    /// this.
    pub fn value_single(&self, tk: &Toolkit) -> (r: Option<usize>)
        requires
            tk.wf(),
            tk.is_live(self.handle_spec()@),
            !attr_is(*tk, self.handle_spec(), "EDITBOX\0", "YES\0"),
            !attr_is(*tk, self.handle_spec(), "MULTIPLE\0", "YES\0"),
        ensures
            r == (match tk.attr(self.handle_spec()@, payload("VALUE\0")) {
                Some(v) => match parse_u64_spec(v) {
                    Some(i) => if i == 0 || i > usize::MAX {
                        None::<usize>
                    } else {
                        Some((i - 1) as usize)
                    },
                    None => None::<usize>,
                },
                None => None::<usize>,
            }),
    {
        proof {
            reveal_strlit("VALUE\0");
            lemma_encode_utf8_len("VALUE\0"@);
        }
        match get_str_attribute_slice(tk, self.handle(), "VALUE\0") {
            Some(v) => {
                match parse_u64(v.as_slice()) {
                    Some(i) => {
                        if i == 0 || i > usize::MAX as u64 {
                            None
                        } else {
                            Some((i - 1) as usize)
                        }
                    },
                    None => None,
                }
            },
            None => None,
        }
    }

    /// The indexes of all selection markers in the VALUE string.  Only a
    /// multi-selection list without an edit box has these.
    pub fn value_multiple(&self, tk: &Toolkit) -> (r: Vec<usize>)
        requires
            tk.wf(),
            tk.is_live(self.handle_spec()@),
            !attr_is(*tk, self.handle_spec(), "EDITBOX\0", "YES\0"),
            attr_is(*tk, self.handle_spec(), "MULTIPLE\0", "YES\0"),
        ensures
            r@ == (match tk.attr(self.handle_spec()@, payload("VALUE\0")) {
                Some(v) => plus_positions_upto(v, v.len() as int),
                None => Seq::<usize>::empty(),
            }),
    {
        proof {
            reveal_strlit("VALUE\0");
            lemma_encode_utf8_len("VALUE\0"@);
        }
        match get_str_attribute_slice(tk, self.handle(), "VALUE\0") {
            Some(v) => {
                let s = v.as_slice();
                let n = s.len();
                let mut out: Vec<usize> = Vec::new();
                let mut i: usize = 0;
                while i < n
                    invariant
                        i <= n == s@.len(),
                        out@ == plus_positions_upto(s@, i as int),
                    decreases n - i,
                {
                    if s[i] == 43 {
                        out.push(i);
                    }
                    i = i + 1;
                }
                out
            },
            None => Vec::new(),
        }
    }
}

impl Control for List {
    closed spec fn handle_spec(&self) -> NativeHandle {
        self.0.handle_spec()
    }

    fn handle(&self) -> (h: NativeHandle) {
        self.0.handle()
    }
}

impl ActiveAttribute for List {
    fn active(&self, tk: &Toolkit) -> (r: bool) {
        crate::attributes::active(tk, self.handle())
    }

    fn set_active(&self, tk: &mut Toolkit, active: bool) {
        crate::attributes::set_active(tk, self.handle(), active);
    }
}

impl MinMaxSizeAttribute for List {
    fn min_size(&self, tk: &Toolkit) -> (r: (i32, i32)) {
        crate::attributes::min_size(tk, self.handle())
    }

    fn set_min_size(&self, tk: &mut Toolkit, x: i32, y: i32) {
        crate::attributes::set_min_size(tk, self.handle(), x, y);
    }

    fn max_size(&self, tk: &Toolkit) -> (r: (i32, i32)) {
        crate::attributes::max_size(tk, self.handle())
    }

    fn set_max_size(&self, tk: &mut Toolkit, x: i32, y: i32) {
        crate::attributes::set_max_size(tk, self.handle(), x, y);
    }
}

impl VisibleAttribute for List {
    fn show(&self, tk: &mut Toolkit) -> (r: Result<(), ()>) {
        crate::attributes::show(tk, self.handle())
    }

    fn hide_widget(&self, tk: &mut Toolkit) -> (r: Result<(), ()>) {
        crate::attributes::hide_widget(tk, self.handle())
    }

    fn visible(&self, tk: &Toolkit) -> (r: bool) {
        crate::attributes::visible(tk, self.handle())
    }

    fn set_visible(&self, tk: &mut Toolkit, visible: bool) -> (r: Result<(), ()>) {
        crate::attributes::set_visible(tk, self.handle(), visible)
    }
}

} // verus!
