//! A push-button widget wrapper.
//!
//! The wrapper owns its native handle through a [`HandleRc`]; the button's
//! behaviour itself belongs to the toolkit.  Action callbacks go through a
//! [`crate::callbacks::CallbackRegistry`] for the `ACTION` event kind,
//! owned by the event-loop layer.

use vstd::prelude::*;
use vstd::string::StringSliceAdditionalSpecFns;
use crate::handle_rc::HandleRc;
use crate::toolkit::{Toolkit, NativeHandle, attrs_same, attrs_same_except, handle_attrs_same,
    named_same, counts_same_except, widgets_same};
use crate::attributes::{Control, ActiveAttribute, MinMaxSizeAttribute, TipAttribute,
    TitleAttribute, VisibleAttribute, payload, lemma_encode_utf8_len};
use crate::marshal::fits_scratch;

verus! {

/// One shared owner of a native button widget.
pub struct Button(HandleRc);

impl Button {
    /// Create a fresh button widget with a single owner.  The
    /// platform-specific default minimum size is the outer layer's concern.
    pub fn new(tk: &mut Toolkit) -> (b: Button)
        requires
            old(tk).wf(),
            old(tk).fresh_ok(),
        ensures
            final(tk).wf(),
            final(tk).is_live(b.handle_spec()@),
            !old(tk).is_live(b.handle_spec()@),
            final(tk).rc_count(b.handle_spec()@) == Some(1u64),
            final(tk).destroys() == old(tk).destroys(),
            !old(tk).destroys().contains(b.handle_spec()@),
            forall|id: u64|
                id != b.handle_spec()@ ==> final(tk).is_live(id) == old(tk).is_live(id),
            final(tk).ids_used() == old(tk).ids_used() + 1,
            attrs_same(*old(tk), *final(tk)),
            handle_attrs_same(*old(tk), *final(tk)),
            named_same(*old(tk), *final(tk)),
            counts_same_except(*old(tk), *final(tk), b.handle_spec()@),
            forall|n: Seq<u8>| #[trigger] final(tk).attr(b.handle_spec()@, n) is None,
    {
        let h = tk.create_widget();
        let rc = HandleRc::new(tk, h);
        Button(rc)
    }

    /// Create a fresh button carrying a title.
    pub fn with_title(tk: &mut Toolkit, title: &str) -> (b: Button)
        requires
            old(tk).wf(),
            old(tk).fresh_ok(),
            fits_scratch(title.spec_bytes()),
        ensures
            final(tk).wf(),
            final(tk).is_live(b.handle_spec()@),
            !old(tk).is_live(b.handle_spec()@),
            final(tk).rc_count(b.handle_spec()@) == Some(1u64),
            final(tk).destroys() == old(tk).destroys(),
            forall|id: u64|
                id != b.handle_spec()@ ==> final(tk).is_live(id) == old(tk).is_live(id),
            final(tk).ids_used() == old(tk).ids_used() + 1,
            final(tk).attr(b.handle_spec()@, payload("TITLE\0")) == Some(payload(title)),
            attrs_same_except(*old(tk), *final(tk), b.handle_spec()@, payload("TITLE\0")),
            handle_attrs_same(*old(tk), *final(tk)),
            named_same(*old(tk), *final(tk)),
            counts_same_except(*old(tk), *final(tk), b.handle_spec()@),
    {
        let b = Button::new(tk);
        let h = b.handle();
        proof {
            reveal_strlit("TITLE\0");
            lemma_encode_utf8_len("TITLE\0"@);
        }
        crate::attributes::set_title(tk, h, title);
        b
    }

    /// Derive another owner of the same button.
    pub fn clone_ref(&self, tk: &mut Toolkit) -> (b: Button)
        requires
            old(tk).wf(),
            old(tk).rc_count(self.handle_spec()@) is Some,
            old(tk).rc_count(self.handle_spec()@).unwrap() < u64::MAX,
        ensures
            final(tk).wf(),
            b.handle_spec() == self.handle_spec(),
            final(tk).rc_count(self.handle_spec()@) == Some(
                (old(tk).rc_count(self.handle_spec()@).unwrap() + 1) as u64,
            ),
            counts_same_except(*old(tk), *final(tk), self.handle_spec()@),
            widgets_same(*old(tk), *final(tk)),
            attrs_same(*old(tk), *final(tk)),
            handle_attrs_same(*old(tk), *final(tk)),
            named_same(*old(tk), *final(tk)),
    {
        Button(self.0.clone_rc(tk))
    }

    /// Give up this ownership; the final owner's release destroys the
    /// native widget exactly once.
    pub fn release(self, tk: &mut Toolkit)
        requires
            old(tk).wf(),
            old(tk).rc_count(self.handle_spec()@) is Some,
            old(tk).rc_count(self.handle_spec()@).unwrap() >= 1,
        ensures
            final(tk).wf(),
            counts_same_except(*old(tk), *final(tk), self.handle_spec()@),
            old(tk).rc_count(self.handle_spec()@).unwrap() >= 2 ==> final(tk).rc_count(
                self.handle_spec()@,
            ) == Some((old(tk).rc_count(self.handle_spec()@).unwrap() - 1) as u64) && widgets_same(
                *old(tk),
                *final(tk),
            ),
            old(tk).rc_count(self.handle_spec()@).unwrap() == 1 ==> final(tk).rc_count(
                self.handle_spec()@,
            ) is None && !final(tk).is_live(self.handle_spec()@),
            old(tk).rc_count(self.handle_spec()@).unwrap() == 1 && old(tk).is_live(
                self.handle_spec()@,
            ) ==> final(tk).destroys() == old(tk).destroys().push(self.handle_spec()@),
            old(tk).rc_count(self.handle_spec()@).unwrap() == 1 && !old(tk).is_live(
                self.handle_spec()@,
            ) ==> final(tk).destroys() == old(tk).destroys(),
    {
        let Button(rc) = self;
        rc.release(tk);
    }
}

impl Control for Button {
    closed spec fn handle_spec(&self) -> NativeHandle {
        self.0.handle_spec()
    }

    fn handle(&self) -> (h: NativeHandle) {
        self.0.handle()
    }
}

impl ActiveAttribute for Button {
    fn active(&self, tk: &Toolkit) -> (r: bool) {
        crate::attributes::active(tk, self.handle())
    }

    fn set_active(&self, tk: &mut Toolkit, active: bool) {
        crate::attributes::set_active(tk, self.handle(), active);
    }
}

impl MinMaxSizeAttribute for Button {
    fn min_size(&self, tk: &Toolkit) -> (r: (i32, i32)) {
        crate::attributes::min_size(tk, self.handle())
    }

    fn set_min_size(&self, tk: &mut Toolkit, x: i32, y: i32) {
        crate::attributes::set_min_size(tk, self.handle(), x, y);
    }

    fn max_size(&self, tk: &Toolkit) -> (r: (i32, i32)) {
        crate::attributes::max_size(tk, self.handle())
    }

    fn set_max_size(&self, tk: &mut Toolkit, x: i32, y: i32) {
        crate::attributes::set_max_size(tk, self.handle(), x, y);
    }
}

impl TipAttribute for Button {
    fn tip(&self, tk: &Toolkit) -> (r: String) {
        crate::attributes::tip(tk, self.handle())
    }

    fn set_tip(&self, tk: &mut Toolkit, tip: &str) {
        crate::attributes::set_tip(tk, self.handle(), tip);
    }
}

impl TitleAttribute for Button {
    fn title(&self, tk: &Toolkit) -> (r: String) {
        crate::attributes::title(tk, self.handle())
    }

    fn set_title(&self, tk: &mut Toolkit, title: &str) {
        crate::attributes::set_title(tk, self.handle(), title);
    }
}

impl VisibleAttribute for Button {
    fn show(&self, tk: &mut Toolkit) -> (r: Result<(), ()>) {
        crate::attributes::show(tk, self.handle())
    }

    fn hide_widget(&self, tk: &mut Toolkit) -> (r: Result<(), ()>) {
        crate::attributes::hide_widget(tk, self.handle())
    }

    fn visible(&self, tk: &Toolkit) -> (r: bool) {
        crate::attributes::visible(tk, self.handle())
    }

    fn set_visible(&self, tk: &mut Toolkit, visible: bool) -> (r: Result<(), ()>) {
        crate::attributes::set_visible(tk, self.handle(), visible)
    }
}

} // verus!
