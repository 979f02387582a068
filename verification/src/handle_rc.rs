//! Shared ownership of native handles with exactly-once destruction.
//!
//! A [`HandleRc`] is one owner of a native widget.  The owners of one widget
//! share a reference count kept in the [`Toolkit`] context; cloning adds an
//! owner, releasing removes one, and the release that takes the count from
//! one to zero issues the native destroy call — exactly once, and never
//! while another owner remains.  The native layer may destroy a widget on
//! its own (a container destroys its children); the final release tolerates
//! that and never issues a second destroy for the same handle.

use vstd::prelude::*;
use crate::toolkit::{Toolkit, NativeHandle, attrs_same, attrs_same_except_widget,
    handle_attrs_same, handle_attrs_same_except_widget, named_same, counts_same_except,
    widgets_same};
use crate::callbacks::CallbackRegistry;

verus! {

/// One shared owner of a native widget handle.
pub struct HandleRc {
    h: NativeHandle,
}

/// One ownership event in the life of a wrapped handle.
#[derive(Clone, Copy, PartialEq, Eq, Structural, Debug)]
pub enum RcOp {
    /// A new owner is derived from an existing one.
    CloneOwner,
    /// An owner goes away.
    DropOwner,
}

/// The abstract lifetime state of one wrapped handle: how many owners share
/// it and how many native destroy calls have been issued for it.
pub struct RcState {
    pub count: int,
    pub destroys: int,
}

/// How one ownership event changes the abstract state: cloning raises the
/// count; dropping lowers it, and the drop that reaches zero issues the one
/// destroy call.
pub open spec fn rc_step(s: RcState, op: RcOp) -> RcState {
    match op {
        RcOp::CloneOwner => RcState { count: s.count + 1, destroys: s.destroys },
        RcOp::DropOwner => if s.count == 1 {
            RcState { count: 0, destroys: s.destroys + 1 }
        } else {
            RcState { count: s.count - 1, destroys: s.destroys }
        },
    }
}

/// The abstract state after the first `i` of the events in `ops`, starting
/// from a single owner and no destroy call.
pub open spec fn rc_run(ops: Seq<RcOp>, i: int) -> RcState
    decreases i,
{
    if i <= 0 {
        RcState { count: 1, destroys: 0 }
    } else {
        rc_step(rc_run(ops, i - 1), ops[i - 1])
    }
}

/// The abstract lifetime state of widget `id` in a toolkit context.
pub open spec fn rc_abstract(tk: Toolkit, id: u64) -> RcState {
    RcState {
        count: match tk.rc_count(id) {
            Some(c) => c as int,
            None => 0,
        },
        destroys: if tk.destroys().contains(id) {
            1int
        } else {
            0int
        },
    }
}

/// Exactly-once destruction law.  Starting from a single owner, run any
/// number of clones and drops, in any order in which an owner still exists
/// whenever an event happens.  Then after every prefix of the events, the
/// native destroy call has been issued exactly once if the count has reached
/// zero — which can only happen at the very last drop — and not at all
/// before.
pub proof fn lemma_destroy_exactly_once(ops: Seq<RcOp>)
    requires
        forall|i: int| 0 <= i < ops.len() ==> (#[trigger] rc_run(ops, i)).count >= 1,
    ensures
        forall|i: int|
            0 <= i <= ops.len() ==> (#[trigger] rc_run(ops, i)).destroys == (
            if rc_run(ops, i).count == 0 {
                1int
            } else {
                0int
            }),
{
    assert forall|i: int| 0 <= i <= ops.len() implies (#[trigger] rc_run(ops, i)).destroys == (
    if rc_run(ops, i).count == 0 {
        1int
    } else {
        0int
    }) by {
        lemma_rc_run_shape(ops, i);
    }
}

/// Helper for the exactly-once law: induction over the prefix length.
proof fn lemma_rc_run_shape(ops: Seq<RcOp>, i: int)
    requires
        0 <= i <= ops.len(),
        forall|j: int| 0 <= j < ops.len() ==> (#[trigger] rc_run(ops, j)).count >= 1,
    ensures
        rc_run(ops, i).count >= 0,
        rc_run(ops, i).destroys == if rc_run(ops, i).count == 0 {
            1int
        } else {
            0int
        },
    decreases i,
{
    if i > 0 {
        lemma_rc_run_shape(ops, i - 1);
        assert(rc_run(ops, i - 1).count >= 1);
    }
}

impl HandleRc {
    /// The wrapped handle.
    pub closed spec fn handle_spec(self) -> NativeHandle {
        self.h
    }

    /// Wrap a freshly created, not-yet-owned native widget; the shared count
    /// starts at one.
    pub fn new(tk: &mut Toolkit, h: NativeHandle) -> (rc: HandleRc)
        requires
            old(tk).wf(),
            old(tk).is_live(h@),
            old(tk).rc_count(h@) is None,
        ensures
            final(tk).wf(),
            rc.handle_spec() == h,
            final(tk).rc_count(h@) == Some(1u64),
            counts_same_except(*old(tk), *final(tk), h@),
            widgets_same(*old(tk), *final(tk)),
            attrs_same(*old(tk), *final(tk)),
            handle_attrs_same(*old(tk), *final(tk)),
            named_same(*old(tk), *final(tk)),
    {
        tk.rc_init(h);
        HandleRc { h }
    }

    /// The wrapped handle, for passing to toolkit calls.
    pub fn handle(&self) -> (h: NativeHandle)
        ensures
            h == self.handle_spec(),
    {
        self.h
    }

    /// Derive a new owner of the same widget: the shared count rises by one.
    pub fn clone_rc(&self, tk: &mut Toolkit) -> (rc: HandleRc)
        requires
            old(tk).wf(),
            old(tk).rc_count(self.handle_spec()@) is Some,
            old(tk).rc_count(self.handle_spec()@).unwrap() < u64::MAX,
        ensures
            final(tk).wf(),
            rc.handle_spec() == self.handle_spec(),
            rc_abstract(*final(tk), self.handle_spec()@) == rc_step(
                rc_abstract(*old(tk), self.handle_spec()@),
                RcOp::CloneOwner,
            ),
            counts_same_except(*old(tk), *final(tk), self.handle_spec()@),
            widgets_same(*old(tk), *final(tk)),
            attrs_same(*old(tk), *final(tk)),
            handle_attrs_same(*old(tk), *final(tk)),
            named_same(*old(tk), *final(tk)),
    {
        tk.rc_increment(self.h);
        HandleRc { h: self.h }
    }

    /// Give up this ownership.  While other owners remain the count just
    /// falls by one.  The final owner's release issues the native destroy
    /// call — unless the native layer already destroyed the widget on its
    /// own (a container destroying its children), in which case no second
    /// destroy is issued.
    pub fn release(self, tk: &mut Toolkit)
        requires
            old(tk).wf(),
            old(tk).rc_count(self.handle_spec()@) is Some,
            old(tk).rc_count(self.handle_spec()@).unwrap() >= 1,
        ensures
            final(tk).wf(),
            counts_same_except(*old(tk), *final(tk), self.handle_spec()@),
            named_same(*old(tk), *final(tk)),
            old(tk).rc_count(self.handle_spec()@).unwrap() >= 2 ==> {
                &&& rc_abstract(*final(tk), self.handle_spec()@) == rc_step(
                    rc_abstract(*old(tk), self.handle_spec()@),
                    RcOp::DropOwner,
                )
                &&& widgets_same(*old(tk), *final(tk))
                &&& attrs_same(*old(tk), *final(tk))
                &&& handle_attrs_same(*old(tk), *final(tk))
            },
            old(tk).rc_count(self.handle_spec()@).unwrap() == 1 ==> {
                &&& final(tk).rc_count(self.handle_spec()@) is None
                &&& !final(tk).is_live(self.handle_spec()@)
                &&& forall|id: u64|
                    id != self.handle_spec()@ ==> final(tk).is_live(id) == old(tk).is_live(id)
                &&& attrs_same_except_widget(*old(tk), *final(tk), self.handle_spec()@)
                &&& handle_attrs_same_except_widget(*old(tk), *final(tk), self.handle_spec()@)
                &&& final(tk).ids_used() == old(tk).ids_used()
            },
            old(tk).rc_count(self.handle_spec()@).unwrap() == 1 && old(tk).is_live(
                self.handle_spec()@,
            ) ==> {
                &&& final(tk).destroys() == old(tk).destroys().push(self.handle_spec()@)
                &&& rc_abstract(*final(tk), self.handle_spec()@) == rc_step(
                    rc_abstract(*old(tk), self.handle_spec()@),
                    RcOp::DropOwner,
                )
            },
            old(tk).rc_count(self.handle_spec()@).unwrap() == 1 && !old(tk).is_live(
                self.handle_spec()@,
            ) ==> final(tk).destroys() == old(tk).destroys(),
    {
        let h = self.h;
        let c = match tk.rc_get(h) {
            Some(c) => c,
            None => 1,
        };
        if c >= 2 {
            tk.rc_decrement(h);
        } else {
            tk.rc_remove(h);
            if tk.widget_is_live(h) {
                proof {
                    tk.lemma_live_not_destroyed(h@);
                }
                tk.destroy_widget(h);
                proof {
                    assert(tk.destroys().last() == h@);
                    assert(tk.destroys().contains(h@));
                }
            }
        }
    }

    /// Give up this ownership, and on the final release purge the
    /// handle's registration from the given callback registry before the
    /// native destroy call — after this, no dispatch through that registry
    /// can reach a callback for the destroyed widget.
    pub fn release_purging<C>(self, tk: &mut Toolkit, reg: &mut CallbackRegistry<C>)
        requires
            old(tk).wf(),
            old(reg).wf(),
            old(tk).rc_count(self.handle_spec()@) is Some,
            old(tk).rc_count(self.handle_spec()@).unwrap() >= 1,
        ensures
            final(tk).wf(),
            final(reg).wf(),
            counts_same_except(*old(tk), *final(tk), self.handle_spec()@),
            old(tk).rc_count(self.handle_spec()@).unwrap() >= 2 ==> {
                &&& final(tk).rc_count(self.handle_spec()@) == Some(
                    (old(tk).rc_count(self.handle_spec()@).unwrap() - 1) as u64,
                )
                &&& widgets_same(*old(tk), *final(tk))
                &&& *final(reg) == *old(reg)
            },
            old(tk).rc_count(self.handle_spec()@).unwrap() == 1 ==> {
                &&& final(tk).rc_count(self.handle_spec()@) is None
                &&& !final(tk).is_live(self.handle_spec()@)
                &&& final(reg).cb(self.handle_spec()@) is None
                &&& forall|h2: u64|
                    h2 != self.handle_spec()@ ==> #[trigger] final(reg).cb(h2) == old(reg).cb(h2)
                &&& final(reg).tokens_used() == old(reg).tokens_used()
            },
            old(tk).rc_count(self.handle_spec()@).unwrap() == 1 && old(tk).is_live(
                self.handle_spec()@,
            ) ==> final(tk).destroys() == old(tk).destroys().push(self.handle_spec()@),
            old(tk).rc_count(self.handle_spec()@).unwrap() == 1 && !old(tk).is_live(
                self.handle_spec()@,
            ) ==> final(tk).destroys() == old(tk).destroys(),
    {
        let c = match tk.rc_get(self.handle()) {
            Some(c) => c,
            None => 1,
        };
        if c == 1 {
            reg.purge_handle(self.handle());
        }
        self.release(tk);
    }
}

} // verus!
