//! The model of the native toolkit that the bridge is verified against.
//!
//! The real toolkit lives behind a foreign interface: widgets are opaque
//! handles, attributes are NUL-terminated byte strings keyed by handle and
//! name, a destroy call frees a widget, and named associations store raw
//! handles without retaining them.  This module models exactly that state as
//! an explicit [`Toolkit`] context object, as plain verified data.  Every
//! bridge operation takes the context by reference; the unverified outer
//! layer owns the real foreign calls and keeps the context in step with
//! them.  The context also carries the bridge's shared reference counts,
//! which the native side knows nothing about.

use vstd::prelude::*;
use crate::marshal::is_c_string;
use crate::table::{Entry, lookup, keys_distinct, table_get, table_upsert, table_remove,
    table_remove_widget, bytes_to_vec};

verus! {

/// An opaque, identity-comparable identifier of a toolkit-owned widget.  The
/// bridge never looks inside a handle; its view is the bare identity.
#[derive(Clone, Copy, PartialEq, Eq, Structural, Debug)]
pub struct NativeHandle {
    id: u64,
}

impl View for NativeHandle {
    type V = u64;

    closed spec fn view(&self) -> u64 {
        self.id
    }
}

impl NativeHandle {
    /// The raw identity, for keying tables outside the toolkit model.
    pub fn raw(&self) -> (r: u64)
        ensures
            r == self@,
    {
        self.id
    }
}

/// The modelled toolkit and bridge-bookkeeping state.
pub struct Toolkit {
    next_id: u64,
    name_counter: u64,
    live: Vec<u64>,
    destroyed: Vec<u64>,
    attrs: Vec<Entry<Vec<u8>>>,
    handle_attrs: Vec<Entry<u64>>,
    named: Vec<Entry<u64>>,
    counts: Vec<Entry<u64>>,
}

/// The name under which a widget was registered: the first name whose
/// association stores this widget.
spec fn name_lookup(es: Seq<Entry<u64>>, id: u64) -> Option<Seq<u8>>
    decreases es.len(),
{
    if es.len() == 0 {
        None
    } else if es[0].value == id {
        Some(es[0].name@)
    } else {
        name_lookup(es.drop_first(), id)
    }
}

impl Toolkit {
    /// The widget `id` exists and has not been destroyed.
    pub closed spec fn is_live(self, id: u64) -> bool {
        self.live@.contains(id)
    }

    /// The destroy calls issued so far, in order.
    pub closed spec fn destroys(self) -> Seq<u64> {
        self.destroyed@
    }

    /// The attribute value stored for `(id, name)`, as the native layer
    /// keeps it: payload bytes without the terminating NUL.
    pub closed spec fn attr(self, id: u64, name: Seq<u8>) -> Option<Seq<u8>> {
        match lookup(self.attrs@, id, name) {
            Some(v) => Some(v@),
            None => None,
        }
    }

    /// The raw handle stored for `(id, name)` by a handle association.  The
    /// native layer does not retain the target: it may be dead.
    pub closed spec fn handle_attr(self, id: u64, name: Seq<u8>) -> Option<u64> {
        lookup(self.handle_attrs@, id, name)
    }

    /// The widget registered under a global name.
    pub closed spec fn named_handle(self, name: Seq<u8>) -> Option<u64> {
        lookup(self.named@, 0, name)
    }

    /// The first global name that stores widget `id`.
    pub closed spec fn name_of(self, id: u64) -> Option<Seq<u8>> {
        name_lookup(self.named@, id)
    }

    /// The bridge's shared reference count for widget `id`, if one exists.
    pub closed spec fn rc_count(self, id: u64) -> Option<u64> {
        lookup(self.counts@, id, Seq::<u8>::empty())
    }

    /// How many widget identities have been handed out.
    pub closed spec fn ids_used(self) -> u64 {
        self.next_id
    }

    /// How many unique attribute names have been coined.
    pub closed spec fn names_used(self) -> u64 {
        self.name_counter
    }

    /// A fresh identity is still available.
    pub open spec fn fresh_ok(self) -> bool {
        self.ids_used() < u64::MAX
    }

    /// Internal consistency: keys are distinct, a widget is never both live
    /// and destroyed, no destroy is recorded twice, and nothing refers to an
    /// identity that was never handed out.
    pub closed spec fn wf(self) -> bool {
        &&& keys_distinct(self.attrs@)
        &&& keys_distinct(self.handle_attrs@)
        &&& keys_distinct(self.named@)
        &&& keys_distinct(self.counts@)
        &&& forall|i: int, j: int|
            0 <= i < j < self.live@.len() ==> self.live@[i] != self.live@[j]
        &&& forall|i: int, j: int|
            0 <= i < j < self.destroyed@.len() ==> self.destroyed@[i] != self.destroyed@[j]
        &&& forall|i: int|
            0 <= i < self.live@.len() ==> !self.destroyed@.contains(#[trigger] self.live@[i])
        &&& forall|i: int| 0 <= i < self.live@.len() ==> #[trigger] self.live@[i] < self.next_id
        &&& forall|i: int|
            0 <= i < self.destroyed@.len() ==> #[trigger] self.destroyed@[i] < self.next_id
        &&& forall|id: u64, n: Seq<u8>|
            id >= self.next_id ==> #[trigger] lookup(self.attrs@, id, n) is None
        &&& forall|id: u64, n: Seq<u8>|
            id >= self.next_id ==> #[trigger] lookup(self.counts@, id, n) is None
    }
}

/// The attribute stores of `a` and `b` agree everywhere but at `(w, n)`.
pub open spec fn attrs_same_except(a: Toolkit, b: Toolkit, w: u64, n: Seq<u8>) -> bool {
    forall|w2: u64, n2: Seq<u8>|
        !(w2 == w && n2 == n) ==> #[trigger] b.attr(w2, n2) == a.attr(w2, n2)
}

/// The attribute stores of `a` and `b` agree everywhere.
pub open spec fn attrs_same(a: Toolkit, b: Toolkit) -> bool {
    forall|w2: u64, n2: Seq<u8>| #[trigger] b.attr(w2, n2) == a.attr(w2, n2)
}

/// The handle-association stores agree everywhere but at `(w, n)`.
pub open spec fn handle_attrs_same_except(a: Toolkit, b: Toolkit, w: u64, n: Seq<u8>) -> bool {
    forall|w2: u64, n2: Seq<u8>|
        !(w2 == w && n2 == n) ==> #[trigger] b.handle_attr(w2, n2) == a.handle_attr(w2, n2)
}

/// The handle-association stores agree everywhere.
pub open spec fn handle_attrs_same(a: Toolkit, b: Toolkit) -> bool {
    forall|w2: u64, n2: Seq<u8>| #[trigger] b.handle_attr(w2, n2) == a.handle_attr(w2, n2)
}

/// The global-name stores agree everywhere.
pub open spec fn named_same(a: Toolkit, b: Toolkit) -> bool {
    &&& forall|n: Seq<u8>| #[trigger] b.named_handle(n) == a.named_handle(n)
    &&& forall|id: u64| #[trigger] b.name_of(id) == a.name_of(id)
}

/// The reference counts agree everywhere.
pub open spec fn counts_same(a: Toolkit, b: Toolkit) -> bool {
    forall|id: u64| #[trigger] b.rc_count(id) == a.rc_count(id)
}

/// The reference counts agree everywhere but for widget `w`.
pub open spec fn counts_same_except(a: Toolkit, b: Toolkit, w: u64) -> bool {
    forall|id: u64| id != w ==> #[trigger] b.rc_count(id) == a.rc_count(id)
}

/// Which widgets are live agrees everywhere.
pub open spec fn live_same(a: Toolkit, b: Toolkit) -> bool {
    forall|id: u64| #[trigger] b.is_live(id) == a.is_live(id)
}

/// Neither the liveness of widgets, the destroy record, nor the identity
/// supply changed.
pub open spec fn widgets_same(a: Toolkit, b: Toolkit) -> bool {
    &&& live_same(a, b)
    &&& b.destroys() == a.destroys()
    &&& b.ids_used() == a.ids_used()
}

impl Toolkit {
    /// A fresh toolkit context: no widgets, no attributes, no names, no
    /// counts, no destroy calls.
    pub fn new() -> (tk: Toolkit)
        ensures
            tk.wf(),
            tk.fresh_ok(),
            forall|id: u64| !tk.is_live(id),
            tk.destroys() == Seq::<u64>::empty(),
            forall|id: u64, n: Seq<u8>| #[trigger] tk.attr(id, n) is None,
            forall|id: u64, n: Seq<u8>| #[trigger] tk.handle_attr(id, n) is None,
            forall|n: Seq<u8>| #[trigger] tk.named_handle(n) is None,
            forall|id: u64| #[trigger] tk.name_of(id) is None,
            forall|id: u64| #[trigger] tk.rc_count(id) is None,
    {
        Toolkit {
            next_id: 1,
            name_counter: 0,
            live: Vec::new(),
            destroyed: Vec::new(),
            attrs: Vec::new(),
            handle_attrs: Vec::new(),
            named: Vec::new(),
            counts: Vec::new(),
        }
    }

    /// A live widget has never been destroyed.
    pub proof fn lemma_live_not_destroyed(self, id: u64)
        requires
            self.wf(),
            self.is_live(id),
        ensures
            !self.destroys().contains(id),
    {
        let k = choose|k: int| 0 <= k < self.live@.len() && self.live@[k] == id;
        assert(!self.destroyed@.contains(self.live@[k]));
    }

    /// Whether a fresh widget identity is still available.
    pub fn can_create(&self) -> (r: bool)
        ensures
            r == self.fresh_ok(),
    {
        self.next_id < u64::MAX
    }

    /// Whether widget `h` is live.
    pub fn widget_is_live(&self, h: NativeHandle) -> (r: bool)
        ensures
            r == self.is_live(h@),
    {
        let n = self.live.len();
        let mut i: usize = 0;
        while i < n
            invariant
                i <= n == self.live@.len(),
                forall|j: int| 0 <= j < i ==> self.live@[j] != h@,
            decreases n - i,
        {
            if self.live[i] == h.id {
                return true;
            }
            i = i + 1;
        }
        false
    }

    /// How often the native destroy call has been issued for `h`: by
    /// construction never more than once.
    pub fn times_destroyed(&self, h: NativeHandle) -> (n: u64)
        requires
            self.wf(),
        ensures
            n == if self.destroys().contains(h@) {
                1u64
            } else {
                0u64
            },
            n <= 1,
    {
        let len = self.destroyed.len();
        let mut i: usize = 0;
        while i < len
            invariant
                i <= len == self.destroyed@.len(),
                forall|j: int| 0 <= j < i ==> self.destroyed@[j] != h@,
            decreases len - i,
        {
            if self.destroyed[i] == h.id {
                return 1;
            }
            i = i + 1;
        }
        0
    }

    /// Model of a native factory call: a fresh widget comes to life.
    pub fn create_widget(&mut self) -> (h: NativeHandle)
        requires
            old(self).wf(),
            old(self).fresh_ok(),
        ensures
            final(self).wf(),
            final(self).is_live(h@),
            !old(self).is_live(h@),
            !old(self).destroys().contains(h@),
            forall|id: u64| id != h@ ==> final(self).is_live(id) == old(self).is_live(id),
            final(self).destroys() == old(self).destroys(),
            final(self).ids_used() == old(self).ids_used() + 1,
            attrs_same(*old(self), *final(self)),
            handle_attrs_same(*old(self), *final(self)),
            named_same(*old(self), *final(self)),
            counts_same(*old(self), *final(self)),
            forall|n: Seq<u8>| #[trigger] final(self).attr(h@, n) is None,
            final(self).rc_count(h@) is None,
    {
        let id = self.next_id;
        self.next_id = self.next_id + 1;
        self.live.push(id);
        let ghost newlive = self.live@;
        proof {
            assert(newlive.last() == id);
            assert forall|j: int| 0 <= j < newlive.len() - 1 implies newlive[j] != id by {
                assert(newlive[j] == old(self).live@[j]);
            }
            assert(self.live@.contains(id)) by {
                assert(newlive[newlive.len() - 1] == id);
            }
            assert forall|x: u64| x != id implies newlive.contains(x) == old(
                self,
            ).live@.contains(x) by {
                if newlive.contains(x) {
                    let k = choose|k: int| 0 <= k < newlive.len() && newlive[k] == x;
                    assert(old(self).live@[k] == x);
                }
                if old(self).live@.contains(x) {
                    let k = choose|k: int|
                        0 <= k < old(self).live@.len() && old(self).live@[k] == x;
                    assert(newlive[k] == x);
                }
            }
            if old(self).live@.contains(id) {
                let k = choose|k: int| 0 <= k < old(self).live@.len() && old(self).live@[k] == id;
                assert(old(self).live@[k] < id);
            }
            if old(self).destroyed@.contains(id) {
                let k = choose|k: int|
                    0 <= k < old(self).destroyed@.len() && old(self).destroyed@[k] == id;
                assert(old(self).destroyed@[k] < id);
            }
        }
        NativeHandle { id }
    }

    /// Model of the native destroy call: the widget leaves the live set, the
    /// destroy is recorded, and the toolkit forgets the widget's attributes
    /// and handle associations.  The bridge's reference counts are not
    /// touched: the native layer knows nothing of them.
    pub fn destroy_widget(&mut self, h: NativeHandle)
        requires
            old(self).wf(),
            old(self).is_live(h@),
        ensures
            final(self).wf(),
            !final(self).is_live(h@),
            forall|id: u64| id != h@ ==> final(self).is_live(id) == old(self).is_live(id),
            final(self).destroys() == old(self).destroys().push(h@),
            final(self).ids_used() == old(self).ids_used(),
            forall|n: Seq<u8>| #[trigger] final(self).attr(h@, n) is None,
            forall|n: Seq<u8>| #[trigger] final(self).handle_attr(h@, n) is None,
            attrs_same_except_widget(*old(self), *final(self), h@),
            handle_attrs_same_except_widget(*old(self), *final(self), h@),
            named_same(*old(self), *final(self)),
            counts_same(*old(self), *final(self)),
    {
        let ghost oldlive = self.live@;
        let n = self.live.len();
        let mut i: usize = 0;
        while i < n && self.live[i] != h.id
            invariant
                i <= n == self.live@.len(),
                self.live@ == oldlive,
                forall|j: int| 0 <= j < i ==> self.live@[j] != h@,
                oldlive.contains(h@),
            decreases n - i,
        {
            i = i + 1;
        }
        proof {
            if i == n {
                let k = choose|k: int| 0 <= k < oldlive.len() && oldlive[k] == h@;
                assert(oldlive[k] != h@);
            }
            assert(oldlive[i as int] == h@);
        }
        self.live.remove(i);
        proof {
            let newlive = self.live@;
            assert forall|x: u64| x != h@ implies newlive.contains(x) == oldlive.contains(x) by {
                if newlive.contains(x) {
                    let k = choose|k: int| 0 <= k < newlive.len() && newlive[k] == x;
                    let k0 = if k < i as int {
                        k
                    } else {
                        k + 1
                    };
                    assert(oldlive[k0] == x);
                }
                if oldlive.contains(x) {
                    let k = choose|k: int| 0 <= k < oldlive.len() && oldlive[k] == x;
                    if k < i as int {
                        assert(newlive[k] == x);
                    } else {
                        assert(k != i as int);
                        assert(newlive[k - 1] == x);
                    }
                }
            }
            if newlive.contains(h@) {
                let k = choose|k: int| 0 <= k < newlive.len() && newlive[k] == h@;
                let k0 = if k < i as int {
                    k
                } else {
                    k + 1
                };
                assert(oldlive[k0] == h@ && oldlive[i as int] == h@);
                if k0 < i as int {
                    assert(oldlive[k0] != oldlive[i as int]);
                } else {
                    assert(oldlive[i as int] != oldlive[k0]);
                }
            }
            assert forall|a: int, b: int| 0 <= a < b < newlive.len() implies newlive[a]
                != newlive[b] by {
                let a0 = if a < i as int {
                    a
                } else {
                    a + 1
                };
                let b0 = if b < i as int {
                    b
                } else {
                    b + 1
                };
                assert(newlive[a] == oldlive[a0] && newlive[b] == oldlive[b0]);
            }
        }
        self.destroyed.push(h.id);
        proof {
            let newdes = self.destroyed@;
            assert forall|a: int, b: int| 0 <= a < b < newdes.len() implies newdes[a]
                != newdes[b] by {
                if b == newdes.len() - 1 {
                    assert(newdes[a] == old(self).destroyed@[a]);
                    assert(!old(self).destroyed@.contains(h@)) by {
                        assert(oldlive[i as int] == h@);
                    }
                    if old(self).destroyed@[a] == h@ {
                        assert(old(self).destroyed@.contains(h@));
                    }
                } else {
                    assert(newdes[a] == old(self).destroyed@[a]);
                    assert(newdes[b] == old(self).destroyed@[b]);
                }
            }
            assert forall|j: int| 0 <= j < self.live@.len() implies !newdes.contains(
                #[trigger] self.live@[j],
            ) by {
                if newdes.contains(self.live@[j]) {
                    let k = choose|k: int| 0 <= k < newdes.len() && newdes[k] == self.live@[j];
                    if k < newdes.len() - 1 {
                        assert(old(self).destroyed@[k] == self.live@[j]);
                        assert(oldlive.contains(self.live@[j]));
                    } else {
                        assert(self.live@[j] == h@);
                    }
                }
            }
        }
        table_remove_widget(&mut self.attrs, h.id);
        table_remove_widget(&mut self.handle_attrs, h.id);
    }

    /// Model of the native "set and copy" attribute call: both arguments are
    /// NUL-terminated; the toolkit copies the value payload and stores it
    /// under the widget and the name payload.
    pub fn set_attr_c(&mut self, h: NativeHandle, name_z: &[u8], value_z: &[u8])
        requires
            old(self).wf(),
            old(self).is_live(h@),
            is_c_string(name_z@),
            is_c_string(value_z@),
        ensures
            final(self).wf(),
            final(self).attr(h@, name_z@.drop_last()) == Some(value_z@.drop_last()),
            attrs_same_except(*old(self), *final(self), h@, name_z@.drop_last()),
            widgets_same(*old(self), *final(self)),
            handle_attrs_same(*old(self), *final(self)),
            named_same(*old(self), *final(self)),
            counts_same(*old(self), *final(self)),
    {
        let nlen = name_z.len();
        let vlen = value_z.len();
        let key = bytes_to_vec(&name_z[0..nlen - 1]);
        let val = bytes_to_vec(&value_z[0..vlen - 1]);
        proof {
            assert(key@ =~= name_z@.drop_last());
            assert(val@ =~= value_z@.drop_last());
            assert(h@ < self.next_id) by {
                let k = choose|k: int| 0 <= k < self.live@.len() && self.live@[k] == h@;
            }
        }
        table_upsert(&mut self.attrs, h.id, key, val);
    }

    /// Model of the native attribute read: a borrowed view of the stored
    /// payload, or nothing — the toolkit returns a null pointer for an
    /// attribute it does not hold.
    pub fn get_attr_c(&self, h: NativeHandle, name_z: &[u8]) -> (r: Option<&Vec<u8>>)
        requires
            self.wf(),
            self.is_live(h@),
            is_c_string(name_z@),
        ensures
            match r {
                Some(v) => self.attr(h@, name_z@.drop_last()) == Some(v@),
                None => self.attr(h@, name_z@.drop_last()) is None,
            },
    {
        let nlen = name_z.len();
        let key = &name_z[0..nlen - 1];
        proof {
            assert(key@ =~= name_z@.drop_last());
        }
        table_get(&self.attrs, h.id, key)
    }

    /// Model of the native attribute reset: the stored value is forgotten,
    /// which restores the toolkit-defined default.
    pub fn reset_attr_c(&mut self, h: NativeHandle, name_z: &[u8])
        requires
            old(self).wf(),
            old(self).is_live(h@),
            is_c_string(name_z@),
        ensures
            final(self).wf(),
            final(self).attr(h@, name_z@.drop_last()) is None,
            attrs_same_except(*old(self), *final(self), h@, name_z@.drop_last()),
            widgets_same(*old(self), *final(self)),
            handle_attrs_same(*old(self), *final(self)),
            named_same(*old(self), *final(self)),
            counts_same(*old(self), *final(self)),
    {
        let nlen = name_z.len();
        let key = &name_z[0..nlen - 1];
        proof {
            assert(key@ =~= name_z@.drop_last());
        }
        table_remove(&mut self.attrs, h.id, key);
    }

    /// Model of the native handle association: the raw target handle is
    /// stored under the widget and name payload, without being retained.
    pub fn set_handle_attr_c(&mut self, h: NativeHandle, name_z: &[u8], target: NativeHandle)
        requires
            old(self).wf(),
            old(self).is_live(h@),
            is_c_string(name_z@),
        ensures
            final(self).wf(),
            final(self).handle_attr(h@, name_z@.drop_last()) == Some(target@),
            handle_attrs_same_except(*old(self), *final(self), h@, name_z@.drop_last()),
            widgets_same(*old(self), *final(self)),
            attrs_same(*old(self), *final(self)),
            named_same(*old(self), *final(self)),
            counts_same(*old(self), *final(self)),
    {
        let nlen = name_z.len();
        let key = bytes_to_vec(&name_z[0..nlen - 1]);
        proof {
            assert(key@ =~= name_z@.drop_last());
        }
        table_upsert(&mut self.handle_attrs, h.id, key, target.id);
    }

    /// Model of the native handle-association read.
    pub fn get_handle_attr_c(&self, h: NativeHandle, name_z: &[u8]) -> (r: Option<NativeHandle>)
        requires
            self.wf(),
            self.is_live(h@),
            is_c_string(name_z@),
        ensures
            match r {
                Some(t) => self.handle_attr(h@, name_z@.drop_last()) == Some(t@),
                None => self.handle_attr(h@, name_z@.drop_last()) is None,
            },
    {
        let nlen = name_z.len();
        let key = &name_z[0..nlen - 1];
        proof {
            assert(key@ =~= name_z@.drop_last());
        }
        match table_get(&self.handle_attrs, h.id, key) {
            Some(id) => Some(NativeHandle { id: *id }),
            None => None,
        }
    }

    /// Model of the native global-name registration.  When the name is new
    /// and the widget unnamed, the widget's registered name becomes this
    /// one; rebinding an existing name keeps every already-named widget's
    /// first name.
    pub fn set_named_c(&mut self, name_z: &[u8], h: NativeHandle)
        requires
            old(self).wf(),
            is_c_string(name_z@),
        ensures
            final(self).wf(),
            final(self).named_handle(name_z@.drop_last()) == Some(h@),
            forall|n: Seq<u8>|
                n != name_z@.drop_last() ==> #[trigger] final(self).named_handle(n) == old(
                    self,
                ).named_handle(n),
            widgets_same(*old(self), *final(self)),
            attrs_same(*old(self), *final(self)),
            handle_attrs_same(*old(self), *final(self)),
            counts_same(*old(self), *final(self)),
            old(self).named_handle(name_z@.drop_last()) is None ==> {
                &&& old(self).name_of(h@) is None ==> final(self).name_of(h@) == Some(
                    name_z@.drop_last(),
                )
                &&& forall|id: u64|
                    old(self).name_of(id) is Some ==> #[trigger] final(self).name_of(id) == old(
                        self,
                    ).name_of(id)
            },
    {
        let nlen = name_z.len();
        let key = bytes_to_vec(&name_z[0..nlen - 1]);
        proof {
            assert(key@ =~= name_z@.drop_last());
            if lookup(self.named@, 0, key@) is None {
                crate::table::lemma_lookup_none(self.named@, 0, key@);
                let e = Entry { widget: 0u64, name: key, value: h.id };
                assert forall|id: u64| true implies name_lookup(self.named@.push(e), id) == (
                if name_lookup(self.named@, id) is Some {
                    name_lookup(self.named@, id)
                } else if e.value == id {
                    Some(e.name@)
                } else {
                    None
                }) by {
                    lemma_name_lookup_push(self.named@, e, id);
                }
            }
        }
        table_upsert(&mut self.named, 0, key, h.id);
    }

    /// Model of the native name read: the name the widget was registered
    /// under, if any.
    pub fn registered_name(&self, h: NativeHandle) -> (r: Option<&Vec<u8>>)
        requires
            self.wf(),
        ensures
            match r {
                Some(v) => self.name_of(h@) == Some(v@),
                None => self.name_of(h@) is None,
            },
    {
        let n = self.named.len();
        proof {
            assert(self.named@.skip(0) =~= self.named@);
        }
        let mut i: usize = 0;
        while i < n
            invariant
                i <= n == self.named@.len(),
                name_lookup(self.named@, h@) == name_lookup(self.named@.skip(i as int), h@),
            decreases n - i,
    {
            proof {
                assert(self.named@.skip(i as int)[0] == self.named@[i as int]);
                assert(self.named@.skip(i as int).drop_first() =~= self.named@.skip(i + 1));
            }
            if self.named[i].value == h.id {
                return Some(&self.named[i].name);
            }
            i = i + 1;
        }
        proof {
            assert(self.named@.skip(n as int) =~= Seq::<Entry<u64>>::empty());
        }
        None
    }

    /// Coin the index for the next unique attribute name.
    pub fn fresh_name_index(&mut self) -> (n: u64)
        requires
            old(self).wf(),
            old(self).names_used() < u64::MAX,
        ensures
            final(self).wf(),
            n == old(self).names_used(),
            final(self).names_used() == old(self).names_used() + 1,
            widgets_same(*old(self), *final(self)),
            attrs_same(*old(self), *final(self)),
            handle_attrs_same(*old(self), *final(self)),
            named_same(*old(self), *final(self)),
            counts_same(*old(self), *final(self)),
    {
        let n = self.name_counter;
        self.name_counter = self.name_counter + 1;
        n
    }

    /// Start the bridge's shared count for a freshly wrapped widget.
    pub fn rc_init(&mut self, h: NativeHandle)
        requires
            old(self).wf(),
            old(self).is_live(h@),
            old(self).rc_count(h@) is None,
        ensures
            final(self).wf(),
            final(self).rc_count(h@) == Some(1u64),
            counts_same_except(*old(self), *final(self), h@),
            widgets_same(*old(self), *final(self)),
            attrs_same(*old(self), *final(self)),
            handle_attrs_same(*old(self), *final(self)),
            named_same(*old(self), *final(self)),
    {
        proof {
            assert(h@ < self.next_id) by {
                let k = choose|k: int| 0 <= k < self.live@.len() && self.live@[k] == h@;
            }
        }
        let key: Vec<u8> = Vec::new();
        proof {
            assert(key@ =~= Seq::<u8>::empty());
        }
        table_upsert(&mut self.counts, h.id, key, 1u64);
    }

    /// Read the bridge's shared count for widget `h`.
    pub fn rc_get(&self, h: NativeHandle) -> (r: Option<u64>)
        ensures
            r == self.rc_count(h@),
    {
        let key: Vec<u8> = Vec::new();
        proof {
            assert(key@ =~= Seq::<u8>::empty());
        }
        match table_get(&self.counts, h.id, key.as_slice()) {
            Some(c) => Some(*c),
            None => None,
        }
    }

    /// Raise the bridge's shared count for widget `h` by one.
    pub fn rc_increment(&mut self, h: NativeHandle)
        requires
            old(self).wf(),
            old(self).rc_count(h@) is Some,
            old(self).rc_count(h@).unwrap() < u64::MAX,
        ensures
            final(self).wf(),
            final(self).rc_count(h@) == Some((old(self).rc_count(h@).unwrap() + 1) as u64),
            counts_same_except(*old(self), *final(self), h@),
            widgets_same(*old(self), *final(self)),
            attrs_same(*old(self), *final(self)),
            handle_attrs_same(*old(self), *final(self)),
            named_same(*old(self), *final(self)),
    {
        let key: Vec<u8> = Vec::new();
        proof {
            assert(key@ =~= Seq::<u8>::empty());
            assert(h@ < self.next_id) by {
                if h@ >= self.next_id {
                    assert(lookup(self.counts@, h@, Seq::<u8>::empty()) is None);
                }
            }
        }
        let c = match table_get(&self.counts, h.id, key.as_slice()) {
            Some(c) => *c,
            None => 0,
        };
        let key2: Vec<u8> = Vec::new();
        proof {
            assert(key2@ =~= Seq::<u8>::empty());
        }
        table_upsert(&mut self.counts, h.id, key2, c + 1);
    }

    /// Lower the bridge's shared count for widget `h` by one; the count must
    /// stay positive — the final owner's release removes the count instead.
    pub fn rc_decrement(&mut self, h: NativeHandle)
        requires
            old(self).wf(),
            old(self).rc_count(h@) is Some,
            old(self).rc_count(h@).unwrap() >= 2,
        ensures
            final(self).wf(),
            final(self).rc_count(h@) == Some((old(self).rc_count(h@).unwrap() - 1) as u64),
            counts_same_except(*old(self), *final(self), h@),
            widgets_same(*old(self), *final(self)),
            attrs_same(*old(self), *final(self)),
            handle_attrs_same(*old(self), *final(self)),
            named_same(*old(self), *final(self)),
    {
        let key: Vec<u8> = Vec::new();
        proof {
            assert(key@ =~= Seq::<u8>::empty());
            assert(h@ < self.next_id) by {
                if h@ >= self.next_id {
                    assert(lookup(self.counts@, h@, Seq::<u8>::empty()) is None);
                }
            }
        }
        let c = match table_get(&self.counts, h.id, key.as_slice()) {
            Some(c) => *c,
            None => 2,
        };
        let key2: Vec<u8> = Vec::new();
        proof {
            assert(key2@ =~= Seq::<u8>::empty());
        }
        table_upsert(&mut self.counts, h.id, key2, c - 1);
    }

    /// Forget the bridge's shared count for widget `h`.
    pub fn rc_remove(&mut self, h: NativeHandle)
        requires
            old(self).wf(),
        ensures
            final(self).wf(),
            final(self).rc_count(h@) is None,
            counts_same_except(*old(self), *final(self), h@),
            widgets_same(*old(self), *final(self)),
            attrs_same(*old(self), *final(self)),
            handle_attrs_same(*old(self), *final(self)),
            named_same(*old(self), *final(self)),
    {
        let key: Vec<u8> = Vec::new();
        proof {
            assert(key@ =~= Seq::<u8>::empty());
        }
        table_remove(&mut self.counts, h.id, key.as_slice());
    }
}

/// The attribute stores agree for every widget but `w`.
pub open spec fn attrs_same_except_widget(a: Toolkit, b: Toolkit, w: u64) -> bool {
    forall|w2: u64, n2: Seq<u8>| w2 != w ==> #[trigger] b.attr(w2, n2) == a.attr(w2, n2)
}

/// The handle-association stores agree for every widget but `w`.
pub open spec fn handle_attrs_same_except_widget(a: Toolkit, b: Toolkit, w: u64) -> bool {
    forall|w2: u64, n2: Seq<u8>| w2 != w ==> #[trigger] b.handle_attr(w2, n2) == a.handle_attr(w2, n2)
}

/// Appending a name association changes only an unnamed target's name, and
/// only to this entry's name.
proof fn lemma_name_lookup_push(es: Seq<Entry<u64>>, e: Entry<u64>, id: u64)
    ensures
        name_lookup(es.push(e), id) == if name_lookup(es, id) is Some {
            name_lookup(es, id)
        } else if e.value == id {
            Some(e.name@)
        } else {
            None
        },
    decreases es.len(),
{
    if es.len() == 0 {
        assert(es.push(e)[0] == e);
        assert(es.push(e).drop_first() =~= Seq::<Entry<u64>>::empty());
        assert(name_lookup(Seq::<Entry<u64>>::empty(), id) is None);
        assert(name_lookup(es, id) is None);
    } else {
        assert(es.push(e)[0] == es[0]);
        assert(es.push(e).drop_first() =~= es.drop_first().push(e));
        lemma_name_lookup_push(es.drop_first(), e, id);
    }
}

} // verus!
