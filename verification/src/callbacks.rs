//! The callback registry: (handle, event-kind) to one application callback.
//!
//! One registry exists per event kind, owned by the event-loop layer and
//! passed explicitly to the operations that need it.  Registering stores one
//! callback per handle — a second registration for the same handle replaces
//! the first — and hands back an opaque token with which exactly that
//! registration can be reversed; unregistering an unknown or already-removed
//! token is a harmless no-op.  The native trampolines look a callback up
//! here and translate what happened into the toolkit's status codes; the
//! invocation itself, and the interception of panics before they could
//! unwind into the foreign caller, belong to the unverified outer layer.

use vstd::prelude::*;
use vstd::string::StringSliceAdditionalSpecFns;
use crate::table::{Entry, lookup, keys_distinct, has_key, lemma_lookup_none, lemma_lookup_push,
    lemma_lookup_remove, lemma_lookup_found, bytes_to_vec};
use crate::toolkit::NativeHandle;

verus! {

/// The status a trampoline reports to the native dispatcher: go on with
/// default processing.
pub const IUP_DEFAULT: i32 = -2;

/// The status that closes the interface loop.
pub const IUP_CLOSE: i32 = -3;

/// The status that swallows the event.
pub const IUP_IGNORE: i32 = -1;

/// What a callback tells the native dispatcher about the event.
#[derive(Clone, Copy, PartialEq, Eq, Structural, Debug)]
pub enum PropagationDecision {
    /// Let the toolkit go on handling the event.
    ContinuePropagation,
    /// Close the interface loop.
    Close,
    /// Swallow the event.
    Ignore,
}

/// What happened when a trampoline dispatched an event.
#[derive(Clone, Copy, PartialEq, Eq, Structural, Debug)]
pub enum DispatchOutcome {
    /// No callback is registered for the handle.
    NoHandler,
    /// The callback ran to completion and made a decision.
    Completed(PropagationDecision),
    /// The callback failed; the failure was intercepted at the dispatch
    /// boundary, before it could unwind into the foreign call frame.
    Aborted,
}

/// The status code owed to the native dispatcher for an outcome: a missing
/// handler and an intercepted failure both fall back to the default
/// "continue" decision.
pub open spec fn status_of(o: DispatchOutcome) -> int {
    match o {
        DispatchOutcome::NoHandler => IUP_DEFAULT as int,
        DispatchOutcome::Completed(PropagationDecision::ContinuePropagation) => IUP_DEFAULT as int,
        DispatchOutcome::Completed(PropagationDecision::Close) => IUP_CLOSE as int,
        DispatchOutcome::Completed(PropagationDecision::Ignore) => IUP_IGNORE as int,
        DispatchOutcome::Aborted => IUP_DEFAULT as int,
    }
}

/// Translate a dispatch outcome into the native status code.
pub fn dispatch_status(o: DispatchOutcome) -> (r: i32)
    ensures
        r == status_of(o),
{
    match o {
        DispatchOutcome::NoHandler => IUP_DEFAULT,
        DispatchOutcome::Completed(PropagationDecision::ContinuePropagation) => IUP_DEFAULT,
        DispatchOutcome::Completed(PropagationDecision::Close) => IUP_CLOSE,
        DispatchOutcome::Completed(PropagationDecision::Ignore) => IUP_IGNORE,
        DispatchOutcome::Aborted => IUP_DEFAULT,
    }
}

/// An opaque, registry-unique value returned on registration and used only
/// to reverse that registration.
#[derive(Clone, Copy, PartialEq, Eq, Structural, Debug)]
pub struct Token {
    id: u64,
}

impl View for Token {
    type V = u64;

    closed spec fn view(&self) -> u64 {
        self.id
    }
}

/// The handle that owns the registration made under token `t`.
spec fn token_owner_in<C>(es: Seq<Entry<(u64, C)>>, t: u64) -> Option<u64>
    decreases es.len(),
{
    if es.len() == 0 {
        None
    } else if es[0].value.0 == t {
        Some(es[0].widget)
    } else {
        token_owner_in(es.drop_first(), t)
    }
}

/// The registry for one event kind: at most one callback per handle.
pub struct CallbackRegistry<C> {
    event: Vec<u8>,
    entries: Vec<Entry<(u64, C)>>,
    next_token: u64,
}

impl<C> CallbackRegistry<C> {
    /// The event kind this registry serves.
    pub closed spec fn event_kind(self) -> Seq<char> {
        self.event@.map_values(|b: u8| b as char)
    }

    /// The callback registered for handle `h`.
    pub closed spec fn cb(self, h: u64) -> Option<C> {
        match lookup(self.entries@, h, Seq::<u8>::empty()) {
            Some(v) => Some(v.1),
            None => None,
        }
    }

    /// The token of the registration held for handle `h`.
    pub closed spec fn token_of(self, h: u64) -> Option<u64> {
        match lookup(self.entries@, h, Seq::<u8>::empty()) {
            Some(v) => Some(v.0),
            None => None,
        }
    }

    /// The handle whose registration the token `t` identifies, if the
    /// registration still stands.
    pub closed spec fn token_owner(self, t: u64) -> Option<u64> {
        token_owner_in(self.entries@, t)
    }

    /// Token `t` still identifies a standing registration.
    pub open spec fn token_live(self, t: u64) -> bool {
        self.token_owner(t) is Some
    }

    /// How many tokens have been handed out.
    pub closed spec fn tokens_used(self) -> u64 {
        self.next_token
    }

    /// Internal consistency: one entry per handle, tokens distinct and all
    /// below the supply, keys carried by the handle alone.
    pub closed spec fn wf(self) -> bool {
        &&& keys_distinct(self.entries@)
        &&& forall|i: int|
            0 <= i < self.entries@.len() ==> (#[trigger] self.entries@[i]).value.0
                < self.next_token
        &&& forall|i: int, j: int|
            0 <= i < j < self.entries@.len() ==> self.entries@[i].value.0
                != self.entries@[j].value.0
        &&& forall|i: int|
            0 <= i < self.entries@.len() ==> (#[trigger] self.entries@[i]).name@ == Seq::<
                u8,
            >::empty()
    }

    /// A registry for one event kind, with nothing registered.
    pub fn new(event_name: &str) -> (reg: CallbackRegistry<C>)
        requires
            vstd::string::is_ascii(event_name),
        ensures
            reg.wf(),
            reg.event_kind() == event_name@,
            forall|h: u64| #[trigger] reg.cb(h) is None,
            forall|t: u64| !#[trigger] reg.token_live(t),
    {
        let bytes = event_name.as_bytes();
        let event = bytes_to_vec(bytes);
        proof {
            vstd::string::is_ascii_spec_bytes(event_name);
            assert(event@.map_values(|b: u8| b as char) =~= event_name@);
        }
        CallbackRegistry { event, entries: Vec::new(), next_token: 0 }
    }

    /// How many tokens have been handed out so far.
    pub fn tokens_used_count(&self) -> (n: u64)
        ensures
            n == self.tokens_used(),
    {
        self.next_token
    }

    /// The event kind, as bytes.
    pub fn event_name(&self) -> (r: &Vec<u8>)
        ensures
            r@.map_values(|b: u8| b as char) == self.event_kind(),
    {
        &self.event
    }

    /// Drop the registration held for handle `h`, if any: afterwards
    /// dispatch for `h` falls back to the default decision.  Other handles'
    /// registrations, and the token supply, stay as they were.
    pub fn purge_handle(&mut self, h: NativeHandle)
        requires
            old(self).wf(),
        ensures
            final(self).wf(),
            final(self).cb(h@) is None,
            forall|h2: u64|
                h2 != h@ ==> #[trigger] final(self).cb(h2) == old(self).cb(h2) && final(self).token_of(h2) == old(self).token_of(h2),
            forall|t: u64|
                #[trigger] final(self).token_owner(t) == if old(self).token_owner(t) == Some(h@) {
                    None::<u64>
                } else {
                    old(self).token_owner(t)
                },
            final(self).tokens_used() == old(self).tokens_used(),
            final(self).event_kind() == old(self).event_kind(),
    {
        let ghost orig = self.entries@;
        let n = self.entries.len();
        let mut i: usize = 0;
        while i < n && self.entries[i].widget != h.raw()
            invariant
                i <= n == self.entries@.len(),
                self.entries@ == orig,
                forall|j: int| 0 <= j < i ==> orig[j].widget != h@,
            decreases n - i,
        {
            i = i + 1;
        }
        if i == n {
            proof {
                lemma_lookup_none(orig, h@, Seq::<u8>::empty());
                assert forall|t: u64| old(self).token_owner(t) != Some(h@) by {
                    lemma_token_owner_entry(orig, t);
                }
            }
            return ;
        }
        proof {
            assert(orig[i as int].widget == h@);
            assert forall|w2: u64, n2: Seq<u8>| true implies lookup(orig.remove(i as int), w2, n2)
                == if has_key(orig[i as int], w2, n2) {
                None::<(u64, C)>
            } else {
                lookup(orig, w2, n2)
            } by {
                lemma_lookup_remove(orig, i as int, w2, n2);
            }
            assert forall|t: u64| true implies token_owner_in(orig.remove(i as int), t) == (
            if orig[i as int].value.0 == t {
                None::<u64>
            } else {
                token_owner_in(orig, t)
            }) by {
                lemma_token_owner_remove(orig, i as int, t);
            }
            assert forall|t: u64| true implies token_owner_in(orig, t) == Some(h@) <==> orig[
                i as int
            ].value.0 == t by {
                lemma_token_owner_entry(orig, t);
                if token_owner_in(orig, t) == Some(h@) {
                    let k = choose|k: int|
                        0 <= k < orig.len() && orig[k].value.0 == t && orig[k].widget == h@;
                    if k != i as int {
                        if k < i as int {
                            assert(!has_key(orig[k], orig[i as int].widget, orig[i as int].name@));
                        } else {
                            assert(!has_key(orig[i as int], orig[k].widget, orig[k].name@));
                        }
                        assert(orig[k].name@ == Seq::<u8>::empty());
                    }
                } else {
                    if orig[i as int].value.0 == t {
                        lemma_token_owner_found(orig, i as int, t);
                    }
                }
            }
        }
        self.entries.remove(i);
        proof {
            let cur = self.entries@;
            assert forall|a: int, b: int| 0 <= a < b < cur.len() implies !has_key(
                #[trigger] cur[a],
                (#[trigger] cur[b]).widget,
                cur[b].name@,
            ) && cur[a].value.0 != cur[b].value.0 by {
                let a0 = if a < i as int {
                    a
                } else {
                    a + 1
                };
                let b0 = if b < i as int {
                    b
                } else {
                    b + 1
                };
                assert(cur[a] == orig[a0] && cur[b] == orig[b0]);
            }
            assert forall|k: int| 0 <= k < cur.len() implies (#[trigger] cur[k]).value.0
                < self.next_token && cur[k].name@ == Seq::<u8>::empty() by {
                let k0 = if k < i as int {
                    k
                } else {
                    k + 1
                };
                assert(cur[k] == orig[k0]);
            }
        }
    }

    /// Store `cb` for handle `h`, replacing and dropping any previous
    /// registration for that handle — afterwards only `cb` is active for
    /// `h`, under a token never handed out before.
    pub fn register(&mut self, h: NativeHandle, cb: C) -> (t: Token)
        requires
            old(self).wf(),
            old(self).tokens_used() < u64::MAX,
        ensures
            final(self).wf(),
            t@ == old(self).tokens_used(),
            !old(self).token_live(t@),
            final(self).cb(h@) == Some(cb),
            final(self).token_of(h@) == Some(t@),
            final(self).token_owner(t@) == Some(h@),
            forall|h2: u64|
                h2 != h@ ==> #[trigger] final(self).cb(h2) == old(self).cb(h2) && final(self).token_of(h2) == old(self).token_of(h2),
            forall|t2: u64|
                t2 != t@ ==> #[trigger] final(self).token_owner(t2) == (if old(self).token_owner(
                    t2,
                ) == Some(h@) {
                    None::<u64>
                } else {
                    old(self).token_owner(t2)
                }),
            final(self).tokens_used() == old(self).tokens_used() + 1,
            final(self).event_kind() == old(self).event_kind(),
    {
        proof {
            if old(self).token_live(self.next_token) {
                lemma_token_owner_entry(self.entries@, self.next_token);
            }
        }
        self.purge_handle(h);
        let ghost midreg = *self;
        let ghost mid = self.entries@;
        let t = Token { id: self.next_token };
        let e = Entry { widget: h.raw(), name: Vec::new(), value: (self.next_token, cb) };
        proof {
            assert(e.name@ =~= Seq::<u8>::empty());
            assert forall|w2: u64, n2: Seq<u8>| true implies lookup(mid.push(e), w2, n2) == (
            if lookup(mid, w2, n2) is Some {
                lookup(mid, w2, n2)
            } else if has_key(e, w2, n2) {
                Some(e.value)
            } else {
                None
            }) by {
                lemma_lookup_push(mid, e, w2, n2);
            }
            assert forall|t2: u64| true implies token_owner_in(mid.push(e), t2) == (
            if token_owner_in(mid, t2) is Some {
                token_owner_in(mid, t2)
            } else if e.value.0 == t2 {
                Some(e.widget)
            } else {
                None
            }) by {
                lemma_token_owner_push(mid, e, t2);
            }
            lemma_lookup_none(mid, h@, Seq::<u8>::empty());
            assert forall|t2: u64|
                token_owner_in(mid, t2) is Some implies t2 < self.next_token by {
                lemma_token_owner_entry(mid, t2);
            }
        }
        let ghost ev = e;
        self.entries.push(e);
        self.next_token = self.next_token + 1;
        proof {
            let cur = self.entries@;
            assert(cur == mid.push(ev));
            assert forall|h2: u64|
                h2 != h@ implies self.cb(h2) == old(self).cb(h2) && self.token_of(h2) == old(
                self,
            ).token_of(h2) by {
                assert(midreg.cb(h2) == old(self).cb(h2));
                assert(midreg.token_of(h2) == old(self).token_of(h2));
                lemma_lookup_push(mid, ev, h2, Seq::<u8>::empty());
            }
            assert forall|t2: u64|
                t2 != t@ implies self.token_owner(t2) == (if old(self).token_owner(t2) == Some(h@) {
                None::<u64>
            } else {
                old(self).token_owner(t2)
            }) by {
                assert(midreg.token_owner(t2) == (if old(self).token_owner(t2) == Some(h@) {
                    None::<u64>
                } else {
                    old(self).token_owner(t2)
                }));
                lemma_token_owner_push(mid, ev, t2);
            }
            assert forall|a: int, b: int| 0 <= a < b < cur.len() implies !has_key(
                #[trigger] cur[a],
                (#[trigger] cur[b]).widget,
                cur[b].name@,
            ) && cur[a].value.0 != cur[b].value.0 by {
                if b == cur.len() - 1 {
                    assert(cur[a] == mid[a]);
                    assert(lookup(mid, h@, Seq::<u8>::empty()) is None);
                    if has_key(cur[a], cur[b].widget, cur[b].name@) {
                        lemma_lookup_found(mid, a, h@, Seq::<u8>::empty());
                    }
                } else {
                    assert(cur[a] == mid[a] && cur[b] == mid[b]);
                }
            }
        }
        t
    }

    /// Reverse the registration identified by `t`: if it still stands it is
    /// removed, and dispatch for its handle falls back to the default
    /// decision; an already-removed or unknown token changes nothing.
    pub fn unregister(&mut self, t: Token)
        requires
            old(self).wf(),
        ensures
            final(self).wf(),
            !final(self).token_live(t@),
            old(self).token_owner(t@) matches Some(h) ==> final(self).cb(h) is None && final(self).token_of(h) is None,
            forall|h2: u64|
                old(self).token_owner(t@) != Some(h2) ==> #[trigger] final(self).cb(h2) == old(self).cb(h2) && final(self).token_of(h2) == old(self).token_of(h2),
            forall|t2: u64|
                t2 != t@ ==> #[trigger] final(self).token_owner(t2) == old(self).token_owner(t2),
            final(self).tokens_used() == old(self).tokens_used(),
            final(self).event_kind() == old(self).event_kind(),
    {
        let ghost orig = self.entries@;
        let n = self.entries.len();
        let mut i: usize = 0;
        while i < n && self.entries[i].value.0 != t.id
            invariant
                i <= n == self.entries@.len(),
                self.entries@ == orig,
                forall|j: int| 0 <= j < i ==> orig[j].value.0 != t@,
            decreases n - i,
        {
            i = i + 1;
        }
        if i == n {
            proof {
                lemma_token_owner_entry(orig, t@);
                if token_owner_in(orig, t@) is Some {
                    let k = choose|k: int| 0 <= k < orig.len() && orig[k].value.0 == t@;
                    assert(orig[k].value.0 != t@);
                }
            }
            return ;
        }
        proof {
            assert(orig[i as int].value.0 == t@);
            lemma_token_owner_found(orig, i as int, t@);
            assert forall|w2: u64, n2: Seq<u8>| true implies lookup(orig.remove(i as int), w2, n2)
                == if has_key(orig[i as int], w2, n2) {
                None::<(u64, C)>
            } else {
                lookup(orig, w2, n2)
            } by {
                lemma_lookup_remove(orig, i as int, w2, n2);
            }
            assert forall|t2: u64| true implies token_owner_in(orig.remove(i as int), t2) == (
            if orig[i as int].value.0 == t2 {
                None::<u64>
            } else {
                token_owner_in(orig, t2)
            }) by {
                lemma_token_owner_remove(orig, i as int, t2);
            }
            let h = orig[i as int].widget;
            assert forall|h2: u64|
                h2 != h implies !has_key(orig[i as int], h2, Seq::<u8>::empty()) by {}
        }
        self.entries.remove(i);
        proof {
            let cur = self.entries@;
            assert forall|a: int, b: int| 0 <= a < b < cur.len() implies !has_key(
                #[trigger] cur[a],
                (#[trigger] cur[b]).widget,
                cur[b].name@,
            ) && cur[a].value.0 != cur[b].value.0 by {
                let a0 = if a < i as int {
                    a
                } else {
                    a + 1
                };
                let b0 = if b < i as int {
                    b
                } else {
                    b + 1
                };
                assert(cur[a] == orig[a0] && cur[b] == orig[b0]);
            }
            assert forall|k: int| 0 <= k < cur.len() implies (#[trigger] cur[k]).value.0
                < self.next_token && cur[k].name@ == Seq::<u8>::empty() by {
                let k0 = if k < i as int {
                    k
                } else {
                    k + 1
                };
                assert(cur[k] == orig[k0]);
            }
        }
    }

    /// The callback to invoke when the native layer dispatches an event for
    /// handle `h` — or nothing, in which case the trampoline reports the
    /// default decision.
    pub fn cb_for_handle(&self, h: NativeHandle) -> (r: Option<&C>)
        requires
            self.wf(),
        ensures
            match r {
                Some(cb) => self.cb(h@) == Some(*cb),
                None => self.cb(h@) is None,
            },
    {
        let ghost es = self.entries@;
        let n = self.entries.len();
        let mut i: usize = 0;
        while i < n && self.entries[i].widget != h.raw()
            invariant
                i <= n == self.entries@.len(),
                self.entries@ == es,
                forall|j: int| 0 <= j < i ==> es[j].widget != h@,
            decreases n - i,
        {
            i = i + 1;
        }
        if i == n {
            proof {
                lemma_lookup_none(es, h@, Seq::<u8>::empty());
            }
            None
        } else {
            proof {
                assert forall|j: int| 0 <= j < i implies !has_key(
                    #[trigger] es[j],
                    h@,
                    Seq::<u8>::empty(),
                ) by {}
                lemma_lookup_found(es, i as int, h@, Seq::<u8>::empty());
            }
            Some(&self.entries[i].value.1)
        }
    }
}

/// A live token is carried by some entry, and that entry's handle is its
/// owner.
proof fn lemma_token_owner_entry<C>(es: Seq<Entry<(u64, C)>>, t: u64)
    ensures
        token_owner_in(es, t) is Some <==> exists|i: int|
            0 <= i < es.len() && (#[trigger] es[i]).value.0 == t,
        token_owner_in(es, t) matches Some(h) ==> exists|i: int|
            0 <= i < es.len() && (#[trigger] es[i]).value.0 == t && es[i].widget == h,
    decreases es.len(),
{
    if es.len() > 0 {
        lemma_token_owner_entry(es.drop_first(), t);
        if es[0].value.0 == t {
        } else {
            if token_owner_in(es, t) is Some {
                let k = choose|k: int|
                    0 <= k < es.drop_first().len() && (#[trigger] es.drop_first()[k]).value.0 == t;
                assert(es[k + 1] == es.drop_first()[k]);
            }
            if exists|i: int| 0 <= i < es.len() && (#[trigger] es[i]).value.0 == t {
                let k = choose|k: int| 0 <= k < es.len() && (#[trigger] es[k]).value.0 == t;
                assert(es.drop_first()[k - 1] == es[k]);
            }
        }
        match token_owner_in(es, t) {
            Some(h) => {
                if es[0].value.0 == t {
                } else {
                    let k = choose|k: int|
                        0 <= k < es.drop_first().len() && (#[trigger] es.drop_first()[k]).value.0
                            == t && es.drop_first()[k].widget == h;
                    assert(es[k + 1] == es.drop_first()[k]);
                }
            },
            None => {},
        }
    }
}

/// The first entry carrying token `t` determines its owner.
proof fn lemma_token_owner_found<C>(es: Seq<Entry<(u64, C)>>, i: int, t: u64)
    requires
        0 <= i < es.len(),
        es[i].value.0 == t,
        forall|j: int| 0 <= j < i ==> (#[trigger] es[j]).value.0 != t,
    ensures
        token_owner_in(es, t) == Some(es[i].widget),
    decreases i,
{
    if i > 0 {
        assert forall|j: int| 0 <= j < i - 1 implies (#[trigger] es.drop_first()[j]).value.0
            != t by {
            assert(es.drop_first()[j] == es[j + 1]);
        }
        assert(es.drop_first()[i - 1] == es[i]);
        lemma_token_owner_found(es.drop_first(), i - 1, t);
    }
}

/// Appending an entry affects only its own token's owner, and that only if
/// the token was free.
proof fn lemma_token_owner_push<C>(es: Seq<Entry<(u64, C)>>, e: Entry<(u64, C)>, t: u64)
    ensures
        token_owner_in(es.push(e), t) == if token_owner_in(es, t) is Some {
            token_owner_in(es, t)
        } else if e.value.0 == t {
            Some(e.widget)
        } else {
            None
        },
    decreases es.len(),
{
    if es.len() == 0 {
        assert(es.push(e)[0] == e);
        assert(es.push(e).drop_first() =~= Seq::<Entry<(u64, C)>>::empty());
        assert(token_owner_in(Seq::<Entry<(u64, C)>>::empty(), t) is None);
        assert(token_owner_in(es, t) is None);
    } else {
        assert(es.push(e)[0] == es[0]);
        assert(es.push(e).drop_first() =~= es.drop_first().push(e));
        lemma_token_owner_push(es.drop_first(), e, t);
    }
}

/// Removing the entry at `i` frees its token and leaves every other token's
/// owner alone, provided tokens are distinct.
proof fn lemma_token_owner_remove<C>(es: Seq<Entry<(u64, C)>>, i: int, t: u64)
    requires
        0 <= i < es.len(),
        forall|a: int, b: int|
            0 <= a < b < es.len() ==> (#[trigger] es[a]).value.0 != (#[trigger] es[b]).value.0,
    ensures
        token_owner_in(es.remove(i), t) == if es[i].value.0 == t {
            None::<u64>
        } else {
            token_owner_in(es, t)
        },
    decreases es.len(),
{
    if es[i].value.0 == t {
        lemma_token_owner_entry(es.remove(i), t);
        if token_owner_in(es.remove(i), t) is Some {
            let k = choose|k: int|
                0 <= k < es.remove(i).len() && (#[trigger] es.remove(i)[k]).value.0 == t;
            let k0 = if k < i {
                k
            } else {
                k + 1
            };
            assert(es.remove(i)[k] == es[k0]);
            if k0 < i {
                assert(es[k0].value.0 != es[i].value.0);
            } else {
                assert(es[i].value.0 != es[k0].value.0);
            }
        }
    } else {
        if i == 0 {
            assert(es.remove(0) =~= es.drop_first());
        } else {
            assert(es.remove(i)[0] == es[0]);
            if es[0].value.0 == t {
            } else {
                assert(es.remove(i).drop_first() =~= es.drop_first().remove(i - 1));
                assert forall|a: int, b: int|
                    0 <= a < b < es.drop_first().len() implies (#[trigger] es.drop_first()[
                    a]).value.0 != (#[trigger] es.drop_first()[b]).value.0 by {
                    assert(es.drop_first()[a] == es[a + 1]);
                    assert(es.drop_first()[b] == es[b + 1]);
                }
                assert(es.drop_first()[i - 1] == es[i]);
                lemma_token_owner_remove(es.drop_first(), i - 1, t);
            }
        }
    }
}

} // verus!
