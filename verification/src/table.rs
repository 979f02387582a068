//! A small verified association table.
//!
//! The toolkit model keeps several keyed stores (attribute values, handle
//! associations, global names, reference counts).  All of them are
//! association lists over a key of widget id and name bytes, with distinct
//! keys, and share the lookup and update reasoning proved here once.

use vstd::prelude::*;

verus! {

/// One association: the key is the `(widget, name)` pair, the payload `value`.
pub struct Entry<V> {
    pub widget: u64,
    pub name: Vec<u8>,
    pub value: V,
}

/// `e` carries the key `(w, n)`.
pub open spec fn has_key<V>(e: Entry<V>, w: u64, n: Seq<u8>) -> bool {
    e.widget == w && e.name@ == n
}

/// The value stored under `(w, n)`: the first entry with that key.
pub open spec fn lookup<V>(es: Seq<Entry<V>>, w: u64, n: Seq<u8>) -> Option<V>
    decreases es.len(),
{
    if es.len() == 0 {
        None
    } else if has_key(es[0], w, n) {
        Some(es[0].value)
    } else {
        lookup(es.drop_first(), w, n)
    }
}

/// No two entries share a key.
pub open spec fn keys_distinct<V>(es: Seq<Entry<V>>) -> bool {
    forall|i: int, j: int|
        0 <= i < j < es.len() ==> !has_key(#[trigger] es[i], (#[trigger] es[j]).widget, es[j].name@)
}

/// A lookup misses exactly when no entry has the key.
pub proof fn lemma_lookup_none<V>(es: Seq<Entry<V>>, w: u64, n: Seq<u8>)
    ensures
        lookup(es, w, n) is None <==> forall|i: int|
            0 <= i < es.len() ==> !has_key(#[trigger] es[i], w, n),
    decreases es.len(),
{
    if es.len() > 0 {
        lemma_lookup_none(es.drop_first(), w, n);
        if lookup(es, w, n) is None {
            assert forall|i: int| 0 <= i < es.len() implies !has_key(#[trigger] es[i], w, n) by {
                if i > 0 {
                    assert(es.drop_first()[i - 1] == es[i]);
                }
            }
        } else {
            if !has_key(es[0], w, n) {
                let i = choose|i: int|
                    0 <= i < es.drop_first().len() && has_key(
                        #[trigger] es.drop_first()[i],
                        w,
                        n,
                    );
                assert(es[i + 1] == es.drop_first()[i]);
            }
        }
    }
}

/// Appending an entry changes only a lookup of its own key, and that only if
/// the key was absent.
pub proof fn lemma_lookup_push<V>(es: Seq<Entry<V>>, e: Entry<V>, w: u64, n: Seq<u8>)
    ensures
        lookup(es.push(e), w, n) == if lookup(es, w, n) is Some {
            lookup(es, w, n)
        } else if has_key(e, w, n) {
            Some(e.value)
        } else {
            None
        },
    decreases es.len(),
{
    if es.len() == 0 {
        assert(es.push(e)[0] == e);
        assert(es.push(e).drop_first() =~= Seq::<Entry<V>>::empty());
        assert(lookup(Seq::<Entry<V>>::empty(), w, n) is None);
        assert(lookup(es, w, n) is None);
    } else {
        assert(es.push(e)[0] == es[0]);
        assert(es.push(e).drop_first() =~= es.drop_first().push(e));
        lemma_lookup_push(es.drop_first(), e, w, n);
    }
}

/// Replacing the first entry of a key by another entry of the same key
/// redirects that key's lookup to the new value and leaves every other
/// lookup alone.
pub proof fn lemma_lookup_update<V>(es: Seq<Entry<V>>, i: int, e: Entry<V>, w: u64, n: Seq<u8>)
    requires
        0 <= i < es.len(),
        has_key(e, es[i].widget, es[i].name@),
        forall|j: int| 0 <= j < i ==> !has_key(#[trigger] es[j], es[i].widget, es[i].name@),
    ensures
        lookup(es.update(i, e), w, n) == if has_key(es[i], w, n) {
            Some(e.value)
        } else {
            lookup(es, w, n)
        },
    decreases es.len(),
{
    if i == 0 {
        assert(es.update(0, e)[0] == e);
        assert(es.update(0, e).drop_first() =~= es.drop_first());
    } else {
        assert(es.update(i, e)[0] == es[0]);
        assert(es.update(i, e).drop_first() =~= es.drop_first().update(i - 1, e));
        assert forall|j: int| 0 <= j < i - 1 implies !has_key(
            #[trigger] es.drop_first()[j],
            es.drop_first()[i - 1].widget,
            es.drop_first()[i - 1].name@,
        ) by {
            assert(es.drop_first()[j] == es[j + 1]);
        }
        lemma_lookup_update(es.drop_first(), i - 1, e, w, n);
    }
}

/// Removing the sole entry of a key empties that key's lookup and leaves
/// every other lookup alone.
pub proof fn lemma_lookup_remove<V>(es: Seq<Entry<V>>, i: int, w: u64, n: Seq<u8>)
    requires
        0 <= i < es.len(),
        keys_distinct(es),
    ensures
        lookup(es.remove(i), w, n) == if has_key(es[i], w, n) {
            None
        } else {
            lookup(es, w, n)
        },
    decreases es.len(),
{
    if has_key(es[i], w, n) {
        lemma_lookup_none(es.remove(i), w, n);
        assert forall|j: int| 0 <= j < es.remove(i).len() implies !has_key(
            #[trigger] es.remove(i)[j],
            w,
            n,
        ) by {
            if j < i {
                assert(es.remove(i)[j] == es[j]);
            } else {
                assert(es.remove(i)[j] == es[j + 1]);
            }
        }
    } else {
        if i == 0 {
            assert(es.remove(0) =~= es.drop_first());
        } else {
            assert(es.remove(i)[0] == es[0]);
            if has_key(es[0], w, n) {
            } else {
                assert(es.remove(i).drop_first() =~= es.drop_first().remove(i - 1));
                assert forall|a: int, b: int|
                    0 <= a < b < es.drop_first().len() implies !has_key(
                    #[trigger] es.drop_first()[a],
                    (#[trigger] es.drop_first()[b]).widget,
                    es.drop_first()[b].name@,
                ) by {
                    assert(es.drop_first()[a] == es[a + 1]);
                    assert(es.drop_first()[b] == es[b + 1]);
                }
                lemma_lookup_remove(es.drop_first(), i - 1, w, n);
            }
        }
    }
}

/// Byte-for-byte equality of two slices.
pub fn bytes_eq(a: &[u8], b: &[u8]) -> (r: bool)
    ensures
        r <==> a@ == b@,
{
    if a.len() != b.len() {
        assert(a@ != b@) by {
            assert(a@.len() != b@.len());
        }
        return false;
    }
    let n = a.len();
    let mut i: usize = 0;
    while i < n
        invariant
            i <= n,
            a@.len() == n,
            b@.len() == n,
            forall|j: int| 0 <= j < i ==> a@[j] == b@[j],
        decreases n - i,
    {
        if a[i] != b[i] {
            return false;
        }
        i = i + 1;
    }
    assert(a@ =~= b@);
    true
}

/// Copy a byte slice into an owned vector.
pub fn bytes_to_vec(s: &[u8]) -> (r: Vec<u8>)
    ensures
        r@ == s@,
{
    let mut out: Vec<u8> = Vec::new();
    let n = s.len();
    let mut i: usize = 0;
    while i < n
        invariant
            i <= n,
            s@.len() == n,
            out@ == s@.take(i as int),
        decreases n - i,
    {
        out.push(s[i]);
        assert(out@ =~= s@.take(i + 1));
        i = i + 1;
    }
    assert(out@ =~= s@);
    out
}

/// Find the position of the first entry with key `(w, n)`.
fn find_key<V>(es: &Vec<Entry<V>>, w: u64, name: &[u8]) -> (r: Option<usize>)
    ensures
        match r {
            Some(i) => 0 <= i < es@.len() && has_key(es@[i as int], w, name@) && forall|j: int|
                0 <= j < i ==> !has_key(#[trigger] es@[j], w, name@),
            None => forall|j: int| 0 <= j < es@.len() ==> !has_key(#[trigger] es@[j], w, name@),
        },
{
    let len = es.len();
    let mut i: usize = 0;
    while i < len
        invariant
            i <= len == es@.len(),
            forall|j: int| 0 <= j < i ==> !has_key(#[trigger] es@[j], w, name@),
        decreases len - i,
    {
        let e = &es[i];
        if e.widget == w && bytes_eq(e.name.as_slice(), name) {
            return Some(i);
        }
        i = i + 1;
    }
    None
}

/// Read the value stored under `(w, name)`.
pub fn table_get<'a, V>(es: &'a Vec<Entry<V>>, w: u64, name: &[u8]) -> (r: Option<&'a V>)
    ensures
        match r {
            Some(v) => lookup(es@, w, name@) == Some(*v),
            None => lookup(es@, w, name@) is None,
        },
{
    proof {
        lemma_lookup_none(es@, w, name@);
    }
    match find_key(es, w, name) {
        Some(i) => {
            proof {
                lemma_lookup_found(es@, i as int, w, name@);
            }
            Some(&es[i].value)
        },
        None => None,
    }
}

/// The first entry carrying a key determines that key's lookup.
pub proof fn lemma_lookup_found<V>(es: Seq<Entry<V>>, i: int, w: u64, n: Seq<u8>)
    requires
        0 <= i < es.len(),
        has_key(es[i], w, n),
        forall|j: int| 0 <= j < i ==> !has_key(#[trigger] es[j], w, n),
    ensures
        lookup(es, w, n) == Some(es[i].value),
    decreases i,
{
    if i > 0 {
        assert forall|j: int| 0 <= j < i - 1 implies !has_key(
            #[trigger] es.drop_first()[j],
            w,
            n,
        ) by {
            assert(es.drop_first()[j] == es[j + 1]);
        }
        assert(es.drop_first()[i - 1] == es[i]);
        lemma_lookup_found(es.drop_first(), i - 1, w, n);
    }
}

/// Store `value` under `(w, name)`, replacing any previous value of that key.
pub fn table_upsert<V>(es: &mut Vec<Entry<V>>, w: u64, name: Vec<u8>, value: V)
    requires
        keys_distinct(old(es)@),
    ensures
        keys_distinct(final(es)@),
        lookup(final(es)@, w, name@) == Some(value),
        forall|w2: u64, n2: Seq<u8>|
            !(w2 == w && n2 == name@) ==> lookup(final(es)@, w2, n2) == lookup(
                old(es)@,
                w2,
                n2,
            ),
        lookup(old(es)@, w, name@) is None ==> final(es)@ == old(es)@.push(
            (Entry { widget: w, name: name, value: value }),
        ),
{
    let ghost orig = es@;
    proof {
        lemma_lookup_none(orig, w, name@);
    }
    match find_key(es, w, name.as_slice()) {
        Some(i) => {
            let ghost n = name@;
            let e = Entry { widget: w, name, value };
            proof {
                assert forall|w2: u64, n2: Seq<u8>| true implies lookup(
                    orig.update(i as int, e),
                    w2,
                    n2,
                ) == if has_key(orig[i as int], w2, n2) {
                    Some(e.value)
                } else {
                    lookup(orig, w2, n2)
                } by {
                    lemma_lookup_update(orig, i as int, e, w2, n2);
                }
                lemma_lookup_found(orig, i as int, w, n);
            }
            es.set(i, e);
            proof {
                assert forall|a: int, b: int| 0 <= a < b < es@.len() implies !has_key(
                    #[trigger] es@[a],
                    (#[trigger] es@[b]).widget,
                    es@[b].name@,
                ) by {
                    assert(has_key(orig[a], orig[a].widget, orig[a].name@));
                }
            }
        },
        None => {
            let ghost n = name@;
            let e = Entry { widget: w, name, value };
            proof {
                assert forall|w2: u64, n2: Seq<u8>| true implies lookup(
                    orig.push(e),
                    w2,
                    n2,
                ) == if lookup(orig, w2, n2) is Some {
                    lookup(orig, w2, n2)
                } else if has_key(e, w2, n2) {
                    Some(e.value)
                } else {
                    None
                } by {
                    lemma_lookup_push(orig, e, w2, n2);
                }
                lemma_lookup_none(orig, w, n);
            }
            es.push(e);
            proof {
                assert forall|a: int, b: int| 0 <= a < b < es@.len() implies !has_key(
                    #[trigger] es@[a],
                    (#[trigger] es@[b]).widget,
                    es@[b].name@,
                ) by {
                    if b < es@.len() - 1 {
                        assert(has_key(orig[a], orig[a].widget, orig[a].name@));
                    }
                }
            }
        },
    }
}

/// Drop the entry stored under `(w, name)`, if any.
pub fn table_remove<V>(es: &mut Vec<Entry<V>>, w: u64, name: &[u8])
    requires
        keys_distinct(old(es)@),
    ensures
        keys_distinct(final(es)@),
        lookup(final(es)@, w, name@) is None,
        forall|w2: u64, n2: Seq<u8>|
            !(w2 == w && n2 == name@) ==> lookup(final(es)@, w2, n2) == lookup(
                old(es)@,
                w2,
                n2,
            ),
{
    let ghost orig = es@;
    match find_key(es, w, name) {
        Some(i) => {
            proof {
                assert forall|w2: u64, n2: Seq<u8>| true implies lookup(
                    orig.remove(i as int),
                    w2,
                    n2,
                ) == if has_key(orig[i as int], w2, n2) {
                    None
                } else {
                    lookup(orig, w2, n2)
                } by {
                    lemma_lookup_remove(orig, i as int, w2, n2);
                }
            }
            es.remove(i);
            proof {
                assert forall|a: int, b: int| 0 <= a < b < es@.len() implies !has_key(
                    #[trigger] es@[a],
                    (#[trigger] es@[b]).widget,
                    es@[b].name@,
                ) by {
                    let a0 = if a < i as int {
                        a
                    } else {
                        a + 1
                    };
                    let b0 = if b < i as int {
                        b
                    } else {
                        b + 1
                    };
                    assert(es@[a] == orig[a0]);
                    assert(es@[b] == orig[b0]);
                }
                lemma_lookup_none(es@, w, name@);
            }
        },
        None => {
            proof {
                lemma_lookup_none(orig, w, name@);
            }
        },
    }
}

/// Drop every entry whose widget is `w`.
pub fn table_remove_widget<V>(es: &mut Vec<Entry<V>>, w: u64)
    requires
        keys_distinct(old(es)@),
    ensures
        keys_distinct(final(es)@),
        forall|n: Seq<u8>| lookup(final(es)@, w, n) is None,
        forall|w2: u64, n2: Seq<u8>|
            w2 != w ==> lookup(final(es)@, w2, n2) == lookup(old(es)@, w2, n2),
{
    let ghost orig = es@;
    let mut i: usize = 0;
    while i < es.len()
        invariant
            i <= es@.len(),
            keys_distinct(es@),
            forall|j: int| 0 <= j < i ==> es@[j].widget != w,
            forall|w2: u64, n2: Seq<u8>|
                w2 != w ==> lookup(es@, w2, n2) == lookup(orig, w2, n2),
        decreases es@.len() - i,
    {
        if es[i].widget == w {
            let ghost pre = es@;
            proof {
                assert forall|w2: u64, n2: Seq<u8>| true implies lookup(
                    pre.remove(i as int),
                    w2,
                    n2,
                ) == if has_key(pre[i as int], w2, n2) {
                    None
                } else {
                    lookup(pre, w2, n2)
                } by {
                    lemma_lookup_remove(pre, i as int, w2, n2);
                }
            }
            es.remove(i);
            proof {
                assert forall|a: int, b: int| 0 <= a < b < es@.len() implies !has_key(
                    #[trigger] es@[a],
                    (#[trigger] es@[b]).widget,
                    es@[b].name@,
                ) by {
                    let a0 = if a < i as int {
                        a
                    } else {
                        a + 1
                    };
                    let b0 = if b < i as int {
                        b
                    } else {
                        b + 1
                    };
                    assert(es@[a] == pre[a0]);
                    assert(es@[b] == pre[b0]);
                }
            }
        } else {
            i = i + 1;
        }
    }
    proof {
        assert forall|n: Seq<u8>| true implies lookup(es@, w, n) is None by {
            lemma_lookup_none(es@, w, n);
        }
    }
}

} // verus!
