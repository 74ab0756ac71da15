use vstd::prelude::*;

use crate::value::{Binding, Bound};

verus! {

/// The variable table: names with their bindings.
pub type Table = Vec<(Vec<u8>, Binding)>;

/// Each name stands in the table at most once.
pub open spec fn unique_keys(m: Seq<(Vec<u8>, Binding)>) -> bool {
    forall|i: int, j: int| 0 <= i < j < m.len() ==> #[trigger] m[i].0@ != #[trigger] m[j].0@
}

/// The binding of `k` in a table, if any.
pub open spec fn lookup(m: Seq<(Vec<u8>, Binding)>, k: Seq<u8>) -> Option<Bound>
    decreases m.len(),
{
    if m.len() == 0 {
        None
    } else if m[0].0@ == k {
        Some(m[0].1@)
    } else {
        lookup(m.drop_first(), k)
    }
}

/// Where `k` stands in a table: the first position holding it.
pub fn find_key(m: &Table, k: &[u8]) -> (r: Option<usize>)
    ensures
        r matches Some(i) ==> i < m@.len() && m@[i as int].0@ == k@ && lookup(m@, k@) == Some(
            m@[i as int].1@,
        ) && forall|j: int| 0 <= j < i ==> m@[j].0@ != k@,
        r is None ==> lookup(m@, k@) is None,
        r is None ==> forall|j: int| 0 <= j < m@.len() ==> m@[j].0@ != k@,
{
    let mut i: usize = 0;
    assert(m@.subrange(0, m@.len() as int) =~= m@);
    while i < m.len()
        invariant
            i <= m@.len(),
            lookup(m@, k@) == lookup(m@.subrange(i as int, m@.len() as int), k@),
            forall|j: int| 0 <= j < i ==> m@[j].0@ != k@,
        decreases m.len() - i,
    {
        proof {
            assert(m@.subrange(i as int, m@.len() as int).drop_first() =~= m@.subrange(
                i as int + 1,
                m@.len() as int,
            ));
        }
        if crate::ops::bytes_equal(m[i].0.as_slice(), k) {
            return Some(i);
        }
        i = i + 1;
    }
    None
}

/// The binding of `k`, copied out of the table.
pub fn get(m: &Table, k: &[u8]) -> (r: Option<Binding>)
    ensures
        r matches Some(b) ==> lookup(m@, k@) == Some(b@),
        r is None ==> lookup(m@, k@) is None,
{
    match find_key(m, k) {
        Some(i) => Some(m[i].1.copy()),
        None => None,
    }
}

proof fn lemma_lookup_update(m: Seq<(Vec<u8>, Binding)>, i: int, k: Vec<u8>, v: Binding, q: Seq<u8>)
    requires
        0 <= i < m.len(),
        m[i].0@ == k@,
        forall|j: int| 0 <= j < i ==> m[j].0@ != k@,
    ensures
        lookup(m.update(i, (k, v)), q) == if q == k@ {
            Some(v@)
        } else {
            lookup(m, q)
        },
    decreases m.len(),
{
    let u = m.update(i, (k, v));
    if i > 0 {
        assert(u[0] == m[0]);
        assert(m[0].0@ != k@);
        assert(u.drop_first() =~= m.drop_first().update(i - 1, (k, v)));
        assert forall|j: int| 0 <= j < i - 1 implies m.drop_first()[j].0@ != k@ by {
            assert(m.drop_first()[j] == m[j + 1]);
        }
        lemma_lookup_update(m.drop_first(), i - 1, k, v, q);
    } else {
        assert(u[0] == (k, v));
        assert(u.drop_first() =~= m.drop_first());
    }
}

proof fn lemma_lookup_push(m: Seq<(Vec<u8>, Binding)>, k: Vec<u8>, v: Binding, q: Seq<u8>)
    requires
        lookup(m, k@) is None,
    ensures
        lookup(m.push((k, v)), q) == if q == k@ {
            Some(v@)
        } else {
            lookup(m, q)
        },
    decreases m.len(),
{
    let u = m.push((k, v));
    if m.len() > 0 {
        assert(u[0] == m[0]);
        assert(u.drop_first() =~= m.drop_first().push((k, v)));
        lemma_lookup_push(m.drop_first(), k, v, q);
    } else {
        assert(u[0] == (k, v));
        assert(u.drop_first() =~= Seq::<(Vec<u8>, Binding)>::empty());
        assert(lookup(u.drop_first(), q) is None);
    }
}

/// Binds `k` to `v`, replacing a former binding of `k`.
pub fn bind(m: &mut Table, k: Vec<u8>, v: Binding)
    requires
        unique_keys(old(m)@),
    ensures
        unique_keys(final(m)@),
        forall|q: Seq<u8>|
            lookup(final(m)@, q) == if q == k@ {
                Some(v@)
            } else {
                lookup(old(m)@, q)
            },
{
    match find_key(m, k.as_slice()) {
        Some(i) => {
            proof {
                assert forall|q: Seq<u8>|
                    lookup(m@.update(i as int, (k, v)), q) == if q == k@ {
                        Some(v@)
                    } else {
                        lookup(m@, q)
                    } by {
                    lemma_lookup_update(m@, i as int, k, v, q);
                }
            }
            m.set(i, (k, v));
            assert forall|x: int, y: int| 0 <= x < y < m@.len() implies #[trigger] m@[x].0@ != #[trigger] m@[y].0@ by {
                assert(old(m)@[x].0@ != old(m)@[y].0@);
            }
        },
        None => {
            proof {
                assert forall|q: Seq<u8>|
                    lookup(m@.push((k, v)), q) == if q == k@ {
                        Some(v@)
                    } else {
                        lookup(m@, q)
                    } by {
                    lemma_lookup_push(m@, k, v, q);
                }
            }
            m.push((k, v));
            assert forall|x: int, y: int| 0 <= x < y < m@.len() implies #[trigger] m@[x].0@ != #[trigger] m@[y].0@ by {
                if y < old(m)@.len() {
                    assert(old(m)@[x].0@ != old(m)@[y].0@);
                } else {
                    assert(old(m)@[x].0@ != k@);
                }
            }
        },
    }
}

} // verus!
