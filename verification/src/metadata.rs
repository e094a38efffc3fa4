//! The per-token attribute store.
//!
//! Values are byte strings keyed by `(token, attribute-name bytes)`.  The
//! store is independent of ownership: the reserved collection pseudo-token
//! `Id::U8(0)` carries collection-level attributes.

use vstd::prelude::*;

use crate::ids::{Id, IdV, bytes_eq, dup_bytes};

verus! {

/// One attribute record: a token, a key, and the stored value.
pub struct Attribute {
    pub id: Id,
    pub key: Vec<u8>,
    pub value: Vec<u8>,
}

/// No `(token, key)` pair occurs twice.
pub open spec fn distinct_attr_keys(s: Seq<Attribute>) -> bool {
    forall|i: int, j: int|
        0 <= i < j < s.len() ==> !((#[trigger] s[i]).id@ == (#[trigger] s[j]).id@ && s[i].key@
            == s[j].key@)
}

/// The stored value of attribute `key` on token `id`, if any.
pub open spec fn spec_attribute(s: Seq<Attribute>, id: IdV, key: Seq<u8>) -> Option<Seq<u8>>
    decreases s.len(),
{
    if s.len() == 0 {
        None
    } else if s.last().id@ == id && s.last().key@ == key {
        Some(s.last().value@)
    } else {
        spec_attribute(s.drop_last(), id, key)
    }
}

/// The record an index holds is the one the lookup returns.
proof fn lemma_attr_found(s: Seq<Attribute>, i: int)
    requires
        distinct_attr_keys(s),
        0 <= i < s.len(),
    ensures
        spec_attribute(s, s[i].id@, s[i].key@) == Some(s[i].value@),
    decreases s.len(),
{
    if i == s.len() - 1 {
    } else {
        assert(distinct_attr_keys(s.drop_last())) by {
            assert(forall|p: int, q: int|
                0 <= p < q < s.drop_last().len() ==> s.drop_last()[p] == s[p] && s.drop_last()[q]
                    == s[q]);
        }
        assert(s.drop_last()[i] == s[i]);
        lemma_attr_found(s.drop_last(), i);
    }
}

/// The lookup misses exactly when no index holds the pair.
proof fn lemma_attr_none(s: Seq<Attribute>, id: IdV, key: Seq<u8>)
    ensures
        (spec_attribute(s, id, key) is None) <==> (forall|i: int|
            0 <= i < s.len() ==> !((#[trigger] s[i]).id@ == id && s[i].key@ == key)),
    decreases s.len(),
{
    if s.len() == 0 {
    } else {
        lemma_attr_none(s.drop_last(), id, key);
        assert(forall|i: int| 0 <= i < s.len() - 1 ==> s.drop_last()[i] == s[i]);
        if s.last().id@ == id && s.last().key@ == key {
            assert(s[s.len() - 1].id@ == id && s[s.len() - 1].key@ == key);
        }
    }
}

/// How every lookup reads after one record's value is replaced.
proof fn lemma_attr_update_one(s: Seq<Attribute>, i: int, v: Attribute, id: IdV, key: Seq<u8>)
    requires
        distinct_attr_keys(s),
        0 <= i < s.len(),
        v.id@ == s[i].id@,
        v.key@ == s[i].key@,
    ensures
        spec_attribute(s.update(i, v), id, key) == if id == s[i].id@ && key == s[i].key@ {
            Some(v.value@)
        } else {
            spec_attribute(s, id, key)
        },
    decreases s.len(),
{
    let t = s.update(i, v);
    if i == s.len() - 1 {
        assert(t.drop_last() =~= s.drop_last());
    } else {
        assert(t.drop_last() =~= s.drop_last().update(i, v));
        assert(t.last() == s.last());
        assert(s.drop_last()[i] == s[i]);
        assert(distinct_attr_keys(s.drop_last())) by {
            assert(forall|p: int, q: int|
                0 <= p < q < s.drop_last().len() ==> s.drop_last()[p] == s[p] && s.drop_last()[q]
                    == s[q]);
        }
        lemma_attr_update_one(s.drop_last(), i, v, id, key);
        assert(!(s.last().id@ == s[i].id@ && s.last().key@ == s[i].key@));
    }
}

/// The attribute store.
pub struct Data {
    pub attributes: Vec<Attribute>,
}

impl Data {
    /// Well-formedness: one record per `(token, key)` pair.
    pub open spec fn wf(&self) -> bool {
        distinct_attr_keys(self.attributes@)
    }

    /// An empty store.
    pub fn new() -> (r: Data)
        ensures
            r.wf(),
            r.attributes@.len() == 0,
    {
        Data { attributes: Vec::new() }
    }

    /// Finds the index of the record for `(id, key)`.
    fn find_attr(&self, id: &Id, key: &Vec<u8>) -> (r: Option<usize>)
        ensures
            match r {
                Some(i) => i < self.attributes@.len() && self.attributes@[i as int].id@ == id@
                    && self.attributes@[i as int].key@ == key@,
                None => forall|j: int|
                    0 <= j < self.attributes@.len() ==> !((#[trigger] self.attributes@[j]).id@
                        == id@ && self.attributes@[j].key@ == key@),
            },
    {
        let mut i: usize = 0;
        while i < self.attributes.len()
            invariant
                i <= self.attributes@.len(),
                forall|j: int|
                    0 <= j < i ==> !((#[trigger] self.attributes@[j]).id@ == id@
                        && self.attributes@[j].key@ == key@),
            decreases self.attributes@.len() - i,
        {
            if self.attributes[i].id.eq_id(id) && bytes_eq(&self.attributes[i].key, key) {
                return Some(i);
            }
            i += 1;
        }
        None
    }

    /// Writes attribute `key` of token `id`, an idempotent upsert: the new
    /// value replaces any old one and every other attribute is untouched.
    pub fn set_attribute(&mut self, id: Id, key: Vec<u8>, value: Vec<u8>)
        requires
            old(self).wf(),
        ensures
            final(self).wf(),
            forall|iv: IdV, k: Seq<u8>| #[trigger] spec_attribute(final(self).attributes@, iv, k)
                == if iv == id@ && k == key@ {
                Some(value@)
            } else {
                spec_attribute(old(self).attributes@, iv, k)
            },
    {
        let ghost s = self.attributes@;
        match self.find_attr(&id, &key) {
            Some(i) => {
                self.attributes[i] = Attribute { id, key, value };
                proof {
                    let v = self.attributes@[i as int];
                    assert(self.attributes@ == s.update(i as int, v));
                    assert forall|iv: IdV, k: Seq<u8>| #[trigger] spec_attribute(
                        self.attributes@,
                        iv,
                        k,
                    ) == if iv == v.id@ && k == v.key@ {
                        Some(v.value@)
                    } else {
                        spec_attribute(s, iv, k)
                    } by {
                        lemma_attr_update_one(s, i as int, v, iv, k);
                    }
                    assert forall|p: int, q: int|
                        0 <= p < q < self.attributes@.len() implies !((
                    #[trigger] self.attributes@[p]).id@ == (#[trigger] self.attributes@[q]).id@
                        && self.attributes@[p].key@ == self.attributes@[q].key@) by {
                        assert(self.attributes@[p].id@ == s[p].id@ && self.attributes@[p].key@
                            == s[p].key@);
                        assert(self.attributes@[q].id@ == s[q].id@ && self.attributes@[q].key@
                            == s[q].key@);
                    }
                }
            },
            None => {
                self.attributes.push(Attribute { id, key, value });
                proof {
                    let v = self.attributes@.last();
                    assert(self.attributes@.drop_last() =~= s);
                    lemma_attr_none(s, v.id@, v.key@);
                    assert forall|iv: IdV, k: Seq<u8>| #[trigger] spec_attribute(
                        self.attributes@,
                        iv,
                        k,
                    ) == if iv == v.id@ && k == v.key@ {
                        Some(v.value@)
                    } else {
                        spec_attribute(s, iv, k)
                    } by {
                        assert(self.attributes@.drop_last() =~= s);
                    }
                    assert forall|p: int, q: int|
                        0 <= p < q < self.attributes@.len() implies !((
                    #[trigger] self.attributes@[p]).id@ == (#[trigger] self.attributes@[q]).id@
                        && self.attributes@[p].key@ == self.attributes@[q].key@) by {
                        if q < self.attributes@.len() - 1 {
                            assert(self.attributes@[p] == s[p] && self.attributes@[q] == s[q]);
                        } else {
                            assert(self.attributes@[p] == s[p]);
                        }
                    }
                }
            },
        }
    }

    /// Reads attribute `key` of token `id`: the stored value, or `None` when
    /// it was never set.
    pub fn get_attribute(&self, id: &Id, key: &Vec<u8>) -> (r: Option<Vec<u8>>)
        requires
            self.wf(),
        ensures
            r is Some <==> spec_attribute(self.attributes@, id@, key@) is Some,
            r matches Some(v) ==> Some(v@) == spec_attribute(self.attributes@, id@, key@),
    {
        match self.find_attr(id, key) {
            Some(i) => {
                proof {
                    lemma_attr_found(self.attributes@, i as int);
                }
                Some(dup_bytes(&self.attributes[i].value))
            },
            None => {
                proof {
                    lemma_attr_none(self.attributes@, id@, key@);
                }
                None
            },
        }
    }
}

/// Round trip: after a write of `value` under `(id, key)` — stated as
/// `set_attribute` states it — the value is read back unchanged and every
/// other key reads as before; a key never written reads as `None`.
pub proof fn lemma_attribute_round_trip(
    s: Seq<Attribute>,
    t: Seq<Attribute>,
    id: IdV,
    key: Seq<u8>,
    value: Seq<u8>,
)
    requires
        forall|iv: IdV, k: Seq<u8>| #[trigger] spec_attribute(t, iv, k) == if iv == id && k == key {
            Some(value)
        } else {
            spec_attribute(s, iv, k)
        },
    ensures
        spec_attribute(t, id, key) == Some(value),
        forall|iv: IdV, k: Seq<u8>|
            (iv != id || k != key) ==> #[trigger] spec_attribute(t, iv, k) == spec_attribute(
                s,
                iv,
                k,
            ),
        spec_attribute(Seq::<Attribute>::empty(), id, key) is None,
{
}

} // verus!
