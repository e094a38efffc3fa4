//! The registry manager: token-number issuance, the attribute-name interning
//! table, the per-token lock flags with their counter, and the attribute
//! store itself.

use vstd::prelude::*;
use vstd::string::StrSliceExecFns;
use vstd::string::StringExecFns;
use vstd::utf8::encode_utf8;

use crate::errors::Error;
use crate::ids::{Id, IdV, bytes_eq, dup_bytes};
use crate::metadata;
use crate::metadata::spec_attribute;
use crate::text::{bytes_to_text, text_of_bytes, text_of_opt_bytes, u64_to_dec, dec_chars};

verus! {

/// The byte strings of an interning table.
pub open spec fn names_view(s: Seq<Vec<u8>>) -> Seq<Seq<u8>> {
    s.map_values(|n: Vec<u8>| n@)
}

/// No byte string occurs twice.
pub open spec fn distinct_views(s: Seq<Seq<u8>>) -> bool {
    forall|i: int, j: int| 0 <= i < j < s.len() ==> s[i] != s[j]
}

/// The interning table after the names of `pairs` are interned in order:
/// a name not yet present is appended the first time it occurs.
pub open spec fn interned_after(names: Seq<Seq<u8>>, pairs: Seq<(String, String)>) -> Seq<Seq<u8>>
    decreases pairs.len(),
{
    if pairs.len() == 0 {
        names
    } else {
        let k = encode_utf8(pairs[0].0@);
        let names2 = if names.contains(k) {
            names
        } else {
            names.push(k)
        };
        interned_after(names2, pairs.subrange(1, pairs.len() as int))
    }
}

/// The value the pairs assign to name `k`, the last occurrence winning.
pub open spec fn spec_pairs_value(pairs: Seq<(String, String)>, k: Seq<u8>) -> Option<Seq<u8>>
    decreases pairs.len(),
{
    if pairs.len() == 0 {
        None
    } else if encode_utf8(pairs.last().0@) == k {
        Some(encode_utf8(pairs.last().1@))
    } else {
        spec_pairs_value(pairs.drop_last(), k)
    }
}

/// Whether token `id` is locked.
pub open spec fn spec_is_locked(s: Seq<Id>, id: IdV) -> bool {
    exists|i: int| 0 <= i < s.len() && (#[trigger] s[i])@ == id
}

/// No token occurs twice in the lock set.
pub open spec fn distinct_locked(s: Seq<Id>) -> bool {
    forall|i: int, j: int| 0 <= i < j < s.len() ==> (#[trigger] s[i])@ != (#[trigger] s[j])@
}

/// Membership in a concatenation of tables.
proof fn lemma_concat_contains(a: Seq<Seq<u8>>, b: Seq<Seq<u8>>, k: Seq<u8>)
    ensures
        (a + b).contains(k) <==> (a.contains(k) || b.contains(k)),
{
    if (a + b).contains(k) {
        let i = choose|i: int| 0 <= i < (a + b).len() && (a + b)[i] == k;
        if i < a.len() {
            assert(a[i] == k);
        } else {
            assert(b[i - a.len()] == k);
        }
    }
    if a.contains(k) {
        let i = choose|i: int| 0 <= i < a.len() && a[i] == k;
        assert((a + b)[i] == k);
    }
    if b.contains(k) {
        let i = choose|i: int| 0 <= i < b.len() && b[i] == k;
        assert((a + b)[a.len() + i] == k);
    }
}

/// Interning one more pair extends the table by at most its name.
proof fn lemma_interned_push(names: Seq<Seq<u8>>, ps: Seq<(String, String)>, p: (String, String))
    ensures
        interned_after(names, ps.push(p)) == ({
            let t = interned_after(names, ps);
            let k = encode_utf8(p.0@);
            if t.contains(k) {
                t
            } else {
                t.push(k)
            }
        }),
    decreases ps.len(),
{
    let whole = ps.push(p);
    let k0 = encode_utf8(whole[0].0@);
    let names2 = if names.contains(k0) {
        names
    } else {
        names.push(k0)
    };
    assert(interned_after(names, whole) == interned_after(
        names2,
        whole.subrange(1, whole.len() as int),
    ));
    if ps.len() == 0 {
        assert(whole[0] == p);
        assert(whole.subrange(1, whole.len() as int) =~= Seq::<(String, String)>::empty());
        assert(interned_after(names2, whole.subrange(1, whole.len() as int)) == names2);
        assert(interned_after(names, ps) == names);
    } else {
        assert(whole[0] == ps[0]);
        assert(whole.subrange(1, whole.len() as int) =~= ps.subrange(1, ps.len() as int).push(p));
        lemma_interned_push(names2, ps.subrange(1, ps.len() as int), p);
        assert(interned_after(names, ps) == interned_after(
            names2,
            ps.subrange(1, ps.len() as int),
        ));
    }
}

/// Interning keeps the table's entries unique and leaves the old entries at
/// their indices.
proof fn lemma_interned_props(names: Seq<Seq<u8>>, ps: Seq<(String, String)>)
    requires
        distinct_views(names),
    ensures
        distinct_views(interned_after(names, ps)),
        names.len() <= interned_after(names, ps).len(),
        forall|j: int| 0 <= j < names.len() ==> #[trigger] interned_after(names, ps)[j] == names[j],
    decreases ps.len(),
{
    if ps.len() == 0 {
    } else {
        let k = encode_utf8(ps[0].0@);
        let names2 = if names.contains(k) {
            names
        } else {
            names.push(k)
        };
        if !names.contains(k) {
            assert forall|i: int, j: int| 0 <= i < j < names2.len() implies names2[i] != names2[j] by {
                if j == names2.len() - 1 {
                    if names2[i] == k {
                        assert(names.contains(names[i]));
                    }
                }
            }
        }
        lemma_interned_props(names2, ps.subrange(1, ps.len() as int));
    }
}

/// Locking one more token locks exactly that token.
proof fn lemma_locked_push(s: Seq<Id>, e: Id)
    ensures
        forall|x: IdV| #[trigger] spec_is_locked(s.push(e), x) == (spec_is_locked(s, x) || e@
            == x),
{
    assert forall|x: IdV| #[trigger] spec_is_locked(s.push(e), x) == (spec_is_locked(s, x) || e@
        == x) by {
        if spec_is_locked(s.push(e), x) {
            let i = choose|i: int| 0 <= i < s.push(e).len() && (#[trigger] s.push(e)[i])@ == x;
            if i < s.len() {
                assert(s[i]@ == x);
            }
        }
        if spec_is_locked(s, x) {
            let i = choose|i: int| 0 <= i < s.len() && (#[trigger] s[i])@ == x;
            assert(s.push(e)[i]@ == x);
        }
        if e@ == x {
            assert(s.push(e)[s.len() as int]@ == x);
        }
    }
}

/// Removing a lock by swapping the last flag into its place unlocks exactly
/// that token.
proof fn lemma_locked_swap_remove(s: Seq<Id>, i: int)
    requires
        distinct_locked(s),
        0 <= i < s.len(),
    ensures
        distinct_locked(s.update(i, s.last()).drop_last()),
        forall|x: IdV| #[trigger] spec_is_locked(s.update(i, s.last()).drop_last(), x) == (
        spec_is_locked(s, x) && x != s[i]@),
{
    let t = s.update(i, s.last()).drop_last();
    let n = s.len() as int;
    assert forall|p: int, q: int| 0 <= p < q < t.len() implies (#[trigger] t[p])@ != (
    #[trigger] t[q])@ by {
        assert(t[p] == if p == i {
            s[n - 1]
        } else {
            s[p]
        });
        assert(t[q] == if q == i {
            s[n - 1]
        } else {
            s[q]
        });
    }
    assert forall|x: IdV| #[trigger] spec_is_locked(t, x) == (spec_is_locked(s, x) && x != s[i]@)
        by {
        if spec_is_locked(t, x) {
            let p = choose|p: int| 0 <= p < t.len() && (#[trigger] t[p])@ == x;
            assert(t[p] == if p == i {
                s[n - 1]
            } else {
                s[p]
            });
            if p == i {
                assert(s[n - 1]@ == x);
                assert(i < n - 1);
            } else {
                assert(s[p]@ == x);
            }
        }
        if spec_is_locked(s, x) && x != s[i]@ {
            let p = choose|p: int| 0 <= p < s.len() && (#[trigger] s[p])@ == x;
            if p == n - 1 {
                assert(i < n - 1);
                assert(t[i]@ == x);
            } else {
                assert(p != i);
                assert(t[p]@ == x);
            }
        }
    }
}

/// Tests whether a table holds the byte string `k`.
fn names_contains(names: &Vec<Vec<u8>>, k: &Vec<u8>) -> (r: bool)
    ensures
        r == names_view(names@).contains(k@),
{
    let mut i: usize = 0;
    while i < names.len()
        invariant
            i <= names@.len(),
            forall|j: int| 0 <= j < i ==> (#[trigger] names@[j])@ != k@,
        decreases names@.len() - i,
    {
        if bytes_eq(&names[i], k) {
            assert(names_view(names@)[i as int] == k@);
            return true;
        }
        i += 1;
    }
    proof {
        assert(!names_view(names@).contains(k@)) by {
            if names_view(names@).contains(k@) {
                let j = choose|j: int|
                    0 <= j < names_view(names@).len() && names_view(names@)[j] == k@;
                assert(names@[j]@ == k@);
            }
        }
    }
    false
}

/// Tests whether the lock set holds token `id`.
fn locked_contains(locked: &Vec<Id>, id: &Id) -> (r: bool)
    ensures
        r == spec_is_locked(locked@, id@),
{
    let mut i: usize = 0;
    while i < locked.len()
        invariant
            i <= locked@.len(),
            forall|j: int| 0 <= j < i ==> (#[trigger] locked@[j])@ != id@,
        decreases locked@.len() - i,
    {
        if locked[i].eq_id(id) {
            return true;
        }
        i += 1;
    }
    proof {
        assert(!spec_is_locked(locked@, id@)) by {
            if spec_is_locked(locked@, id@) {
                let j = choose|j: int| 0 <= j < locked@.len() && (#[trigger] locked@[j])@ == id@;
            }
        }
    }
    false
}

} // verus!

verus! {

/// The registry manager.
pub struct Manager {
    pub last_token_id: u64,
    pub attribute_count: u32,
    pub attribute_names: Vec<Vec<u8>>,
    pub locked_tokens: Vec<Id>,
    pub locked_token_count: u64,
    pub metadata: metadata::Data,
}

impl Manager {
    /// Well-formedness: the name counter equals the table's length, names
    /// and lock flags are unique, the lock counter equals the number of
    /// locked tokens, and the attribute store is well formed.
    pub open spec fn wf(&self) -> bool {
        &&& self.attribute_count as int == self.attribute_names@.len()
        &&& distinct_views(names_view(self.attribute_names@))
        &&& distinct_locked(self.locked_tokens@)
        &&& self.locked_token_count as int == self.locked_tokens@.len()
        &&& self.metadata.wf()
    }

    /// A fresh manager: nothing issued, interned, locked, or stored.
    pub fn new() -> (r: Manager)
        ensures
            r.wf(),
            r.last_token_id == 0,
            r.attribute_count == 0,
            r.attribute_names@.len() == 0,
            r.locked_tokens@.len() == 0,
            r.locked_token_count == 0,
            r.metadata.attributes@.len() == 0,
    {
        Manager {
            last_token_id: 0,
            attribute_count: 0,
            attribute_names: Vec::new(),
            locked_tokens: Vec::new(),
            locked_token_count: 0,
            metadata: metadata::Data::new(),
        }
    }

    /// The last issued token number.
    pub fn get_last_token_id(&self) -> (r: u64)
        ensures
            r == self.last_token_id,
    {
        self.last_token_id
    }

    /// Locks a token: a one-way ratchet that freezes its attributes.
    /// Locking an already locked token changes nothing; otherwise the flag
    /// is set and the counter raised, failing with `LockCountOverflow` when
    /// the counter cannot grow.
    pub fn lock(&mut self, token_id: Id) -> (r: Result<(), Error>)
        requires
            old(self).wf(),
        ensures
            final(self).wf(),
            final(self).last_token_id == old(self).last_token_id,
            final(self).attribute_count == old(self).attribute_count,
            final(self).attribute_names@ == old(self).attribute_names@,
            final(self).metadata == old(self).metadata,
            spec_is_locked(old(self).locked_tokens@, token_id@) ==> (r is Ok && *final(self)
                == *old(self)),
            !spec_is_locked(old(self).locked_tokens@, token_id@) && old(self).locked_token_count
                == u64::MAX ==> (r matches Err(Error::LockCountOverflow) && *final(self) == *old(
                self,
            )),
            !spec_is_locked(old(self).locked_tokens@, token_id@) && old(self).locked_token_count
                < u64::MAX ==> (r is Ok && spec_is_locked(final(self).locked_tokens@, token_id@)
                && final(self).locked_token_count == old(self).locked_token_count + 1 && (forall|
                x: IdV,
            |
                x != token_id@ ==> #[trigger] spec_is_locked(final(self).locked_tokens@, x)
                    == spec_is_locked(old(self).locked_tokens@, x))),
    {
        if locked_contains(&self.locked_tokens, &token_id) {
            return Ok(());
        }
        if self.locked_token_count == u64::MAX {
            return Err(Error::LockCountOverflow);
        }
        let ghost s = self.locked_tokens@;
        self.locked_tokens.push(token_id);
        self.locked_token_count = self.locked_token_count + 1;
        proof {
            lemma_locked_push(s, self.locked_tokens@.last());
            assert forall|p: int, q: int|
                0 <= p < q < self.locked_tokens@.len() implies (
            #[trigger] self.locked_tokens@[p])@ != (#[trigger] self.locked_tokens@[q])@ by {
                if q < self.locked_tokens@.len() - 1 {
                    assert(self.locked_tokens@[p] == s[p] && self.locked_tokens@[q] == s[q]);
                } else {
                    assert(self.locked_tokens@[p] == s[p]);
                    assert(spec_is_locked(s, s[p]@));
                }
            }
        }
        Ok(())
    }

    /// Whether a token is locked.
    pub fn is_locked_nft(&self, token_id: Id) -> (r: bool)
        ensures
            r == spec_is_locked(self.locked_tokens@, token_id@),
    {
        locked_contains(&self.locked_tokens, &token_id)
    }

    /// How many tokens are currently locked.
    pub fn get_locked_token_count(&self) -> (r: u64)
        ensures
            r == self.locked_token_count,
    {
        self.locked_token_count
    }

    /// Clears a token's lock flag, lowering the counter only when the token
    /// really was locked; a burn consumes the lock this way.
    pub fn clear_lock(&mut self, token_id: &Id)
        requires
            old(self).wf(),
        ensures
            final(self).wf(),
            final(self).last_token_id == old(self).last_token_id,
            final(self).attribute_count == old(self).attribute_count,
            final(self).attribute_names@ == old(self).attribute_names@,
            final(self).metadata == old(self).metadata,
            !spec_is_locked(final(self).locked_tokens@, token_id@),
            forall|x: IdV|
                x != token_id@ ==> #[trigger] spec_is_locked(final(self).locked_tokens@, x)
                    == spec_is_locked(old(self).locked_tokens@, x),
            final(self).locked_token_count as int == old(self).locked_token_count as int - (
            if spec_is_locked(old(self).locked_tokens@, token_id@) {
                1int
            } else {
                0int
            }),
    {
        let ghost s = self.locked_tokens@;
        let mut i: usize = 0;
        while i < self.locked_tokens.len()
            invariant
                *self == *old(self),
                old(self).wf(),
                self.locked_tokens@ == s,
                i <= s.len(),
                forall|j: int| 0 <= j < i ==> (#[trigger] s[j])@ != token_id@,
            decreases s.len() - i,
        {
            if self.locked_tokens[i].eq_id(token_id) {
                proof {
                    lemma_locked_swap_remove(s, i as int);
                    assert(spec_is_locked(s, token_id@));
                }
                let _removed = self.locked_tokens.swap_remove(i);
                self.locked_token_count = self.locked_token_count - 1;
                return ;
            }
            i += 1;
        }
        proof {
            assert(!spec_is_locked(s, token_id@)) by {
                if spec_is_locked(s, token_id@) {
                    let j = choose|j: int| 0 <= j < s.len() && (#[trigger] s[j])@ == token_id@;
                }
            }
        }
    }

    /// Stores the collection's base URI under the reserved pseudo-token.
    pub fn set_base_uri(&mut self, uri: String) -> (r: Result<(), Error>)
        requires
            old(self).wf(),
        ensures
            final(self).wf(),
            r is Ok,
            final(self).last_token_id == old(self).last_token_id,
            final(self).attribute_count == old(self).attribute_count,
            final(self).attribute_names@ == old(self).attribute_names@,
            final(self).locked_tokens@ == old(self).locked_tokens@,
            final(self).locked_token_count == old(self).locked_token_count,
            forall|iv: IdV, k: Seq<u8>| #[trigger] spec_attribute(
                final(self).metadata.attributes@,
                iv,
                k,
            ) == if iv == IdV::U8(0) && k == encode_utf8("baseURI"@) {
                Some(encode_utf8(uri@))
            } else {
                spec_attribute(old(self).metadata.attributes@, iv, k)
            },
    {
        let key = "baseURI".as_bytes_vec();
        let val = uri.as_str().as_bytes_vec();
        self.metadata.set_attribute(Id::U8(0), key, val);
        Ok(())
    }

    /// The number of distinct attribute names interned so far.
    pub fn get_attribute_count(&self) -> (r: u32)
        ensures
            r == self.attribute_count,
    {
        self.attribute_count
    }

    /// The interned attribute name at one-based `index`, as text; empty text
    /// when the index is out of range or the name is not valid text.
    pub fn get_attribute_name(&self, index: u32) -> (r: String)
        ensures
            r@ == if 1 <= index && index as int <= self.attribute_names@.len() {
                text_of_bytes(self.attribute_names@[index as int - 1]@)
            } else {
                Seq::<char>::empty()
            },
    {
        if index >= 1 && (index as usize) <= self.attribute_names.len() {
            bytes_to_text(dup_bytes(&self.attribute_names[(index as usize) - 1]))
        } else {
            String::new()
        }
    }

    /// The token's metadata location: the collection's base URI, the token
    /// number in decimal, and the `.json` suffix.
    pub fn token_uri(&self, token_id: u64) -> (r: String)
        requires
            self.wf(),
        ensures
            r@ == text_of_opt_bytes(
                spec_attribute(self.metadata.attributes@, IdV::U8(0), encode_utf8("baseURI"@)),
            ) + dec_chars(token_id as nat) + ".json"@,
    {
        let key = "baseURI".as_bytes_vec();
        let id0 = Id::U8(0);
        let mut uri = match self.metadata.get_attribute(&id0, &key) {
            Some(v) => bytes_to_text(v),
            None => String::new(),
        };
        let num = u64_to_dec(token_id);
        uri.append(num.as_str());
        uri.append(".json");
        uri
    }

    /// Reads several attributes of one token as text, in the order asked
    /// for: the stored value as text, or empty text when absent or not valid
    /// text.  Never fails.
    pub fn get_attributes(&self, token_id: Id, attributes: Vec<String>) -> (r: Vec<String>)
        requires
            self.wf(),
        ensures
            r@.len() == attributes@.len(),
            forall|i: int|
                0 <= i < attributes@.len() ==> (#[trigger] r@[i])@ == text_of_opt_bytes(
                    spec_attribute(
                        self.metadata.attributes@,
                        token_id@,
                        encode_utf8(attributes@[i]@),
                    ),
                ),
    {
        let mut ret: Vec<String> = Vec::new();
        let mut i: usize = 0;
        while i < attributes.len()
            invariant
                self.wf(),
                i <= attributes@.len(),
                ret@.len() == i,
                forall|j: int|
                    0 <= j < i ==> (#[trigger] ret@[j])@ == text_of_opt_bytes(
                        spec_attribute(
                            self.metadata.attributes@,
                            token_id@,
                            encode_utf8(attributes@[j]@),
                        ),
                    ),
            decreases attributes@.len() - i,
        {
            let key = attributes[i].as_str().as_bytes_vec();
            match self.metadata.get_attribute(&token_id, &key) {
                Some(v) => {
                    ret.push(bytes_to_text(v));
                },
                None => {
                    ret.push(String::new());
                },
            }
            i += 1;
        }
        ret
    }
}

} // verus!

verus! {

impl Manager {
    /// Writes several attributes of one token as a single atomic unit:
    /// every name is interned first (first use appends it to the table) and
    /// every value written, or nothing happens at all.
    ///
    /// Fails with `InvalidInput` for the reserved collection pseudo-token,
    /// with `Locked` for a locked token, and with `AttributeNameOverflow`
    /// when the interning table cannot hold the new names.
    pub fn set_multiple_attributes(&mut self, token_id: Id, metadata: Vec<(String, String)>) -> (r:
        Result<(), Error>)
        requires
            old(self).wf(),
        ensures
            final(self).wf(),
            final(self).last_token_id == old(self).last_token_id,
            final(self).locked_tokens@ == old(self).locked_tokens@,
            final(self).locked_token_count == old(self).locked_token_count,
            token_id@ == IdV::U8(0) ==> (r matches Err(Error::InvalidInput) && *final(self)
                == *old(self)),
            token_id@ != IdV::U8(0) && spec_is_locked(old(self).locked_tokens@, token_id@) ==> (r
                matches Err(Error::Locked) && *final(self) == *old(self)),
            token_id@ != IdV::U8(0) && !spec_is_locked(old(self).locked_tokens@, token_id@)
                && interned_after(names_view(old(self).attribute_names@), metadata@).len()
                > u32::MAX ==> (r matches Err(Error::AttributeNameOverflow) && *final(self)
                == *old(self)),
            token_id@ != IdV::U8(0) && !spec_is_locked(old(self).locked_tokens@, token_id@)
                && interned_after(names_view(old(self).attribute_names@), metadata@).len()
                <= u32::MAX ==> (r is Ok && names_view(final(self).attribute_names@)
                == interned_after(names_view(old(self).attribute_names@), metadata@) && (forall|
                iv: IdV,
                k: Seq<u8>,
            |
                #[trigger] spec_attribute(final(self).metadata.attributes@, iv, k) == (if iv
                    == token_id@ && spec_pairs_value(metadata@, k) is Some {
                    spec_pairs_value(metadata@, k)
                } else {
                    spec_attribute(old(self).metadata.attributes@, iv, k)
                }))),
    {
        let is_zero = match &token_id {
            Id::U8(v) => *v == 0,
            _ => false,
        };
        if is_zero {
            return Err(Error::InvalidInput);
        }
        if locked_contains(&self.locked_tokens, &token_id) {
            return Err(Error::Locked);
        }
        let ghost nv0 = names_view(self.attribute_names@);
        let ghost pairs = metadata@;
        let mut pending: Vec<Vec<u8>> = Vec::new();
        let mut i: usize = 0;
        while i < metadata.len()
            invariant
                *self == *old(self),
                old(self).wf(),
                nv0 == names_view(self.attribute_names@),
                pairs == metadata@,
                i <= pairs.len(),
                nv0 + names_view(pending@) == interned_after(nv0, pairs.take(i as int)),
            decreases pairs.len() - i,
        {
            let k = metadata[i].0.as_str().as_bytes_vec();
            let ghost pv = names_view(pending@);
            let in_table = names_contains(&self.attribute_names, &k);
            let in_pending = names_contains(&pending, &k);
            proof {
                lemma_concat_contains(nv0, pv, k@);
                assert(pairs.take(i as int + 1).drop_last() =~= pairs.take(i as int));
                assert(pairs.take(i as int + 1).last() == pairs[i as int]);
                assert(pairs.take(i as int) =~= pairs.take(i as int + 1).drop_last());
                assert(pairs.take(i as int + 1) =~= pairs.take(i as int).push(pairs[i as int]));
                lemma_interned_push(nv0, pairs.take(i as int), pairs[i as int]);
                assert(encode_utf8(pairs[i as int].0@) == k@);
            }
            if !in_table && !in_pending {
                pending.push(k);
                proof {
                    assert(names_view(pending@) =~= pv.push(k@));
                    assert(nv0 + names_view(pending@) =~= (nv0 + pv).push(k@));
                }
            }
            i += 1;
        }
        proof {
            assert(pairs.take(pairs.len() as int) =~= pairs);
        }
        let ghost whole = interned_after(nv0, pairs);
        if pending.len() > (u32::MAX - self.attribute_count) as usize {
            proof {
                assert(whole.len() == nv0.len() + names_view(pending@).len());
                assert(whole.len() > u32::MAX);
            }
            return Err(Error::AttributeNameOverflow);
        }
        proof {
            assert(whole.len() == nv0.len() + names_view(pending@).len());
            assert(whole.len() <= u32::MAX);
            lemma_interned_props(nv0, pairs);
        }
        let ghost pend_pre = pending@;
        let npend = pending.len();
        self.attribute_names.append(&mut pending);
        self.attribute_count = self.attribute_count + (npend as u32);
        proof {
            assert(names_view(self.attribute_names@) =~= whole) by {
                assert(self.attribute_names@ == old(self).attribute_names@ + pend_pre);
                assert(names_view(old(self).attribute_names@ + pend_pre) =~= nv0 + names_view(
                    pend_pre,
                ));
            }
        }
        let ghost attrs0 = self.metadata.attributes@;
        let ghost names_now = self.attribute_names@;
        let ghost count_now = self.attribute_count;
        let mut j: usize = 0;
        while j < metadata.len()
            invariant
                pairs == metadata@,
                j <= pairs.len(),
                self.last_token_id == old(self).last_token_id,
                self.locked_tokens@ == old(self).locked_tokens@,
                self.locked_token_count == old(self).locked_token_count,
                self.attribute_names@ == names_now,
                self.attribute_count == count_now,
                count_now as int == names_now.len(),
                distinct_views(names_view(names_now)),
                distinct_locked(self.locked_tokens@),
                self.locked_token_count as int == self.locked_tokens@.len(),
                self.metadata.wf(),
                forall|iv: IdV, k: Seq<u8>| #[trigger] spec_attribute(
                    self.metadata.attributes@,
                    iv,
                    k,
                ) == (if iv == token_id@ && spec_pairs_value(pairs.take(j as int), k) is Some {
                    spec_pairs_value(pairs.take(j as int), k)
                } else {
                    spec_attribute(attrs0, iv, k)
                }),
            decreases pairs.len() - j,
        {
            let key = metadata[j].0.as_str().as_bytes_vec();
            let val = metadata[j].1.as_str().as_bytes_vec();
            let ghost before = self.metadata.attributes@;
            self.metadata.set_attribute(token_id.dup(), key, val);
            proof {
                assert(pairs.take(j as int + 1).drop_last() =~= pairs.take(j as int));
                assert(pairs.take(j as int + 1).last() == pairs[j as int]);
                assert forall|iv: IdV, k: Seq<u8>| #[trigger] spec_attribute(
                    self.metadata.attributes@,
                    iv,
                    k,
                ) == (if iv == token_id@ && spec_pairs_value(pairs.take(j as int + 1), k) is Some {
                    spec_pairs_value(pairs.take(j as int + 1), k)
                } else {
                    spec_attribute(attrs0, iv, k)
                }) by {
                    assert(spec_pairs_value(pairs.take(j as int + 1), k) == (if encode_utf8(
                        pairs[j as int].0@,
                    ) == k {
                        Some(encode_utf8(pairs[j as int].1@))
                    } else {
                        spec_pairs_value(pairs.take(j as int), k)
                    }));
                }
            }
            j += 1;
        }
        proof {
            assert(pairs.take(pairs.len() as int) =~= pairs);
        }
        Ok(())
    }
}

} // verus!
