//! A small name-to-value mapping for bound path parameters and form fields.
//!
//! The mapping is an association list with unique names, read through a
//! mathematical `Map` view; inserting an existing name overwrites its value.

use vstd::prelude::*;

verus! {

/// A name→value mapping with unique names.
#[derive(Debug, PartialEq, Eq)]
pub struct Params {
    items: Vec<(String, String)>,
}

/// The mapping an association list denotes; later entries win.
pub open spec fn assoc_map(items: Seq<(String, String)>) -> Map<Seq<char>, Seq<char>>
    decreases items.len(),
{
    if items.len() == 0 {
        Map::<Seq<char>, Seq<char>>::empty()
    } else {
        assoc_map(items.drop_last()).insert(items.last().0@, items.last().1@)
    }
}

spec fn unique_keys(items: Seq<(String, String)>) -> bool {
    forall|i: int, j: int|
        #![trigger items[i], items[j]]
        0 <= i < j < items.len() ==> items[i].0@ != items[j].0@
}

impl View for Params {
    type V = Map<Seq<char>, Seq<char>>;

    closed spec fn view(&self) -> Map<Seq<char>, Seq<char>> {
        assoc_map(self.items@)
    }
}

proof fn lemma_assoc_found(items: Seq<(String, String)>, i: int)
    requires
        unique_keys(items),
        0 <= i < items.len(),
    ensures
        assoc_map(items).contains_key(items[i].0@),
        assoc_map(items)[items[i].0@] == items[i].1@,
    decreases items.len(),
{
    if i == items.len() - 1 {
        assert(items.last() == items[i]);
    } else {
        assert(unique_keys(items.drop_last()));
        assert(items.drop_last()[i] == items[i]);
        lemma_assoc_found(items.drop_last(), i);
        assert(items.last().0@ != items[i].0@);
    }
}

proof fn lemma_assoc_absent(items: Seq<(String, String)>, key: Seq<char>)
    requires
        forall|i: int| 0 <= i < items.len() ==> (#[trigger] items[i]).0@ != key,
    ensures
        !assoc_map(items).contains_key(key),
    decreases items.len(),
{
    if items.len() > 0 {
        assert(forall|i: int|
            0 <= i < items.drop_last().len() ==> (#[trigger] items.drop_last()[i]).0@ != key);
        lemma_assoc_absent(items.drop_last(), key);
        assert(items.last().0@ != key);
    }
}

proof fn lemma_assoc_update(items: Seq<(String, String)>, i: int, kv: (String, String))
    requires
        unique_keys(items),
        0 <= i < items.len(),
        items[i].0@ == kv.0@,
    ensures
        assoc_map(items.update(i, kv)) == assoc_map(items).insert(kv.0@, kv.1@),
        unique_keys(items.update(i, kv)),
    decreases items.len(),
{
    let upd = items.update(i, kv);
    assert(upd.len() == items.len());
    assert forall|a: int, b: int|
        #![trigger upd[a], upd[b]]
        0 <= a < b < upd.len() implies upd[a].0@ != upd[b].0@ by {
        assert(items[a].0@ != items[b].0@);
    }
    if i == items.len() - 1 {
        assert(upd.drop_last() =~= items.drop_last());
        assert(upd.last() == kv);
        assert(assoc_map(upd) == assoc_map(items.drop_last()).insert(kv.0@, kv.1@));
        assert(assoc_map(items.drop_last()).insert(items.last().0@, items.last().1@).insert(
            kv.0@,
            kv.1@,
        ) =~= assoc_map(items.drop_last()).insert(kv.0@, kv.1@));
    } else {
        assert(upd.drop_last() =~= items.drop_last().update(i, kv));
        assert(unique_keys(items.drop_last()));
        assert(items.drop_last()[i] == items[i]);
        lemma_assoc_update(items.drop_last(), i, kv);
        assert(upd.last() == items.last());
        assert(assoc_map(upd) == assoc_map(items.drop_last()).insert(kv.0@, kv.1@).insert(
            items.last().0@,
            items.last().1@,
        ));
        assert(items.last().0@ != kv.0@);
        assert(assoc_map(items.drop_last()).insert(kv.0@, kv.1@).insert(
            items.last().0@,
            items.last().1@,
        ) =~= assoc_map(items.drop_last()).insert(items.last().0@, items.last().1@).insert(
            kv.0@,
            kv.1@,
        ));
    }
}

impl Params {
    /// The names are pairwise distinct; constructors establish this and
    /// every method preserves it.
    pub closed spec fn wf(self) -> bool {
        unique_keys(self.items@)
    }

    /// An empty mapping.
    pub fn new() -> (r: Params)
        ensures
            r@ == Map::<Seq<char>, Seq<char>>::empty(),
            r.wf(),
    {
        let r = Params { items: Vec::new() };
        proof {
            assert(r@ =~= Map::<Seq<char>, Seq<char>>::empty());
        }
        r
    }

    /// Binds `name` to `value`, overwriting any earlier binding of `name`.
    pub fn insert(&mut self, name: String, value: String)
        requires
            old(self).wf(),
        ensures
            final(self)@ == old(self)@.insert(name@, value@),
            final(self).wf(),
    {
        let n = self.items.len();
        let mut k: usize = 0;
        while k < n
            invariant
                k <= n,
                n == self.items@.len(),
                unique_keys(self.items@),
                self.items@ == old(self).items@,
                forall|i: int| 0 <= i < k ==> (#[trigger] self.items@[i]).0@ != name@,
            decreases n - k,
        {
            let hit = self.items[k].0 == name;
            if hit {
                let ghost items0 = self.items@;
                let r = &mut self.items[k];
                *r = (name, value);
                proof {
                    lemma_assoc_update(items0, k as int, self.items@[k as int]);
                    assert(self.items@ =~= items0.update(k as int, self.items@[k as int]));
                }
                return;
            }
            k += 1;
        }
        let ghost items0 = self.items@;
        self.items.push((name, value));
        proof {
            assert(self.items@.drop_last() =~= items0);
            assert(forall|i: int| 0 <= i < items0.len() ==> (#[trigger] items0[i]).0@ != name@);
            assert forall|a: int, b: int|
                #![trigger self.items@[a], self.items@[b]]
                0 <= a < b < self.items@.len() implies self.items@[a].0@
                != self.items@[b].0@ by {
                if b < self.items@.len() - 1 {
                    assert(items0[a].0@ != items0[b].0@);
                } else {
                    assert(self.items@[a] == items0[a]);
                }
            }
        }
    }

    /// Looks `name` up; `None` exactly when no binding exists.
    pub fn get(&self, name: &str) -> (r: Option<&String>)
        requires
            self.wf(),
        ensures
            match r {
                Some(v) => self@.contains_key(name@) && v@ == self@[name@],
                None => !self@.contains_key(name@),
            },
    {
        let key = name.to_owned();
        let n = self.items.len();
        let mut k: usize = 0;
        while k < n
            invariant
                k <= n,
                n == self.items@.len(),
                unique_keys(self.items@),
                key@ == name@,
                forall|i: int| 0 <= i < k ==> (#[trigger] self.items@[i]).0@ != name@,
            decreases n - k,
        {
            let pair = &self.items[k];
            if pair.0 == key {
                proof {
                    lemma_assoc_found(self.items@, k as int);
                }
                return Some(&pair.1);
            }
            k += 1;
        }
        proof {
            lemma_assoc_absent(self.items@, name@);
        }
        None
    }

    /// The bindings as pairs, each name once, in insertion order.
    pub fn entries(&self) -> (r: Vec<(String, String)>)
        requires
            self.wf(),
        ensures
            r@.len() == self@.dom().len(),
            forall|i: int|
                0 <= i < r@.len() ==> self@.contains_key((#[trigger] r@[i]).0@) && self@[r@[i].0@]
                    == r@[i].1@,
    {
        proof {
            lemma_assoc_dom_len(self.items@);
        }
        let mut out: Vec<(String, String)> = Vec::new();
        let n = self.items.len();
        let mut k: usize = 0;
        while k < n
            invariant
                k <= n,
                n == self.items@.len(),
                unique_keys(self.items@),
                out@.len() == k,
                forall|i: int| 0 <= i < k ==> #[trigger] out@[i] == self.items@[i],
            decreases n - k,
        {
            let pair = &self.items[k];
            out.push((pair.0.clone(), pair.1.clone()));
            k += 1;
        }
        proof {
            assert forall|i: int|
                0 <= i < out@.len() implies self@.contains_key((#[trigger] out@[i]).0@)
                && self@[out@[i].0@] == out@[i].1@ by {
                assert(out@[i] == self.items@[i]);
                lemma_assoc_found(self.items@, i);
            }
        }
        out
    }

    /// The number of bindings.
    pub fn len(&self) -> (r: usize)
        requires
            self.wf(),
        ensures
            r == self@.dom().len(),
    {
        proof {
            lemma_assoc_dom_len(self.items@);
        }
        self.items.len()
    }
}

proof fn lemma_assoc_dom_len(items: Seq<(String, String)>)
    requires
        unique_keys(items),
    ensures
        assoc_map(items).dom().len() == items.len(),
        assoc_map(items).dom().finite(),
    decreases items.len(),
{
    if items.len() > 0 {
        assert(unique_keys(items.drop_last()));
        lemma_assoc_dom_len(items.drop_last());
        assert(forall|i: int|
            0 <= i < items.drop_last().len() ==> (#[trigger] items.drop_last()[i]).0@
                != items.last().0@);
        lemma_assoc_absent(items.drop_last(), items.last().0@);
        assert(assoc_map(items).dom() =~= assoc_map(items.drop_last()).dom().insert(
            items.last().0@,
        ));
        vstd::set::axiom_set_insert_finite(assoc_map(items.drop_last()).dom(), items.last().0@);
        vstd::set::axiom_set_insert_len(assoc_map(items.drop_last()).dom(), items.last().0@);
    }
}

} // verus!
