//! The mapping from secret identifiers to the names asked for.

use crate::ident::SecretId;
use std::collections::HashMap;
use vstd::prelude::*;

verus! {

broadcast use vstd::std_specs::hash::group_hash_axioms;

/// A mapping from identifier to desired name. Each identifier occurs at
/// most once; the view is the map from an identifier's number to its name.
pub struct SecretMapping {
    names: HashMap<u128, String>,
}

impl View for SecretMapping {
    type V = Map<u128, Seq<char>>;

    closed spec fn view(&self) -> Map<u128, Seq<char>> {
        Map::new(|k: u128| self.names@.contains_key(k), |k: u128| self.names@[k]@)
    }
}

impl SecretMapping {
    /// The empty mapping.
    pub fn new() -> (res: SecretMapping)
        ensures
            res@ == Map::<u128, Seq<char>>::empty(),
    {
        let res = SecretMapping { names: HashMap::new() };
        assert(res@ =~= Map::<u128, Seq<char>>::empty());
        res
    }

    /// The empty mapping, with room for `capacity` entries.
    pub fn with_capacity(capacity: usize) -> (res: SecretMapping)
        ensures
            res@ == Map::<u128, Seq<char>>::empty(),
    {
        let res = SecretMapping { names: HashMap::with_capacity(capacity) };
        assert(res@ =~= Map::<u128, Seq<char>>::empty());
        res
    }

    /// Sets the name of `id`, and hands back the name that it had before.
    pub fn insert(&mut self, id: SecretId, name: String) -> (previous: Option<String>)
        ensures
            final(self)@ == old(self)@.insert(id.value, name@),
            match previous {
                Some(before) => old(self)@.contains_key(id.value) && before@ == old(self)@[id.value],
                None => !old(self)@.contains_key(id.value),
            },
    {
        let previous = self.names.insert(id.value, name);
        assert(self@ =~= old(self)@.insert(id.value, name@));
        previous
    }

    /// The name asked for under `id`, if any.
    pub fn get(&self, id: &SecretId) -> (res: Option<&String>)
        ensures
            match res {
                Some(name) => self@.contains_key(id.value) && name@ == self@[id.value],
                None => !self@.contains_key(id.value),
            },
    {
        self.names.get(&id.value)
    }

    /// Whether a name was asked for under `id`.
    pub fn contains(&self, id: &SecretId) -> (res: bool)
        ensures
            res == self@.contains_key(id.value),
    {
        self.names.contains_key(&id.value)
    }

    /// The identifiers of the mapping, each once, in no particular order.
    pub fn ids(&self) -> (res: Vec<SecretId>)
        ensures
            res@.no_duplicates(),
            forall|id: SecretId| res@.contains(id) <==> self@.contains_key(id.value),
            res.len() == self@.len(),
    {
        let mut res: Vec<SecretId> = Vec::new();
        assert(self@.dom() =~= self.names@.dom());
        for key in it: self.names.keys()
            invariant
                it.seq().unref().to_set() == self.names@.dom(),
                it.seq().no_duplicates(),
                it.seq().len() == self.names@.dom().len(),
                res.len() == it.index(),
                forall|i: int| 0 <= i < res.len() ==> res@[i].value == *it.seq()[i],
                forall|i: int| 0 <= i < res.len() ==> self.names@.contains_key(res@[i].value),
                res@.no_duplicates(),
        {
            proof {
                let k = it.index() as int;
                assert(it.seq().unref()[k] == *key);
                assert(it.seq().unref().to_set().contains(*key));
                assert forall|i: int| 0 <= i < res.len() implies res@[i].value != *key by {
                    assert(it.seq()[i] != it.seq()[k]);
                }
            }
            res.push(SecretId { value: *key });
        }
        proof {
            let found = res@.to_set();
            let wanted = Set::new(|id: SecretId| self@.contains_key(id.value));
            let numbers = res@.map_values(|id: SecretId| id.value);
            assert(numbers.no_duplicates());
            numbers.unique_seq_to_set();
            assert(numbers.to_set().subset_of(self.names@.dom())) by {
                assert forall|v: u128| numbers.to_set().contains(v) implies self.names@.dom().contains(
                    v,
                ) by {
                    let i = choose|i: int| 0 <= i < numbers.len() && numbers[i] == v;
                    assert(res@[i].value == v);
                }
            }
            vstd::set_lib::lemma_subset_equality(numbers.to_set(), self.names@.dom());
            assert forall|id: SecretId| self@.contains_key(id.value) implies res@.contains(id) by {
                assert(numbers.to_set().contains(id.value));
                let i = choose|i: int| 0 <= i < numbers.len() && numbers[i] == id.value;
                assert(res@[i] == id);
            }
            assert forall|id: SecretId| res@.contains(id) implies self@.contains_key(id.value) by {
                let i = choose|i: int| 0 <= i < res@.len() && res@[i] == id;
                assert(self.names@.contains_key(res@[i].value));
            }
        }
        res
    }

    /// The number of identifiers.
    pub fn len(&self) -> (res: usize)
        ensures
            res == self@.len(),
            self@.dom().finite(),
    {
        assert(self@.dom() =~= self.names@.dom());
        self.names.len()
    }

    /// Whether the mapping holds no identifier.
    pub fn is_empty(&self) -> (res: bool)
        ensures
            res == (self@ == Map::<u128, Seq<char>>::empty()),
    {
        assert(self@.dom() =~= self.names@.dom());
        let res = self.names.len() == 0;
        proof {
            if res {
                assert(self@ =~= Map::<u128, Seq<char>>::empty());
            }
        }
        res
    }
}

} // verus!
