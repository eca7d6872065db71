//! Paused runs and pending downloads, each registered under a random key
//! until the client claims it with the key's token.
use vstd::prelude::*;

use std::collections::HashMap;

use crate::run::token::{lemma_parse_token_text, parse_token, spec_parse_token, token_text};

verus! {

broadcast use vstd::std_specs::hash::group_hash_axioms;

/// Values registered under 128-bit keys.
pub struct Registry<V> {
    map: HashMap<u128, V>,
}

impl<V> View for Registry<V> {
    type V = Map<u128, V>;

    closed spec fn view(&self) -> Map<u128, V> {
        self.map@
    }
}

impl<V> Registry<V> {
    pub fn new() -> (r: Registry<V>)
        ensures
            r@ == Map::<u128, V>::empty(),
    {
        Registry { map: HashMap::new() }
    }

    /// Registers `v` under `key`, in place of whatever was there.
    pub fn insert(&mut self, key: u128, v: V)
        ensures
            final(self)@ == old(self)@.insert(key, v),
    {
        let _ = self.map.insert(key, v);
    }

    /// Takes what is registered under `key`, leaving the key free.
    pub fn take(&mut self, key: u128) -> (r: Option<V>)
        ensures
            final(self)@ == old(self)@.remove(key),
            match r {
                Some(v) => old(self)@.contains_key(key) && old(self)@[key] == v,
                None => !old(self)@.contains_key(key),
            },
    {
        self.map.remove(&key)
    }

    /// Takes what is registered under the key that the token `text` names
    /// (read as [`parse_token`] reads it); `None`, changing nothing, when
    /// the text names no key.
    pub fn claim(&mut self, text: &[u8]) -> (r: Option<V>)
        ensures
            match spec_parse_token(text@) {
                None => r is None && final(self)@ == old(self)@,
                Some(key) => final(self)@ == old(self)@.remove(key) && match r {
                    Some(v) => old(self)@.contains_key(key) && old(self)@[key] == v,
                    None => !old(self)@.contains_key(key),
                },
            },
    {
        match parse_token(text) {
            Some(key) => self.take(key),
            None => None,
        }
    }
}

/// What is registered under a key is what taking the key gives, and the
/// key is free afterwards; other keys keep what they hold.
pub proof fn lemma_registry_take_after_insert<V>(m: Map<u128, V>, key: u128, v: V, other: u128)
    requires
        other != key,
    ensures
        m.insert(key, v).contains_key(key),
        m.insert(key, v)[key] == v,
        !m.insert(key, v).remove(key).contains_key(key),
        m.insert(key, v).remove(key).contains_key(other) == m.contains_key(other),
        m.contains_key(other) ==> m.insert(key, v).remove(key)[other] == m[other],
{
}

/// A value registered under a key is claimed with the key's token exactly
/// once: the first claim gives it, and a later claim with the same token
/// finds the key free.
pub proof fn lemma_claim_once<V>(m: Map<u128, V>, key: u128, v: V)
    ensures
        spec_parse_token(token_text(key)) == Some(key),
        m.insert(key, v).contains_key(key),
        m.insert(key, v)[key] == v,
        !m.insert(key, v).remove(key).contains_key(key),
        m.insert(key, v).remove(key).remove(key) == m.insert(key, v).remove(key),
{
    lemma_parse_token_text(key);
    assert(m.insert(key, v).remove(key).remove(key) =~= m.insert(key, v).remove(key));
}

} // verus!
