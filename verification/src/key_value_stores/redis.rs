//! What is sent to a Redis server.

use vstd::prelude::*;

use crate::key_value_stores::prefixed_key;
use crate::key_value_stores::KeyValueStore;
use crate::key_value_stores::PipelinedGet;
use crate::key_value_stores::PipelinedSet;
use crate::text::views;

verus! {

/// A Redis store, as far as its keys go.
#[derive(Debug)]
pub struct Redis {
    /// The prefix to use for keys.
    key_prefix: String,
}

/// A pipeline of GET operations: the keys to `GET`, in order.
#[derive(Debug)]
pub struct RedisPipelinedGet {
    key_prefix: String,
    keys: Vec<String>,
}

/// A pipeline of SET operations: the keys to `SET` and their values, in
/// order.
#[derive(Debug)]
pub struct RedisPipelinedSet {
    key_prefix: String,
    entries: Vec<(String, Vec<u8>)>,
}

impl Redis {
    /// A Redis store whose keys stand behind `key_prefix`.
    pub fn new(key_prefix: String) -> (store: Redis)
        ensures
            store.key_prefix_text() == key_prefix@,
    {
        Redis { key_prefix }
    }
}

impl KeyValueStore for Redis {
    type Get = RedisPipelinedGet;

    type Set = RedisPipelinedSet;

    closed spec fn key_prefix_text(&self) -> Seq<char> {
        self.key_prefix@
    }

    fn new_pipelined_get(&self) -> (get: RedisPipelinedGet) {
        RedisPipelinedGet { key_prefix: self.key_prefix.clone(), keys: Vec::new() }
    }

    fn new_pipelined_set(&self) -> (set: RedisPipelinedSet) {
        RedisPipelinedSet { key_prefix: self.key_prefix.clone(), entries: Vec::new() }
    }

    fn key_prefix(&self) -> (prefix: &str) {
        self.key_prefix.as_str()
    }
}

impl RedisPipelinedGet {
    /// The keys to `GET`, in order.
    pub fn keys_to_get(&self) -> (keys: &Vec<String>)
        ensures
            views(keys@) == self.keys(),
    {
        &self.keys
    }
}

impl PipelinedGet for RedisPipelinedGet {
    closed spec fn key_prefix_text(&self) -> Seq<char> {
        self.key_prefix@
    }

    closed spec fn keys(&self) -> Seq<Seq<char>> {
        views(self.keys@)
    }

    fn add_get(&mut self, key: String) {
        let prefixed = prefixed_key(self.key_prefix.as_str(), key.as_str());
        self.keys.push(prefixed);
        assert(views(self.keys@) =~= views(old(self).keys@).push(old(self).key_prefix@ + key@));
    }
}

impl RedisPipelinedSet {
    /// The keys to `SET` and their values, in order.
    pub fn entries_to_set(&self) -> (entries: &Vec<(String, Vec<u8>)>)
        ensures
            crate::geocoders::cache::entry_views(entries@) == self.entries(),
    {
        &self.entries
    }
}

impl PipelinedSet for RedisPipelinedSet {
    closed spec fn key_prefix_text(&self) -> Seq<char> {
        self.key_prefix@
    }

    closed spec fn entries(&self) -> Seq<(Seq<char>, Seq<u8>)> {
        crate::geocoders::cache::entry_views(self.entries@)
    }

    fn add_set(&mut self, key: String, value: Vec<u8>) {
        let prefixed = prefixed_key(self.key_prefix.as_str(), key.as_str());
        self.entries.push((prefixed, value));
        assert(crate::geocoders::cache::entry_views(self.entries@)
            =~= crate::geocoders::cache::entry_views(old(self).entries@).push(
            (old(self).key_prefix@ + key@, value@),
        ));
    }
}

} // verus!
