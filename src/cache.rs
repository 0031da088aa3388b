//! The sample cache: decoded PCM buffers keyed by the path of the media
//! they came from.
use vstd::prelude::*;
use vstd::hash_map::StringHashMap;

verus! {

/// Maps a source path to its decoded mono samples. Inserting under a key
/// replaces what was there.
pub struct SampleCache {
    entries: StringHashMap<Vec<i16>>,
}

impl View for SampleCache {
    type V = Map<Seq<char>, Vec<i16>>;

    closed spec fn view(&self) -> Map<Seq<char>, Vec<i16>> {
        self.entries@
    }
}

impl SampleCache {
    pub fn new() -> (r: SampleCache)
        ensures
            r@ == Map::<Seq<char>, Vec<i16>>::empty(),
    {
        SampleCache { entries: StringHashMap::new() }
    }

    /// Stores `samples` under `key`, replacing any earlier buffer.
    pub fn insert(&mut self, key: String, samples: Vec<i16>)
        ensures
            final(self)@ == old(self)@.insert(key@, samples),
    {
        self.entries.insert(key, samples);
    }

    /// The buffer stored under `key`, if any.
    pub fn get<'a>(&'a self, key: &str) -> (r: Option<&'a Vec<i16>>)
        ensures
            match r {
                Some(v) => self@.contains_key(key@) && *v == self@[key@],
                None => !self@.contains_key(key@),
            },
    {
        self.entries.get(key)
    }

    /// Drops the buffer stored under `key`, if any.
    pub fn remove(&mut self, key: &str)
        ensures
            final(self)@ == old(self)@.remove(key@),
    {
        self.entries.remove(key);
    }

    pub fn len(&self) -> (r: usize)
        ensures
            r == self@.len(),
    {
        self.entries.len()
    }
}

} // verus!
