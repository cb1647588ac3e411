use vstd::hash_map::StringHashMap;
use vstd::prelude::*;

verus! {

/// The labels of a program, each with the location that it names. Its view
/// is the map from names to locations.
pub struct LabelTable {
    locations: StringHashMap<u16>,
}

impl View for LabelTable {
    type V = Map<Seq<char>, u16>;

    closed spec fn view(&self) -> Map<Seq<char>, u16> {
        self.locations@
    }
}

impl LabelTable {
    /// A table without labels.
    pub fn new() -> (table: Self)
        ensures
            table@ == Map::<Seq<char>, u16>::empty(),
    {
        LabelTable { locations: StringHashMap::new() }
    }

    /// Binds `name` to `location` and returns the location that it named
    /// before: the newer binding replaces the older one.
    pub fn insert(&mut self, name: String, location: u16) -> (previous: Option<u16>)
        ensures
            final(self)@ == old(self)@.insert(name@, location),
            previous == if old(self)@.contains_key(name@) {
                Some(old(self)@[name@])
            } else {
                None
            },
    {
        let previous = self.get(name.as_str());
        self.locations.insert(name, location);
        previous
    }

    /// The location that `name` names, if it names one.
    pub fn get(&self, name: &str) -> (location: Option<u16>)
        ensures
            location == if self@.contains_key(name@) {
                Some(self@[name@])
            } else {
                None
            },
    {
        match self.locations.get(name) {
            Some(location) => Some(*location),
            None => None,
        }
    }

    /// Whether `name` is bound.
    pub fn contains_key(&self, name: &str) -> (bound: bool)
        ensures
            bound == self@.contains_key(name@),
    {
        self.locations.contains_key(name)
    }
}

} // verus!
