//! Named text values, such as build settings and environment variables.

use vstd::hash_map::StringHashMap;
use vstd::prelude::*;

verus! {

/// A set of variables: each name has at most one value.
pub struct BuildVars {
    values: StringHashMap<String>,
}

impl View for BuildVars {
    type V = Map<Seq<char>, Seq<char>>;

    closed spec fn view(&self) -> Map<Seq<char>, Seq<char>> {
        self.values@.map_values(|v: String| v@)
    }
}

impl BuildVars {
    /// No variables.
    pub fn new() -> (vars: BuildVars)
        ensures
            vars@ == Map::<Seq<char>, Seq<char>>::empty(),
    {
        let vars = BuildVars { values: StringHashMap::new() };
        assert(vars@ =~= Map::<Seq<char>, Seq<char>>::empty());
        vars
    }

    /// Gives `name` the value `value`, in place of any value that it had.
    pub fn insert(&mut self, name: String, value: String)
        ensures
            final(self)@ == old(self)@.insert(name@, value@),
    {
        self.values.insert(name, value);
        assert(self@ =~= old(self)@.insert(name@, value@));
    }

    /// The value of `name`, if it has one.
    pub fn get(&self, name: &str) -> (value: Option<&String>)
        ensures
            match value {
                Some(v) => self@.contains_key(name@) && v@ == self@[name@],
                None => !self@.contains_key(name@),
            },
    {
        self.values.get(name)
    }
}

} // verus!
