//! The names of the checksums that a QB script defines.
use crate::text::{hex_string, hex_text};
use std::collections::BTreeMap;
use vstd::prelude::*;

verus! {

broadcast use {vstd::std_specs::btree::group_btree_axioms, vstd::laws_cmp::group_laws_cmp};

/// The name of `checksum` in `syms`, or else the checksum in hexadecimal.
pub open spec fn name_or_hex(syms: Map<u32, Seq<char>>, checksum: u32) -> Seq<char> {
    if syms.contains_key(checksum) {
        syms[checksum]
    } else {
        hex_text(checksum)
    }
}

/// A map from checksums to the names they were computed from.
#[derive(Debug)]
pub struct SymbolTable {
    symbols: BTreeMap<u32, String>,
}

impl View for SymbolTable {
    type V = Map<u32, Seq<char>>;

    closed spec fn view(&self) -> Map<u32, Seq<char>> {
        self.symbols@.map_values(|s: String| s@)
    }
}

impl SymbolTable {
    pub fn new() -> (t: SymbolTable)
        ensures
            t@ == Map::<u32, Seq<char>>::empty(),
    {
        let t = SymbolTable { symbols: BTreeMap::new() };
        proof {
            assert(t@ =~= Map::<u32, Seq<char>>::empty());
        }
        t
    }

    /// Names `checksum`, replacing any name it had.
    pub fn add(&mut self, checksum: u32, name: String)
        ensures
            final(self)@ == old(self)@.insert(checksum, name@),
    {
        let ghost old_map = self.symbols@;
        self.symbols.insert(checksum, name);
        proof {
            assert(self@ =~= old(self)@.insert(checksum, name@));
        }
    }

    /// The name of `checksum`, if it has one.
    pub fn get(&self, checksum: u32) -> (r: Option<&String>)
        ensures
            match r {
                Some(s) => self@.contains_key(checksum) && s@ == self@[checksum],
                None => !self@.contains_key(checksum),
            },
    {
        self.symbols.get(&checksum)
    }

    /// The name of `checksum`, or else the checksum in hexadecimal (`0x` and at
    /// least six digits).
    pub fn get_or_hex(&self, checksum: u32) -> (r: String)
        ensures
            r@ == name_or_hex(self@, checksum),
    {
        match self.symbols.get(&checksum) {
            Some(name) => name.clone(),
            None => hex_string(checksum),
        }
    }
}

} // verus!
