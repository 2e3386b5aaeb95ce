//! A map keyed by grid positions.

use std::collections::HashMap;
use vstd::prelude::*;

use crate::grid::coords::Coords;

verus! {

/// The number under which a position is filed: both coordinates, each moved
/// into the non-negative range, side by side. Every position has its own.
pub open spec fn coords_key(c: Coords) -> u64 {
    ((c.q + 0x8000_0000) * 0x1_0000_0000 + (c.r + 0x8000_0000)) as u64
}

/// The position filed under a number.
pub open spec fn key_coords(k: u64) -> Coords {
    Coords { q: (k / 0x1_0000_0000 - 0x8000_0000) as i32, r: (k % 0x1_0000_0000 - 0x8000_0000) as i32 }
}

/// Positions and the numbers they are filed under correspond one to one.
pub proof fn lemma_key_bijection()
    ensures
        forall|c: Coords| #[trigger] key_coords(coords_key(c)) == c,
        forall|k: u64| #[trigger] coords_key(key_coords(k)) == k,
{
    assert forall|c: Coords| #[trigger] key_coords(coords_key(c)) == c by {
        let hi = c.q + 0x8000_0000;
        let lo = c.r + 0x8000_0000;
        assert(0 <= hi < 0x1_0000_0000 && 0 <= lo < 0x1_0000_0000);
        assert((hi * 0x1_0000_0000 + lo) / 0x1_0000_0000 == hi);
        assert((hi * 0x1_0000_0000 + lo) % 0x1_0000_0000 == lo);
    }
    assert forall|k: u64| #[trigger] coords_key(key_coords(k)) == k by {
        let hi = k / 0x1_0000_0000;
        let lo = k % 0x1_0000_0000;
        assert(0 <= hi < 0x1_0000_0000 && 0 <= lo < 0x1_0000_0000);
        assert(k == hi * 0x1_0000_0000 + lo);
    }
}

/// The number under which a position is filed.
fn key_of(c: &Coords) -> (k: u64)
    ensures
        k == coords_key(*c),
{
    let hi: u64 = (c.q as i64 + 0x8000_0000) as u64;
    let lo: u64 = (c.r as i64 + 0x8000_0000) as u64;
    hi * 0x1_0000_0000 + lo
}

/// A finite map from positions to values with constant-time lookup.
#[derive(Clone, Debug)]
pub struct CoordMap<V> {
    entries: HashMap<u64, V>,
}

impl<V> View for CoordMap<V> {
    type V = Map<Coords, V>;

    closed spec fn view(&self) -> Map<Coords, V> {
        Map::new(
            |c: Coords| self.entries@.contains_key(coords_key(c)),
            |c: Coords| self.entries@[coords_key(c)],
        )
    }
}

impl<V> CoordMap<V> {
    /// A map that holds nothing.
    pub fn new() -> (m: Self)
        ensures
            m@ == Map::<Coords, V>::empty(),
    {
        let m = CoordMap { entries: HashMap::new() };
        assert(m@ =~= Map::<Coords, V>::empty());
        m
    }

    /// The map holds finitely many positions.
    pub proof fn lemma_finite(&self)
        ensures
            self@.dom().finite(),
            self@.dom().len() == self.spec_len(),
    {
        broadcast use vstd::std_specs::hash::group_hash_axioms;
        lemma_key_bijection();
        let keys = self.entries@.dom();
        let image = keys.map(|k: u64| key_coords(k));
        keys.lemma_map_finite(|k: u64| key_coords(k));
        assert(image =~= self@.dom()) by {
            assert forall|c: Coords| image.contains(c) <==> self@.dom().contains(c) by {
                if self@.dom().contains(c) {
                    assert(keys.contains(coords_key(c)));
                    assert(key_coords(coords_key(c)) == c);
                }
            }
        }
        vstd::set_lib::lemma_map_size(keys, image, |k: u64| key_coords(k));
    }

    /// How many numbers there are under which something is filed.
    pub closed spec fn spec_len(&self) -> nat {
        self.entries@.dom().len()
    }

    /// How many positions the map holds.
    pub fn len(&self) -> (n: usize)
        ensures
            n == self@.dom().len(),
    {
        broadcast use vstd::std_specs::hash::group_hash_axioms;
        proof {
            self.lemma_finite();
        }
        self.entries.len()
    }

    /// Whether the map holds something at a position.
    pub fn contains_key(&self, c: &Coords) -> (b: bool)
        ensures
            b == self@.contains_key(*c),
    {
        broadcast use vstd::std_specs::hash::group_hash_axioms;
        let k: u64 = key_of(c);
        self.entries.contains_key(&k)
    }

    /// What the map holds at a position.
    pub fn get(&self, c: &Coords) -> (v: Option<&V>)
        ensures
            match v {
                Some(v) => self@.contains_key(*c) && *v == self@[*c],
                None => !self@.contains_key(*c),
            },
    {
        broadcast use vstd::std_specs::hash::group_hash_axioms;
        let k: u64 = key_of(c);
        self.entries.get(&k)
    }

    /// Puts a value at a position and hands back what was there.
    pub fn insert(&mut self, c: Coords, v: V) -> (prev: Option<V>)
        ensures
            final(self)@ == old(self)@.insert(c, v),
            match prev {
                Some(p) => old(self)@.contains_key(c) && p == old(self)@[c],
                None => !old(self)@.contains_key(c),
            },
    {
        broadcast use vstd::std_specs::hash::group_hash_axioms;
        let k: u64 = key_of(&c);
        let prev = self.entries.insert(k, v);
        proof {
            lemma_key_bijection();
            assert forall|d: Coords| d != c implies coords_key(d) != k by {
                assert(key_coords(coords_key(d)) == d);
                assert(key_coords(coords_key(c)) == c);
            }
            assert(self@ =~= old(self)@.insert(c, v));
        }
        prev
    }

    /// Takes away what the map holds at a position and hands it back.
    pub fn remove(&mut self, c: &Coords) -> (prev: Option<V>)
        ensures
            final(self)@ == old(self)@.remove(*c),
            match prev {
                Some(p) => old(self)@.contains_key(*c) && p == old(self)@[*c],
                None => !old(self)@.contains_key(*c),
            },
    {
        broadcast use vstd::std_specs::hash::group_hash_axioms;
        let k: u64 = key_of(c);
        let prev = self.entries.remove(&k);
        proof {
            lemma_key_bijection();
            assert forall|d: Coords| d != *c implies coords_key(d) != k by {
                assert(key_coords(coords_key(d)) == d);
                assert(key_coords(coords_key(*c)) == *c);
            }
            assert(self@ =~= old(self)@.remove(*c));
        }
        prev
    }
}

} // verus!
