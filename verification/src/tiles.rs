//! The terrain tile index: one elevation tile per one-degree cell, keyed by
//! the cell's integer latitude and longitude. A query for a cell with no tile
//! finds nothing; the sampler then treats the cell as having no terrain.

use std::collections::HashMap;
use vstd::prelude::*;

verus! {

broadcast use vstd::std_specs::hash::group_hash_axioms;

/// The cell key packed into one integer: both coordinates shifted to
/// non-negative and combined positionally.
pub open spec fn pack_key(lat: int, lon: int) -> int {
    (lat + 32768) * 65536 + (lon + 32768)
}

proof fn lemma_pack_key_injective(lat1: int, lon1: int, lat2: int, lon2: int)
    requires
        -32768 <= lat1 < 32768,
        -32768 <= lon1 < 32768,
        -32768 <= lat2 < 32768,
        -32768 <= lon2 < 32768,
        pack_key(lat1, lon1) == pack_key(lat2, lon2),
    ensures
        lat1 == lat2 && lon1 == lon2,
{
    assert(lat1 == lat2 && lon1 == lon2) by (nonlinear_arith)
        requires
            -32768 <= lat1 < 32768,
            -32768 <= lon1 < 32768,
            -32768 <= lat2 < 32768,
            -32768 <= lon2 < 32768,
            (lat1 + 32768) * 65536 + (lon1 + 32768) == (lat2 + 32768) * 65536 + (lon2 + 32768),
    ;
}

/// The tiles of a terrain, one per one-degree cell.
pub struct TileStore<T> {
    map: HashMap<u64, T>,
}

impl<T> TileStore<T> {
    /// The cells with a tile, and their tiles.
    pub closed spec fn view(&self) -> Map<(i16, i16), T> {
        Map::new(
            |p: (i16, i16)| self.map@.contains_key(pack_key(p.0 as int, p.1 as int) as u64),
            |p: (i16, i16)| self.map@[pack_key(p.0 as int, p.1 as int) as u64],
        )
    }

    /// An empty index: no cell has a tile.
    pub fn new() -> (s: Self)
        ensures
            s.view() == Map::<(i16, i16), T>::empty(),
    {
        let s = TileStore { map: HashMap::new() };
        proof {
            assert(s.view() =~= Map::<(i16, i16), T>::empty());
        }
        s
    }

    /// Files the tile of the given cell, replacing any tile filed for it
    /// before.
    pub fn insert(&mut self, lat: i16, lon: i16, tile: T)
        ensures
            final(self).view() == old(self).view().insert((lat, lon), tile),
    {
        let key: u64 = (lat as i64 + 32768) as u64 * 65536 + (lon as i64 + 32768) as u64;
        assert(key as int == pack_key(lat as int, lon as int));
        self.map.insert(key, tile);
        proof {
            assert forall|p: (i16, i16)|
                pack_key(p.0 as int, p.1 as int) as u64 == key implies p == (lat, lon) by {
                lemma_pack_key_injective(p.0 as int, p.1 as int, lat as int, lon as int);
            }
            assert(self.view() =~= old(self).view().insert((lat, lon), tile));
        }
    }

    /// The tile of the given cell, or nothing where no tile was filed: a cell
    /// without a tile yields no elevation data.
    pub fn get(&self, lat: i16, lon: i16) -> (r: Option<&T>)
        ensures
            match r {
                Option::Some(t) => self.view().contains_key((lat, lon)) && *t == self.view()[
                    (lat, lon)
                ],
                Option::None => !self.view().contains_key((lat, lon)),
            },
    {
        let key: u64 = (lat as i64 + 32768) as u64 * 65536 + (lon as i64 + 32768) as u64;
        assert(key as int == pack_key(lat as int, lon as int));
        self.map.get(&key)
    }
}

} // verus!
