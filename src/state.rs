//! The declarative game state: which entity stands on which cell, and the
//! board grid seeded from it.

use vstd::prelude::*;
use crate::coords::{coords_text, Coords};
use crate::geometry::UNITS_PER_PIXEL;
use crate::grid::Grid;

verus! {

/// Cells per side of the board.
pub const BOARD_SIZE: usize = 9;

/// Side of one cell's square.
pub const SQUARE_SIZE: i64 = 40 * UNITS_PER_PIXEL;

/// Space between cells.
pub const CELL_SPACING: i64 = 4 * UNITS_PER_PIXEL;

/// What stands on a cell.
#[derive(Clone, Copy, Debug, PartialEq, Eq, Structural)]
pub enum Entity {
    Player,
    Empty,
}

/// The first entity listed under `key`.
pub open spec fn lookup(s: Seq<(Seq<char>, Entity)>, key: Seq<char>) -> Option<Entity>
    decreases s.len(),
{
    if s.len() == 0 {
        Option::None
    } else if s[0].0 == key {
        Option::Some(s[0].1)
    } else {
        lookup(s.drop_first(), key)
    }
}

/// Entities by cell, each cell written `"x,y"`.
#[derive(Debug)]
pub struct GameState {
    pub sprites: Vec<(String, Entity)>,
}

impl GameState {
    pub open spec fn entries(self) -> Seq<(Seq<char>, Entity)> {
        self.sprites@.map_values(|p: (String, Entity)| (p.0@, p.1))
    }

    /// No cell is listed twice.
    pub open spec fn keys_unique(self) -> bool {
        forall|i: int, j: int|
            0 <= i < self.entries().len() && 0 <= j < self.entries().len() && i != j
                ==> self.entries()[i].0 != self.entries()[j].0
    }

    /// The entity on cell `c`; `Entity::Empty` where none is listed.
    pub open spec fn entity_spec(self, c: Coords) -> Entity {
        match lookup(self.entries(), coords_text(c.0 as nat, c.1 as nat)) {
            Option::Some(e) => e,
            Option::None => Entity::Empty,
        }
    }

    /// A state with nothing on the board.
    pub fn empty() -> (r: Self)
        ensures
            r.entries().len() == 0,
            r.keys_unique(),
    {
        let r = GameState { sprites: Vec::new() };
        assert(r.entries() =~= Seq::<(Seq<char>, Entity)>::empty());
        r
    }

    /// The opening state: the player on cell `(4, 8)`, nothing elsewhere.
    pub fn new() -> (r: Self)
        ensures
            r.entries() == seq![(coords_text(4, 8), Entity::Player)],
            r.keys_unique(),
    {
        let mut r = GameState::empty();
        r.insert(Coords(4, 8).to_string(), Entity::Player);
        assert(r.entries() =~= seq![(coords_text(4, 8), Entity::Player)]);
        r
    }

    /// Lists `entity` under `key`: in place of the entity listed there, or
    /// after the others where `key` is new.
    pub fn insert(&mut self, key: String, entity: Entity)
        requires
            old(self).keys_unique(),
        ensures
            final(self).keys_unique(),
            (exists|i: int| 0 <= i < old(self).entries().len() && old(self).entries()[i].0 == key@)
                ==> exists|i: int|
                0 <= i < old(self).entries().len() && old(self).entries()[i].0 == key@
                    && final(self).entries() == old(self).entries().update(i, (key@, entity)),
            !(exists|i: int| 0 <= i < old(self).entries().len() && old(self).entries()[i].0 == key@)
                ==> final(self).entries() == old(self).entries().push((key@, entity)),
    {
        let ghost old_entries = self.entries();
        let mut i: usize = 0;
        while i < self.sprites.len()
            invariant
                self.entries() == old_entries,
                old_entries == old(self).entries(),
                forall|a: int, b: int|
                    0 <= a < old_entries.len() && 0 <= b < old_entries.len() && a != b ==> old_entries[a].0
                        != old_entries[b].0,
                i <= old_entries.len(),
                forall|k: int| 0 <= k < i ==> old_entries[k].0 != key@,
            decreases old_entries.len() - i,
        {
            if self.sprites[i].0 == key {
                let ghost kv = key@;
                let ghost k = i as int;
                assert(old_entries[k].0 == kv);
                self.sprites.set(i, (key, entity));
                assert(self.entries() =~= old_entries.update(k, (kv, entity)));
                assert forall|a: int, b: int|
                    0 <= a < self.entries().len() && 0 <= b < self.entries().len() && a != b implies self.entries()[a].0
                        != self.entries()[b].0 by {
                    assert(self.entries()[a].0 == old_entries[a].0);
                    assert(self.entries()[b].0 == old_entries[b].0);
                }
                assert(0 <= k < old_entries.len() && old_entries[k].0 == kv && self.entries()
                    == old_entries.update(k, (kv, entity)));
                return;
            }
            i = i + 1;
        }
        let ghost k = key@;
        self.sprites.push((key, entity));
        assert(self.entries() =~= old_entries.push((k, entity)));
    }

    /// The entity on cell `c`.
    pub fn entity_at(&self, c: Coords) -> (r: Entity)
        ensures
            r == self.entity_spec(c),
            self.keys_unique() ==> forall|i: int|
                0 <= i < self.entries().len() && self.entries()[i].0 == coords_text(c.0 as nat, c.1 as nat)
                    ==> r == #[trigger] self.entries()[i].1,
    {
        proof {
            if self.keys_unique() {
                assert forall|i: int|
                    0 <= i < self.entries().len() && self.entries()[i].0 == coords_text(c.0 as nat, c.1 as nat)
                        implies self.entity_spec(c) == #[trigger] self.entries()[i].1 by {
                    lemma_lookup_unique(self.entries(), coords_text(c.0 as nat, c.1 as nat), i);
                }
            }
        }
        let key = c.to_string();
        let ghost all = self.entries();
        let mut i: usize = 0;
        assert(all.skip(0) =~= all);
        while i < self.sprites.len()
            invariant
                all == self.entries(),
                key@ == coords_text(c.0 as nat, c.1 as nat),
                i <= all.len(),
                lookup(all, key@) == lookup(all.skip(i as int), key@),
            decreases all.len() - i,
        {
            assert(all.skip(i as int)[0] == all[i as int]);
            assert(all.skip(i as int).drop_first() =~= all.skip(i + 1));
            if self.sprites[i].0 == key {
                return self.sprites[i].1;
            }
            i = i + 1;
        }
        Entity::Empty
    }
}

/// With unique keys, the entry found under a key is the one listed there.
proof fn lemma_lookup_unique(s: Seq<(Seq<char>, Entity)>, key: Seq<char>, i: int)
    requires
        0 <= i < s.len(),
        s[i].0 == key,
        forall|a: int, b: int| 0 <= a < s.len() && 0 <= b < s.len() && a != b ==> s[a].0 != s[b].0,
    ensures
        lookup(s, key) == Option::Some(s[i].1),
    decreases s.len(),
{
    if i > 0 {
        assert(s[0].0 != key);
        let t = s.drop_first();
        assert(t[i - 1] == s[i]);
        assert forall|a: int, b: int| 0 <= a < t.len() && 0 <= b < t.len() && a != b implies t[a].0
            != t[b].0 by {
            assert(t[a] == s[a + 1] && t[b] == s[b + 1]);
        }
        lemma_lookup_unique(t, key, i - 1);
    }
}

/// The board's grid and the entity of each of its cells, row by row.
#[derive(Debug)]
pub struct GameGrid {
    pub grid: Grid,
    pub cells: Vec<Entity>,
}

impl GameGrid {
    /// A square grid of `BOARD_SIZE` cells a side, each cell holding what
    /// `state` lists for it.
    pub fn new(state: &GameState) -> (r: Self)
        ensures
            r.grid == Grid::square_spec(BOARD_SIZE, CELL_SPACING),
            r.cells@.len() == BOARD_SIZE * BOARD_SIZE,
            forall|k: int|
                0 <= k < r.cells@.len() ==> #[trigger] r.cells@[k] == state.entity_spec(
                    Coords((k % BOARD_SIZE as int) as usize, (k / BOARD_SIZE as int) as usize),
                ),
    {
        let mut cells: Vec<Entity> = Vec::new();
        let mut y: usize = 0;
        while y < BOARD_SIZE
            invariant
                y <= BOARD_SIZE,
                cells@.len() == y * BOARD_SIZE,
                forall|k: int|
                    0 <= k < cells@.len() ==> #[trigger] cells@[k] == state.entity_spec(
                        Coords((k % BOARD_SIZE as int) as usize, (k / BOARD_SIZE as int) as usize),
                    ),
            decreases BOARD_SIZE - y,
        {
            let mut x: usize = 0;
            while x < BOARD_SIZE
                invariant
                    y < BOARD_SIZE,
                    x <= BOARD_SIZE,
                    cells@.len() == y * BOARD_SIZE + x,
                    forall|k: int|
                        0 <= k < cells@.len() ==> #[trigger] cells@[k] == state.entity_spec(
                            Coords((k % BOARD_SIZE as int) as usize, (k / BOARD_SIZE as int) as usize),
                        ),
                decreases BOARD_SIZE - x,
            {
                let e = state.entity_at(Coords(x, y));
                proof {
                    vstd::arithmetic::div_mod::lemma_fundamental_div_mod_converse(
                        (y * BOARD_SIZE + x) as int,
                        BOARD_SIZE as int,
                        y as int,
                        x as int,
                    );
                }
                cells.push(e);
                x = x + 1;
            }
            y = y + 1;
        }
        GameGrid { grid: Grid::square(BOARD_SIZE, CELL_SPACING), cells }
    }
}

} // verus!
