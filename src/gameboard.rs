//! The sprite registry of a board, its layout pass and its collision scan.

use vstd::prelude::*;
use crate::events::{BoardEvent, CollisionEvent};
use crate::geometry::{Area, Offset, SizeRequest, MAX_EXTENT};
use crate::layout::{GameLayout, GameboardBackground, GameboardSize};
use crate::ratio::AspectRatio;
use crate::sprite::{board_bounded, overlaps, overlaps_spec, Sprite, SpriteView};

verus! {

/// No two sprites share an identity.
pub open spec fn ids_unique(s: Seq<SpriteView>) -> bool {
    forall|i: int, j: int| 0 <= i < s.len() && 0 <= j < s.len() && i != j ==> s[i].id != s[j].id
}

/// Some sprite has identity `id`.
pub open spec fn has_id(s: Seq<SpriteView>, id: Seq<char>) -> bool {
    exists|i: int| 0 <= i < s.len() && (#[trigger] s[i]).id == id
}

/// Sprites `i` and `j` overlap on a board of extent `board`.
pub open spec fn pair_hits(s: Seq<SpriteView>, board: GameboardSize, i: int, j: int) -> bool {
    overlaps_spec(s[i].area(board), s[j].area(board))
}

/// The overlapping pairs `(i, k)` with `i < k < j`, by increasing `k`.
pub open spec fn row_pairs(s: Seq<SpriteView>, board: GameboardSize, i: int, j: int) -> Seq<(int, int)>
    decreases j - i,
{
    if j <= i + 1 {
        seq![]
    } else {
        let p = row_pairs(s, board, i, j - 1);
        if pair_hits(s, board, i, j - 1) {
            p.push((i, j - 1))
        } else {
            p
        }
    }
}

/// The overlapping pairs whose first sprite comes before `i`, in scan order.
pub open spec fn scan_pairs(s: Seq<SpriteView>, board: GameboardSize, i: int) -> Seq<(int, int)>
    decreases i,
{
    if i <= 0 {
        seq![]
    } else {
        scan_pairs(s, board, i - 1) + row_pairs(s, board, i - 1, s.len() as int)
    }
}

/// Every overlapping pair `(i, j)`, `i < j`, ordered by `i` then `j`.
pub open spec fn collision_pairs(s: Seq<SpriteView>, board: GameboardSize) -> Seq<(int, int)> {
    scan_pairs(s, board, s.len() as int)
}

/// The notifications of one scan: the identities of each overlapping pair.
pub open spec fn collision_events(s: Seq<SpriteView>, board: GameboardSize) -> Seq<(Seq<char>, Seq<char>)> {
    collision_pairs(s, board).map_values(|p: (int, int)| (s[p.0].id, s[p.1].id))
}

/// What a board holds.
pub struct BoardView {
    pub background: GameboardBackground,
    /// The sprites, in insertion order.
    pub sprites: Seq<SpriteView>,
    /// The layout offsets of the sprites, index for index.
    pub placed: Seq<(Offset, Offset)>,
}

impl BoardView {
    /// The board after `sprite` is inserted.
    pub open spec fn inserted(self, sprite: SpriteView) -> BoardView {
        BoardView {
            background: self.background,
            sprites: self.sprites.push(sprite),
            placed: self.placed.push(sprite.offsets),
        }
    }

    /// The board after the sprite at index `i` is removed.
    pub open spec fn removed(self, i: int) -> BoardView {
        BoardView {
            background: self.background,
            sprites: self.sprites.remove(i),
            placed: self.placed.remove(i),
        }
    }

    pub open spec fn extent(self) -> GameboardSize {
        GameboardSize(self.background.size.0, self.background.size.1)
    }
}

/// A sprite with its layout offsets: the two never drift apart.
struct Entry {
    offsets: (Offset, Offset),
    sprite: Sprite,
}

/// The board: its background and its sprites, in insertion order.
pub struct Gameboard {
    background: GameboardBackground,
    entries: Vec<Entry>,
}

impl View for Gameboard {
    type V = BoardView;

    closed spec fn view(&self) -> BoardView {
        BoardView {
            background: self.background,
            sprites: self.entries@.map_values(|e: Entry| e.sprite@),
            placed: self.entries@.map_values(|e: Entry| e.offsets),
        }
    }
}

impl Gameboard {
    /// Identities unique, every sprite and the extent within bounds.
    pub open spec fn is_valid(&self) -> bool {
        &&& ids_unique(self@.sprites)
        &&& self@.placed.len() == self@.sprites.len()
        &&& forall|i: int| 0 <= i < self@.sprites.len() ==> (#[trigger] self@.sprites[i]).is_bounded()
        &&& 0 <= self@.background.size.0 <= 2 * MAX_EXTENT
        &&& 0 <= self@.background.size.1 <= 2 * MAX_EXTENT
    }

    /// An empty board at `ratio`.
    pub fn new(ratio: AspectRatio) -> (r: Self)
        ensures
            r.is_valid(),
            r@.sprites.len() == 0,
            r@.background == GameboardBackground::new_spec(ratio),
    {
        let r = Gameboard { background: GameboardBackground::new(ratio), entries: Vec::new() };
        assert(r@.sprites =~= Seq::<SpriteView>::empty());
        assert(r@.placed =~= Seq::<(Offset, Offset)>::empty());
        r
    }

    /// Number of sprites.
    pub fn len(&self) -> (r: usize)
        ensures
            r == self@.sprites.len(),
    {
        self.entries.len()
    }

    /// The identities of the sprites, in insertion order.
    pub fn sprite_ids(&self) -> (r: Vec<String>)
        ensures
            r@.len() == self@.sprites.len(),
            forall|k: int| 0 <= k < r@.len() ==> (#[trigger] r@[k])@ == self@.sprites[k].id,
    {
        let mut ids: Vec<String> = Vec::new();
        let mut i: usize = 0;
        while i < self.entries.len()
            invariant
                i <= self@.sprites.len(),
                self@.sprites.len() == self.entries@.len(),
                ids@.len() == i,
                forall|k: int| 0 <= k < i ==> (#[trigger] ids@[k])@ == self@.sprites[k].id,
            decreases self.entries@.len() - i,
        {
            ids.push(self.entries[i].sprite.id().clone());
            i = i + 1;
        }
        ids
    }

    /// Index of the sprite named `id`.
    fn index_of(&self, id: &str) -> (r: Option<usize>)
        ensures
            r matches Some(i) ==> i < self@.sprites.len() && self@.sprites[i as int].id == id@,
            r is None ==> !has_id(self@.sprites, id@),
    {
        let key = String::from_str(id);
        let mut i: usize = 0;
        while i < self.entries.len()
            invariant
                key@ == id@,
                i <= self.entries@.len(),
                self@.sprites.len() == self.entries@.len(),
                forall|k: int| 0 <= k < i ==> (#[trigger] self@.sprites[k]).id != id@,
            decreases self.entries@.len() - i,
        {
            if *self.entries[i].sprite.id() == key {
                return Some(i);
            }
            i = i + 1;
        }
        None
    }

    /// Whether a sprite named `id` is on the board.
    pub fn contains_id(&self, id: &str) -> (r: bool)
        ensures
            r == has_id(self@.sprites, id@),
    {
        self.index_of(id).is_some()
    }

    /// The sprites' boxes on a board of extent `board`, scanned pair by pair
    /// (`i < j`, by `i` then `j`): one notification per overlapping pair,
    /// carrying both identities, the earlier sprite first.
    pub fn collisions(&self, board: GameboardSize) -> (r: Vec<CollisionEvent>)
        requires
            self.is_valid(),
            board_bounded(board),
        ensures
            r@.map_values(|e: CollisionEvent| e@) == collision_events(self@.sprites, board),
    {
        let ghost s = self@.sprites;
        let n = self.entries.len();
        let mut events: Vec<CollisionEvent> = Vec::new();
        let mut i: usize = 0;
        while i < n
            invariant
                self.is_valid(),
                board_bounded(board),
                s == self@.sprites,
                n == s.len(),
                self.entries@.len() == n,
                i <= n,
                events@.len() == scan_pairs(s, board, i as int).len(),
                forall|k: int|
                    0 <= k < events@.len() ==> (#[trigger] events@[k])@ == (
                        s[scan_pairs(s, board, i as int)[k].0].id,
                        s[scan_pairs(s, board, i as int)[k].1].id,
                    ),
            decreases n - i,
        {
            let ghost before = scan_pairs(s, board, i as int);
            assert(s[i as int] == self.entries@[i as int].sprite@);
            assert(s[i as int].is_bounded());
            let a = self.entries[i].sprite.area(board);
            let mut j: usize = i + 1;
            assert(row_pairs(s, board, i as int, j as int) =~= Seq::<(int, int)>::empty());
            assert(before + row_pairs(s, board, i as int, j as int) =~= before);
            while j < n
                invariant
                    self.is_valid(),
                    board_bounded(board),
                    s == self@.sprites,
                    n == s.len(),
                    self.entries@.len() == n,
                    i < n,
                    i < j <= n,
                    a == s[i as int].area(board),
                    crate::sprite::area_fits(a),
                    before == scan_pairs(s, board, i as int),
                    events@.len() == (before + row_pairs(s, board, i as int, j as int)).len(),
                    forall|k: int|
                        0 <= k < events@.len() ==> (#[trigger] events@[k])@ == (
                            s[(before + row_pairs(s, board, i as int, j as int))[k].0].id,
                            s[(before + row_pairs(s, board, i as int, j as int))[k].1].id,
                        ),
                decreases n - j,
            {
                assert(s[j as int] == self.entries@[j as int].sprite@);
                assert(s[j as int].is_bounded());
                let b = self.entries[j].sprite.area(board);
                let ghost prev = before + row_pairs(s, board, i as int, j as int);
                if overlaps(&a, &b) {
                    let ea = self.entries[i].sprite.id().clone();
                    let eb = self.entries[j].sprite.id().clone();
                    events.push(CollisionEvent(ea, eb));
                    assert(before + row_pairs(s, board, i as int, j + 1) =~= prev.push((i as int, j as int)));
                } else {
                    assert(before + row_pairs(s, board, i as int, j + 1) =~= prev);
                }
                j = j + 1;
            }
            assert(scan_pairs(s, board, i + 1) == before + row_pairs(s, board, i as int, n as int));
            i = i + 1;
        }
        assert(events@.map_values(|e: CollisionEvent| e@) =~= collision_events(s, board));
        events
    }

    /// The sprite named `id`, to read or change.
    pub fn get_sprite_by_id(&mut self, id: &str) -> (r: Option<&mut Sprite>)
        ensures
            r is None ==> !has_id(old(self)@.sprites, id@) && final(self)@ == old(self)@,
            r is Some ==> exists|i: int|
                0 <= i < old(self)@.sprites.len() && (#[trigger] old(self)@.sprites[i]).id == id@
                    && (r->Some_0)@ == old(self)@.sprites[i]
                    && final(self)@ == (BoardView {
                    sprites: old(self)@.sprites.update(i, final(r->Some_0)@),
                    ..old(self)@
                }),
    {
        match self.index_of(id) {
            Some(i) => {
                let ghost old_entries = self.entries@;
                let r = &mut self.entries[i].sprite;
                proof {
                    lemma_entry_update(old_entries, i as int, *final(r));
                }
                Some(r)
            },
            None => None,
        }
    }

    /// The board extent of the last layout pass.
    pub fn board_size(&self) -> (r: GameboardSize)
        ensures
            r == self@.extent(),
    {
        self.background.board_size()
    }

    /// The free-offset layout of the board: the background at the start
    /// corner, then each sprite at its layout offsets.
    pub fn layout(&self) -> (r: GameLayout)
        ensures
            r.0@ == seq![(Offset::Start, Offset::Start)] + self@.placed,
            r.1 == self@.background.ratio,
    {
        let mut offsets: Vec<(Offset, Offset)> = Vec::new();
        offsets.push((Offset::Start, Offset::Start));
        let mut i: usize = 0;
        while i < self.entries.len()
            invariant
                i <= self.entries@.len(),
                self@.placed.len() == self.entries@.len(),
                offsets@ == seq![(Offset::Start, Offset::Start)] + self@.placed.take(i as int),
            decreases self.entries@.len() - i,
        {
            offsets.push(self.entries[i].offsets);
            assert(self@.placed.take(i + 1) =~= self@.placed.take(i as int).push(self@.placed[i as int]));
            assert(offsets@ =~= seq![(Offset::Start, Offset::Start)] + self@.placed.take(i + 1));
            i = i + 1;
        }
        assert(self@.placed.take(self@.placed.len() as int) =~= self@.placed);
        GameLayout::new(offsets, self.background.ratio)
    }

    /// The requests of the board's children: the background fills, each
    /// sprite asks for exactly its extent.
    pub open spec fn requests(self) -> Seq<SizeRequest> {
        seq![SizeRequest::fill_spec()] + self@.sprites.map_values(|s: SpriteView| SizeRequest::fixed_spec(s.size))
    }

    /// One layout pass: fits the background to the ratio inside `available`,
    /// which sets the board extent, and places the background and the sprites.
    pub fn build(&mut self, available: (i64, i64)) -> (r: Vec<Area>)
        requires
            old(self).is_valid(),
            0 <= available.0 <= MAX_EXTENT,
            0 <= available.1 <= MAX_EXTENT,
        ensures
            final(self).is_valid(),
            final(self)@.sprites == old(self)@.sprites,
            final(self)@.placed == old(self)@.placed,
            final(self)@.background.ratio == old(self)@.background.ratio,
            (final(self)@.background.size.0 as int, final(self)@.background.size.1 as int)
                == old(self)@.background.ratio.size_spec((available.0 as int, available.1 as int)),
            r@.len() == old(self)@.sprites.len() + 1,
            forall|k: int|
                0 <= k < r@.len() ==> GameLayout::places(
                    old(self)@.background.ratio.size_spec((available.0 as int, available.1 as int)),
                    old(self).requests()[k],
                    (seq![(Offset::Start, Offset::Start)] + old(self)@.placed)[k],
                    #[trigger] r@[k],
                ),
    {
        let _ = self.background.build(available);
        let layout = self.layout();
        let mut requests: Vec<SizeRequest> = Vec::new();
        requests.push(SizeRequest::fill());
        let mut i: usize = 0;
        while i < self.entries.len()
            invariant
                self.is_valid(),
                i <= self.entries@.len(),
                self@.sprites.len() == self.entries@.len(),
                requests@ == self.requests().take(i + 1),
            decreases self.entries@.len() - i,
        {
            let size = self.entries[i].sprite.size();
            assert(self@.sprites[i as int] == self.entries@[i as int].sprite@);
            requests.push(SizeRequest::fixed(size));
            assert(requests@ =~= self.requests().take(i + 2));
            i = i + 1;
        }
        assert(requests@ =~= self.requests());
        assert forall|k: int| 0 <= k < requests@.len() implies (#[trigger] requests@[k]).is_valid() by {
            if k > 0 {
                assert(self@.sprites[k - 1].is_bounded());
            }
        }
        layout.build(available, &requests)
    }

    /// Writes each sprite's world position on the current board extent into
    /// its layout offsets, as static offsets.
    pub fn update_positions(&mut self)
        requires
            old(self).is_valid(),
        ensures
            final(self).is_valid(),
            final(self)@.sprites == old(self)@.sprites,
            final(self)@.background == old(self)@.background,
            final(self)@.placed.len() == old(self)@.placed.len(),
            forall|k: int|
                0 <= k < final(self)@.placed.len() ==> #[trigger] final(self)@.placed[k] == (
                    Offset::Static(old(self)@.sprites[k].position(old(self)@.extent()).0 as i64),
                    Offset::Static(old(self)@.sprites[k].position(old(self)@.extent()).1 as i64),
                ),
    {
        let board = self.background.board_size();
        let ghost old_view = self@;
        let mut i: usize = 0;
        while i < self.entries.len()
            invariant
                self.is_valid(),
                board == old_view.extent(),
                self@.sprites == old_view.sprites,
                self@.background == old_view.background,
                self@.placed.len() == old_view.placed.len(),
                i <= self.entries@.len(),
                forall|k: int|
                    0 <= k < i ==> #[trigger] self@.placed[k] == (
                        Offset::Static(old_view.sprites[k].position(board).0 as i64),
                        Offset::Static(old_view.sprites[k].position(board).1 as i64),
                    ),
            decreases self.entries@.len() - i,
        {
            assert(self@.sprites[i as int] == self.entries@[i as int].sprite@);
            assert(self@.sprites[i as int].is_bounded());
            let pos = self.entries[i].sprite.position(board);
            let ghost before = self.entries@;
            let ghost before_view = self@;
            self.entries[i].offsets = (Offset::Static(pos.0), Offset::Static(pos.1));
            proof {
                lemma_offsets_update(before, i as int, (Offset::Static(pos.0), Offset::Static(pos.1)));
                assert(self.entries@ == before.update(
                    i as int,
                    Entry { offsets: (Offset::Static(pos.0), Offset::Static(pos.1)), sprite: before[i as int].sprite },
                ));
                assert(self@.sprites == before_view.sprites);
            }
            i = i + 1;
        }
    }

    /// Reacts to a notification: a tick runs the collision scan on the
    /// current board extent; any other notification raises nothing.
    pub fn on_event(&self, event: &BoardEvent) -> (r: Vec<CollisionEvent>)
        requires
            self.is_valid(),
        ensures
            *event is Tick ==> r@.map_values(|e: CollisionEvent| e@) == collision_events(
                self@.sprites,
                self@.extent(),
            ),
            !(*event is Tick) ==> r@.len() == 0,
    {
        match event {
            BoardEvent::Tick => self.collisions(self.board_size()),
            BoardEvent::Collision(_) => Vec::new(),
        }
    }

    /// Whether the board is valid: identities unique, every sprite and the
    /// extent within bounds. Changes made through `get_sprite_by_id` can
    /// break this; test it before the calls that require it.
    pub fn check_valid(&self) -> (r: bool)
        ensures
            r == self.is_valid(),
    {
        let n = self.entries.len();
        let ghost s = self@.sprites;
        let (w, h) = self.background.size;
        if !(0 <= w && w <= 2 * MAX_EXTENT && 0 <= h && h <= 2 * MAX_EXTENT) {
            return false;
        }
        let mut i: usize = 0;
        while i < n
            invariant
                n == self.entries@.len(),
                s == self@.sprites,
                s.len() == n,
                self@.placed.len() == n,
                0 <= self@.background.size.0 <= 2 * MAX_EXTENT,
                0 <= self@.background.size.1 <= 2 * MAX_EXTENT,
                i <= n,
                forall|k: int| 0 <= k < i ==> (#[trigger] s[k]).is_bounded(),
                forall|a: int, b: int| 0 <= a < i && 0 <= b < n && a != b ==> s[a].id != s[b].id,
            decreases n - i,
        {
            assert(s[i as int] == self.entries@[i as int].sprite@);
            if !self.entries[i].sprite.is_in_bounds() {
                return false;
            }
            let mut j: usize = i + 1;
            while j < n
                invariant
                    n == self.entries@.len(),
                    s == self@.sprites,
                    s.len() == n,
                    i < j <= n,
                    forall|b: int| i < b < j ==> s[i as int].id != #[trigger] s[b].id,
                decreases n - j,
            {
                assert(s[i as int] == self.entries@[i as int].sprite@);
                assert(s[j as int] == self.entries@[j as int].sprite@);
                if *self.entries[i].sprite.id() == *self.entries[j].sprite.id() {
                    return false;
                }
                j = j + 1;
            }
            i = i + 1;
        }
        true
    }

    /// Adds `sprite` after the others, with its base offsets as its layout offsets.
    pub fn insert_sprite(&mut self, sprite: Sprite)
        requires
            old(self).is_valid(),
            sprite@.is_bounded(),
            !has_id(old(self)@.sprites, sprite@.id),
        ensures
            final(self).is_valid(),
            final(self)@ == old(self)@.inserted(sprite@),
    {
        let ghost old_view = self@;
        let offsets = *sprite.offset();
        self.entries.push(Entry { offsets, sprite });
        assert(self@.sprites =~= old_view.sprites.push(sprite@));
        assert(self@.placed =~= old_view.placed.push(offsets));
    }

    /// Removes the sprite named `id`, if there is one.
    pub fn remove_sprite_by_id(&mut self, id: &str)
        requires
            old(self).is_valid(),
        ensures
            final(self).is_valid(),
            has_id(old(self)@.sprites, id@) ==> exists|i: int|
                0 <= i < old(self)@.sprites.len() && (#[trigger] old(self)@.sprites[i]).id == id@
                    && final(self)@ == old(self)@.removed(i),
            !has_id(old(self)@.sprites, id@) ==> final(self)@ == old(self)@,
            !has_id(final(self)@.sprites, id@),
    {
        let ghost old_view = self@;
        match self.index_of(id) {
            Some(i) => {
                self.entries.remove(i);
                assert(self@.sprites =~= old_view.sprites.remove(i as int));
                assert(self@.placed =~= old_view.placed.remove(i as int));
                assert(old_view.sprites[i as int].id == id@);
                proof {
                    lemma_removed_lacks_id(old_view.sprites, i as int);
                }
            },
            None => {},
        }
    }

    /// Removes the sprite with the identity of `sprite`, if there is one.
    pub fn remove_sprite(&mut self, sprite: &Sprite)
        requires
            old(self).is_valid(),
        ensures
            final(self).is_valid(),
            has_id(old(self)@.sprites, sprite@.id) ==> exists|i: int|
                0 <= i < old(self)@.sprites.len() && (#[trigger] old(self)@.sprites[i]).id
                    == sprite@.id && final(self)@ == old(self)@.removed(i),
            !has_id(old(self)@.sprites, sprite@.id) ==> final(self)@ == old(self)@,
            !has_id(final(self)@.sprites, sprite@.id),
    {
        self.remove_sprite_by_id(sprite.id().as_str());
    }
}

/// Once the sprite at `i` is removed from a board with unique identities,
/// no sprite is left with its identity.
proof fn lemma_removed_lacks_id(s: Seq<SpriteView>, i: int)
    requires
        ids_unique(s),
        0 <= i < s.len(),
    ensures
        !has_id(s.remove(i), s[i].id),
        ids_unique(s.remove(i)),
{
    let t = s.remove(i);
    assert forall|k: int| 0 <= k < t.len() implies (#[trigger] t[k]).id != s[i].id by {
        if k < i {
            assert(t[k] == s[k]);
        } else {
            assert(t[k] == s[k + 1]);
        }
    }
    assert forall|a: int, b: int| 0 <= a < t.len() && 0 <= b < t.len() && a != b implies t[a].id
        != t[b].id by {
        let sa = if a < i { a } else { a + 1 };
        let sb = if b < i { b } else { b + 1 };
        assert(t[a] == s[sa]);
        assert(t[b] == s[sb]);
    }
}

/// Replacing the sprite of one entry changes the sprites at that index only,
/// and no layout offset.
proof fn lemma_entry_update(s: Seq<Entry>, i: int, sprite: Sprite)
    requires
        0 <= i < s.len(),
    ensures
        ({
            let t = s.update(i, Entry { offsets: s[i].offsets, sprite });
            &&& t.map_values(|e: Entry| e.sprite@) =~= s.map_values(|e: Entry| e.sprite@).update(
                i,
                sprite@,
            )
            &&& t.map_values(|e: Entry| e.offsets) =~= s.map_values(|e: Entry| e.offsets)
        }),
{
}

/// Replacing the layout offsets of one entry changes them at that index only,
/// and no sprite.
proof fn lemma_offsets_update(s: Seq<Entry>, i: int, offsets: (Offset, Offset))
    requires
        0 <= i < s.len(),
    ensures
        ({
            let t = s.update(i, Entry { offsets, sprite: s[i].sprite });
            &&& t.map_values(|e: Entry| e.sprite@) =~= s.map_values(|e: Entry| e.sprite@)
            &&& t.map_values(|e: Entry| e.offsets) =~= s.map_values(|e: Entry| e.offsets).update(
                i,
                offsets,
            )
        }),
{
}

/// The board after `new` is inserted, one sprite after another.
pub open spec fn inserted_all(b: BoardView, new: Seq<SpriteView>) -> BoardView
    decreases new.len(),
{
    if new.len() == 0 {
        b
    } else {
        inserted_all(b, new.drop_last()).inserted(new.last())
    }
}

/// Inserting sprites one after another keeps them in insertion order, after
/// the sprites already there.
pub proof fn lemma_insertion_order(b: BoardView, new: Seq<SpriteView>)
    ensures
        inserted_all(b, new).sprites == b.sprites + new,
    decreases new.len(),
{
    if new.len() > 0 {
        lemma_insertion_order(b, new.drop_last());
        assert(b.sprites + new =~= (b.sprites + new.drop_last()).push(new.last()));
    }
}

/// The collision scan treats a pair the same in either order.
pub proof fn lemma_pair_hits_symmetric(s: Seq<SpriteView>, board: GameboardSize, i: int, j: int)
    ensures
        pair_hits(s, board, i, j) == pair_hits(s, board, j, i),
{
    crate::sprite::lemma_overlaps_symmetric(s[i].area(board), s[j].area(board));
}

proof fn lemma_row_pairs_in_range(s: Seq<SpriteView>, board: GameboardSize, i: int, j: int)
    requires
        0 <= i,
        j <= s.len(),
    ensures
        forall|k: int|
            0 <= k < row_pairs(s, board, i, j).len() ==> {
                let p = #[trigger] row_pairs(s, board, i, j)[k];
                p.0 == i && i < p.1 < j
            },
    decreases j - i,
{
    if j > i + 1 {
        lemma_row_pairs_in_range(s, board, i, j - 1);
        let p = row_pairs(s, board, i, j - 1);
        assert forall|k: int| 0 <= k < row_pairs(s, board, i, j).len() implies {
            let q = #[trigger] row_pairs(s, board, i, j)[k];
            q.0 == i && i < q.1 < j
        } by {
            if k < p.len() {
                assert(row_pairs(s, board, i, j)[k] == p[k]);
            }
        }
    }
}

/// Every pair of the scan names two sprites of the board, the earlier first.
proof fn lemma_scan_pairs_in_range(s: Seq<SpriteView>, board: GameboardSize, i: int)
    requires
        i <= s.len(),
    ensures
        forall|k: int|
            0 <= k < scan_pairs(s, board, i).len() ==> {
                let p = #[trigger] scan_pairs(s, board, i)[k];
                0 <= p.0 < p.1 < s.len()
            },
    decreases i,
{
    if i > 0 {
        lemma_scan_pairs_in_range(s, board, i - 1);
        lemma_row_pairs_in_range(s, board, i - 1, s.len() as int);
        let a = scan_pairs(s, board, i - 1);
        let b = row_pairs(s, board, i - 1, s.len() as int);
        assert forall|k: int| 0 <= k < (a + b).len() implies {
            let p = #[trigger] (a + b)[k];
            0 <= p.0 < p.1 < s.len()
        } by {
            if k < a.len() {
                assert((a + b)[k] == a[k]);
            } else {
                assert((a + b)[k] == b[k - a.len()]);
            }
        }
    }
}

/// Once the sprite at `i` is removed from a board whose identities are
/// unique (the removal by identity), no sprite is left under its identity,
/// and no notification of a later collision scan names it.
pub proof fn lemma_removed_sprite_never_collides(b: BoardView, i: int, board: GameboardSize)
    requires
        ids_unique(b.sprites),
        0 <= i < b.sprites.len(),
    ensures
        !has_id(b.removed(i).sprites, b.sprites[i].id),
        forall|k: int|
            0 <= k < collision_events(b.removed(i).sprites, board).len() ==> {
                let e = #[trigger] collision_events(b.removed(i).sprites, board)[k];
                e.0 != b.sprites[i].id && e.1 != b.sprites[i].id
            },
{
    lemma_removed_lacks_id(b.sprites, i);
    let t = b.removed(i).sprites;
    lemma_scan_pairs_in_range(t, board, t.len() as int);
    assert forall|k: int| 0 <= k < collision_events(t, board).len() implies {
        let e = #[trigger] collision_events(t, board)[k];
        e.0 != b.sprites[i].id && e.1 != b.sprites[i].id
    } by {
        let p = collision_pairs(t, board)[k];
        assert(0 <= p.0 < p.1 < t.len());
        assert(t[p.0].id != b.sprites[i].id);
        assert(t[p.1].id != b.sprites[i].id);
    }
}

/// `p` comes before `q` when ordered by first index, then second.
pub open spec fn pair_before(p: (int, int), q: (int, int)) -> bool {
    p.0 < q.0 || (p.0 == q.0 && p.1 < q.1)
}

/// Strictly increasing in that order, so without repetition.
pub open spec fn pairs_sorted(s: Seq<(int, int)>) -> bool {
    forall|a: int, b: int| 0 <= a < b < s.len() ==> pair_before(#[trigger] s[a], #[trigger] s[b])
}

proof fn lemma_row_pairs_exact(s: Seq<SpriteView>, board: GameboardSize, i: int, j: int)
    requires
        0 <= i,
        j <= s.len(),
    ensures
        pairs_sorted(row_pairs(s, board, i, j)),
        forall|k: int|
            #[trigger] row_pairs(s, board, i, j).contains((i, k)) <==> (i < k < j && pair_hits(
                s,
                board,
                i,
                k,
            )),
    decreases j - i,
{
    lemma_row_pairs_in_range(s, board, i, j);
    if j > i + 1 {
        lemma_row_pairs_exact(s, board, i, j - 1);
        lemma_row_pairs_in_range(s, board, i, j - 1);
        let p = row_pairs(s, board, i, j - 1);
        let r = row_pairs(s, board, i, j);
        assert forall|k: int| #[trigger] r.contains((i, k)) <==> (i < k < j && pair_hits(s, board, i, k)) by {
            if r.contains((i, k)) {
                let m = choose|m: int| 0 <= m < r.len() && r[m] == (i, k);
                if m < p.len() {
                    assert(p[m] == r[m]);
                    assert(p.contains((i, k)));
                }
            }
            if i < k < j && pair_hits(s, board, i, k) {
                if k < j - 1 {
                    assert(p.contains((i, k)));
                    let m = choose|m: int| 0 <= m < p.len() && p[m] == (i, k);
                    assert(r[m] == (i, k));
                } else {
                    assert(r[r.len() - 1] == (i, k));
                }
            }
        }
        assert forall|a: int, b: int| 0 <= a < b < r.len() implies pair_before(
            #[trigger] r[a],
            #[trigger] r[b],
        ) by {
            assert(r[a] == p[a]);
            if b < p.len() {
                assert(r[b] == p[b]);
            }
        }
    }
}

proof fn lemma_scan_pairs_exact(s: Seq<SpriteView>, board: GameboardSize, i: int)
    requires
        0 <= i <= s.len(),
    ensures
        pairs_sorted(scan_pairs(s, board, i)),
        forall|k: int| 0 <= k < scan_pairs(s, board, i).len() ==> (#[trigger] scan_pairs(s, board, i)[k]).0 < i,
        forall|a: int, b: int|
            #[trigger] scan_pairs(s, board, i).contains((a, b)) <==> (0 <= a < i && a < b < s.len()
                && pair_hits(s, board, a, b)),
    decreases i,
{
    if i > 0 {
        lemma_scan_pairs_exact(s, board, i - 1);
        lemma_row_pairs_exact(s, board, i - 1, s.len() as int);
        lemma_row_pairs_in_range(s, board, i - 1, s.len() as int);
        let p = scan_pairs(s, board, i - 1);
        let q = row_pairs(s, board, i - 1, s.len() as int);
        let r = scan_pairs(s, board, i);
        assert(r == p + q);
        assert forall|k: int| 0 <= k < r.len() implies (#[trigger] r[k]).0 < i by {
            if k < p.len() {
                assert(r[k] == p[k]);
            } else {
                assert(r[k] == q[k - p.len()]);
            }
        }
        assert forall|a: int, b: int| 0 <= a < b < r.len() implies pair_before(
            #[trigger] r[a],
            #[trigger] r[b],
        ) by {
            if b < p.len() {
                assert(r[a] == p[a] && r[b] == p[b]);
            } else if a >= p.len() {
                assert(r[a] == q[a - p.len()] && r[b] == q[b - p.len()]);
            } else {
                assert(r[a] == p[a] && r[b] == q[b - p.len()]);
            }
        }
        assert forall|a: int, b: int| #[trigger] r.contains((a, b)) <==> (0 <= a < i && a < b < s.len()
            && pair_hits(s, board, a, b)) by {
            if r.contains((a, b)) {
                let m = choose|m: int| 0 <= m < r.len() && r[m] == (a, b);
                if m < p.len() {
                    assert(p[m] == r[m]);
                    assert(p.contains((a, b)));
                } else {
                    assert(q[m - p.len()] == r[m]);
                    assert(q.contains((a, b)));
                    assert(a == i - 1);
                }
            }
            if 0 <= a < i && a < b < s.len() && pair_hits(s, board, a, b) {
                if a < i - 1 {
                    assert(p.contains((a, b)));
                    let m = choose|m: int| 0 <= m < p.len() && p[m] == (a, b);
                    assert(r[m] == (a, b));
                } else {
                    assert(q.contains((a, b)));
                    let m = choose|m: int| 0 <= m < q.len() && q[m] == (a, b);
                    assert(r[p.len() + m] == (a, b));
                }
            }
        }
    }
}

/// The scan reports a pair `i < j` exactly when the two boxes overlap, and
/// reports no pair twice: one notification per overlapping pair.
pub proof fn lemma_scan_reports_each_overlap_once(s: Seq<SpriteView>, board: GameboardSize)
    ensures
        collision_pairs(s, board).no_duplicates(),
        forall|i: int, j: int|
            0 <= i < j < s.len() ==> (#[trigger] collision_pairs(s, board).contains((i, j))
                <==> pair_hits(s, board, i, j)),
{
    lemma_scan_pairs_exact(s, board, s.len() as int);
    let c = collision_pairs(s, board);
    assert forall|a: int, b: int| 0 <= a < c.len() && 0 <= b < c.len() && a != b implies c[a] != c[b] by {
        if a < b {
            assert(pair_before(c[a], c[b]));
        } else {
            assert(pair_before(c[b], c[a]));
        }
    }
}

/// Some notification of the scan names `a` and `b`, in either order.
pub open spec fn reports_pair(s: Seq<SpriteView>, board: GameboardSize, a: Seq<char>, b: Seq<char>) -> bool {
    exists|k: int|
        0 <= k < collision_events(s, board).len() && (#[trigger] collision_events(s, board)[k] == (a, b)
            || collision_events(s, board)[k] == (b, a))
}

/// Two distinct sprites named `a` and `b` overlap.
pub open spec fn hit_ids(s: Seq<SpriteView>, board: GameboardSize, a: Seq<char>, b: Seq<char>) -> bool {
    exists|i: int, j: int|
        0 <= i < s.len() && 0 <= j < s.len() && i != j && s[i].id == a && s[j].id == b && #[trigger] pair_hits(
            s,
            board,
            i,
            j,
        )
}

proof fn lemma_reports_pair_hit_ids(s: Seq<SpriteView>, board: GameboardSize, a: Seq<char>, b: Seq<char>)
    ensures
        reports_pair(s, board, a, b) == hit_ids(s, board, a, b),
{
    lemma_scan_reports_each_overlap_once(s, board);
    lemma_scan_pairs_in_range(s, board, s.len() as int);
    let ev = collision_events(s, board);
    let ps = collision_pairs(s, board);
    if reports_pair(s, board, a, b) {
        let k = choose|k: int| 0 <= k < ev.len() && (#[trigger] ev[k] == (a, b) || ev[k] == (b, a));
        let p = ps[k];
        assert(ev[k] == (s[p.0].id, s[p.1].id));
        assert(0 <= p.0 < p.1 < s.len());
        assert(ps.contains(p));
        if ev[k] == (a, b) {
            assert(pair_hits(s, board, p.0, p.1));
        } else {
            lemma_pair_hits_symmetric(s, board, p.0, p.1);
            assert(pair_hits(s, board, p.1, p.0));
        }
    }
    if hit_ids(s, board, a, b) {
        let (i, j) = choose|i: int, j: int|
            0 <= i < s.len() && 0 <= j < s.len() && i != j && s[i].id == a && s[j].id == b
                && #[trigger] pair_hits(s, board, i, j);
        if i < j {
            assert(ps.contains((i, j)));
            let k = choose|k: int| 0 <= k < ps.len() && ps[k] == (i, j);
            assert(ev[k] == (a, b));
        } else {
            lemma_pair_hits_symmetric(s, board, i, j);
            assert(ps.contains((j, i)));
            let k = choose|k: int| 0 <= k < ps.len() && ps[k] == (j, i);
            assert(ev[k] == (b, a));
        }
    }
}

/// Reordering the sprites does not change which pairs of identities the
/// scan reports: `t` holds the sprites of `s` with `t[k] == s[perm[k]]`,
/// `inv` undoing `perm`.
pub proof fn lemma_scan_order_independent(
    s: Seq<SpriteView>,
    t: Seq<SpriteView>,
    perm: Seq<int>,
    inv: Seq<int>,
    board: GameboardSize,
    a: Seq<char>,
    b: Seq<char>,
)
    requires
        t.len() == s.len(),
        perm.len() == s.len(),
        inv.len() == s.len(),
        forall|k: int| 0 <= k < t.len() ==> 0 <= #[trigger] perm[k] < s.len() && t[k] == s[perm[k]],
        forall|k: int| 0 <= k < t.len() ==> #[trigger] inv[perm[k]] == k,
        forall|m: int| 0 <= m < s.len() ==> 0 <= #[trigger] inv[m] < t.len() && perm[inv[m]] == m,
    ensures
        reports_pair(s, board, a, b) == reports_pair(t, board, a, b),
{
    lemma_reports_pair_hit_ids(s, board, a, b);
    lemma_reports_pair_hit_ids(t, board, a, b);
    if hit_ids(t, board, a, b) {
        let (i, j) = choose|i: int, j: int|
            0 <= i < t.len() && 0 <= j < t.len() && i != j && t[i].id == a && t[j].id == b
                && #[trigger] pair_hits(t, board, i, j);
        assert(inv[perm[i]] == i && inv[perm[j]] == j);
        assert(pair_hits(s, board, perm[i], perm[j]));
    }
    if hit_ids(s, board, a, b) {
        let (i, j) = choose|i: int, j: int|
            0 <= i < s.len() && 0 <= j < s.len() && i != j && s[i].id == a && s[j].id == b
                && #[trigger] pair_hits(s, board, i, j);
        let (x, y) = (inv[i], inv[j]);
        assert(perm[x] == i && perm[y] == j);
        assert(t[x] == s[i] && t[y] == s[j]);
        assert(pair_hits(t, board, x, y));
    }
}

} // verus!
