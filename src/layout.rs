//! Free-offset layout: the board is fitted to its aspect ratio, then every
//! child is sized by its own request and placed by its pair of offsets.

use vstd::prelude::*;
use crate::geometry::{Area, Offset, SizeRequest, MAX_EXTENT};
use crate::ratio::AspectRatio;

verus! {

/// Smallest element, 0 for an empty sequence.
pub open spec fn seq_min(s: Seq<int>) -> int
    decreases s.len(),
{
    if s.len() == 0 {
        0
    } else if s.len() == 1 {
        s[0]
    } else {
        let m = seq_min(s.drop_last());
        if s.last() < m {
            s.last()
        } else {
            m
        }
    }
}

/// Largest element, 0 for an empty sequence.
pub open spec fn seq_max(s: Seq<int>) -> int
    decreases s.len(),
{
    if s.len() == 0 {
        0
    } else if s.len() == 1 {
        s[0]
    } else {
        let m = seq_max(s.drop_last());
        if s.last() > m {
            s.last()
        } else {
            m
        }
    }
}

/// The envelope of the requests: least minimum and greatest maximum per
/// axis; the zero box when there are none.
pub open spec fn merge_spec(s: Seq<SizeRequest>) -> SizeRequest {
    SizeRequest {
        min_width: seq_min(s.map_values(|r: SizeRequest| r.min_width as int)) as i64,
        min_height: seq_min(s.map_values(|r: SizeRequest| r.min_height as int)) as i64,
        max_width: seq_max(s.map_values(|r: SizeRequest| r.max_width as int)) as i64,
        max_height: seq_max(s.map_values(|r: SizeRequest| r.max_height as int)) as i64,
    }
}

proof fn lemma_seq_min_take(s: Seq<int>, i: int)
    requires
        1 <= i < s.len(),
    ensures
        seq_min(s.take(i + 1)) == if s[i] < seq_min(s.take(i)) {
            s[i]
        } else {
            seq_min(s.take(i))
        },
        seq_max(s.take(i + 1)) == if s[i] > seq_max(s.take(i)) {
            s[i]
        } else {
            seq_max(s.take(i))
        },
{
    assert(s.take(i + 1).drop_last() =~= s.take(i));
}

/// Positions its children by a list of offset pairs inside the box that its
/// aspect ratio makes of the available area.
#[derive(Debug)]
pub struct GameLayout(pub Vec<(Offset, Offset)>, pub AspectRatio);

impl GameLayout {
    pub fn new(offsets: Vec<(Offset, Offset)>, ratio: AspectRatio) -> (r: Self)
        ensures
            r.0@ == offsets@,
            r.1 == ratio,
    {
        GameLayout(offsets, ratio)
    }

    /// The board extent that this layout makes of the available area.
    pub fn size(&self, available: (i64, i64)) -> (r: (i64, i64))
        requires
            0 <= available.0 <= MAX_EXTENT,
            0 <= available.1 <= MAX_EXTENT,
        ensures
            (r.0 as int, r.1 as int) == self.1.size_spec((available.0 as int, available.1 as int)),
    {
        self.1.size(available)
    }

    /// The envelope of the children's requests.
    pub fn request_size(&self, children: &Vec<SizeRequest>) -> (r: SizeRequest)
        ensures
            r == merge_spec(children@),
    {
        let ghost ch = children@;
        let ghost min_w = ch.map_values(|r: SizeRequest| r.min_width as int);
        let ghost min_h = ch.map_values(|r: SizeRequest| r.min_height as int);
        let ghost max_w = ch.map_values(|r: SizeRequest| r.max_width as int);
        let ghost max_h = ch.map_values(|r: SizeRequest| r.max_height as int);
        if children.len() == 0 {
            return SizeRequest::new(0, 0, 0, 0);
        }
        let first = children[0];
        let mut lo_w = first.min_width;
        let mut lo_h = first.min_height;
        let mut hi_w = first.max_width;
        let mut hi_h = first.max_height;
        assert(min_w.take(1) =~= seq![min_w[0]]);
        assert(min_h.take(1) =~= seq![min_h[0]]);
        assert(max_w.take(1) =~= seq![max_w[0]]);
        assert(max_h.take(1) =~= seq![max_h[0]]);
        let mut i: usize = 1;
        while i < children.len()
            invariant
                ch == children@,
                min_w == ch.map_values(|r: SizeRequest| r.min_width as int),
                min_h == ch.map_values(|r: SizeRequest| r.min_height as int),
                max_w == ch.map_values(|r: SizeRequest| r.max_width as int),
                max_h == ch.map_values(|r: SizeRequest| r.max_height as int),
                1 <= i <= ch.len(),
                lo_w == seq_min(min_w.take(i as int)),
                lo_h == seq_min(min_h.take(i as int)),
                hi_w == seq_max(max_w.take(i as int)),
                hi_h == seq_max(max_h.take(i as int)),
            decreases ch.len() - i,
        {
            let c = children[i];
            proof {
                lemma_seq_min_take(min_w, i as int);
                lemma_seq_min_take(min_h, i as int);
                lemma_seq_min_take(max_w, i as int);
                lemma_seq_min_take(max_h, i as int);
            }
            if c.min_width < lo_w {
                lo_w = c.min_width;
            }
            if c.min_height < lo_h {
                lo_h = c.min_height;
            }
            if c.max_width > hi_w {
                hi_w = c.max_width;
            }
            if c.max_height > hi_h {
                hi_h = c.max_height;
            }
            i = i + 1;
        }
        assert(min_w.take(ch.len() as int) =~= min_w);
        assert(min_h.take(ch.len() as int) =~= min_h);
        assert(max_w.take(ch.len() as int) =~= max_w);
        assert(max_h.take(ch.len() as int) =~= max_h);
        SizeRequest::new(lo_w, lo_h, hi_w, hi_h)
    }

    /// `a` places a child with request `c` by `offset` inside `board`.
    pub open spec fn places(board: (int, int), c: SizeRequest, offset: (Offset, Offset), a: Area) -> bool {
        let size = c.get_spec(board);
        &&& (a.size.0 as int, a.size.1 as int) == size
        &&& a.offset.0 == offset.0.resolve_spec(board.0, size.0)
        &&& a.offset.1 == offset.1.resolve_spec(board.1, size.1)
    }

    /// One placement per child, in order, as far as both the children and
    /// the offsets go.
    pub fn build(&self, available: (i64, i64), children: &Vec<SizeRequest>) -> (r: Vec<Area>)
        requires
            0 <= available.0 <= MAX_EXTENT,
            0 <= available.1 <= MAX_EXTENT,
            forall|i: int| 0 <= i < children@.len() ==> (#[trigger] children@[i]).is_valid(),
        ensures
            r@.len() == if children@.len() < self.0@.len() {
                children@.len()
            } else {
                self.0@.len()
            },
            forall|i: int|
                0 <= i < r@.len() ==> Self::places(
                    self.1.size_spec((available.0 as int, available.1 as int)),
                    children@[i],
                    self.0@[i],
                    #[trigger] r@[i],
                ),
    {
        let new_size = self.1.size(available);
        let ghost board = (new_size.0 as int, new_size.1 as int);
        let n = if children.len() < self.0.len() {
            children.len()
        } else {
            self.0.len()
        };
        let mut areas: Vec<Area> = Vec::new();
        let mut i: usize = 0;
        while i < n
            invariant
                n <= children@.len(),
                n <= self.0@.len(),
                0 <= new_size.0 <= 2 * MAX_EXTENT,
                0 <= new_size.1 <= 2 * MAX_EXTENT,
                board == (new_size.0 as int, new_size.1 as int),
                forall|i: int| 0 <= i < children@.len() ==> (#[trigger] children@[i]).is_valid(),
                i <= n,
                areas@.len() == i,
                forall|k: int|
                    0 <= k < i ==> Self::places(board, children@[k], self.0@[k], #[trigger] areas@[k]),
            decreases n - i,
        {
            let c = children[i];
            let offset = self.0[i];
            let size = c.get(new_size);
            let x = offset.0.resolve(new_size.0, size.0);
            let y = offset.1.resolve(new_size.1, size.1);
            areas.push(Area { offset: (x, y), size });
            i = i + 1;
        }
        areas
    }
}

/// The resolved board extent, shared by every position query of a tick.
#[derive(Clone, Copy, Debug, PartialEq, Eq)]
pub struct GameboardSize(pub i64, pub i64);

impl Default for GameboardSize {
    fn default() -> (r: Self)
        ensures
            r.0 == 0 && r.1 == 0,
    {
        GameboardSize(0, 0)
    }
}

impl GameboardSize {
    pub fn get(&self) -> (r: (i64, i64))
        ensures
            r == (self.0, self.1),
    {
        (self.0, self.1)
    }
}

/// The board's background: a rounded rectangle kept at the board's aspect ratio.
#[derive(Clone, Copy, Debug)]
pub struct GameboardBackground {
    /// Size of the drawn rectangle, as of the last layout pass.
    pub size: (i64, i64),
    pub ratio: AspectRatio,
}

impl GameboardBackground {
    pub open spec fn new_spec(ratio: AspectRatio) -> GameboardBackground {
        GameboardBackground { size: (0, 0), ratio }
    }

    pub fn new(ratio: AspectRatio) -> (r: Self)
        ensures
            r == Self::new_spec(ratio),
    {
        GameboardBackground { size: (0, 0), ratio }
    }

    /// The drawn rectangle's size, to read or change.
    pub fn shape(&mut self) -> (r: &mut (i64, i64))
        ensures
            *r == old(self).size,
            *final(self) == (GameboardBackground { size: *final(r), ..*old(self) }),
    {
        &mut self.size
    }

    /// The background takes whatever it is given.
    pub fn request_size(&self) -> (r: SizeRequest)
        ensures
            r == SizeRequest::fill_spec(),
    {
        SizeRequest::fill()
    }

    /// Fits the rectangle to the ratio inside `size` and returns the one
    /// placement of the background, over the whole of `size`; the board
    /// extent is then `board_size()`.
    pub fn build(&mut self, size: (i64, i64)) -> (r: Vec<Area>)
        requires
            0 <= size.0 <= MAX_EXTENT,
            0 <= size.1 <= MAX_EXTENT,
        ensures
            (final(self).size.0 as int, final(self).size.1 as int) == old(self).ratio.size_spec(
                (size.0 as int, size.1 as int),
            ),
            final(self).ratio == old(self).ratio,
            r@.len() == 1,
            r@[0] == (Area { offset: (0i64, 0i64), size }),
    {
        let new_size = self.ratio.size(size);
        self.size = new_size;
        let x = Offset::Start.resolve(size.0, new_size.0);
        let y = Offset::Start.resolve(size.1, new_size.1);
        let mut areas: Vec<Area> = Vec::new();
        areas.push(Area { offset: (x, y), size });
        areas
    }

    /// The board extent published by the last layout pass.
    pub fn board_size(&self) -> (r: GameboardSize)
        ensures
            r == GameboardSize(self.size.0, self.size.1),
    {
        GameboardSize(self.size.0, self.size.1)
    }
}

} // verus!
