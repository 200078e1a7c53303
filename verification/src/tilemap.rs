use vstd::prelude::*;

verus! {

/// The position of a tile; `(0, 0)` is the centre of a tile map.
#[derive(Debug, Copy, Clone, PartialEq, Eq)]
pub struct TileIndex {
    pub x: i32,
    pub y: i32,
}

/// A square grid of items, one per tile, for the tiles `-size .. size` on
/// both axes, stored row by row.
pub struct TileMap<T> {
    pub map: Vec<T>,
    pub size: i32,
    pub item_size: usize,
}

/// The tile `(x, y)` lies in a map of the given size.
pub open spec fn tile_in_range(size: int, x: int, y: int) -> bool {
    &&& -size <= x < size
    &&& -size <= y < size
}

/// The number of tiles in a map of the given size: `(2 * size)^2`.
pub open spec fn tile_count(size: int) -> int {
    (2 * size) * (2 * size)
}

/// The slot of the tile `(x, y)` in the row-by-row storage.
pub open spec fn tile_slot(size: int, x: int, y: int) -> int {
    (size + y) * (2 * size) + size + x
}

/// Two numbers in mixed radix `n` are equal only digit by digit.
proof fn lemma_radix_unique(n: int, a1: int, b1: int, a2: int, b2: int)
    requires
        0 <= b1 < n,
        0 <= b2 < n,
        0 <= a1,
        0 <= a2,
        a1 * n + b1 == a2 * n + b2,
    ensures
        a1 == a2,
        b1 == b2,
{
    if a1 > a2 {
        assert(a1 * n >= (a2 + 1) * n) by (nonlinear_arith)
            requires
                a1 >= a2 + 1,
                n > 0,
        ;
        assert((a2 + 1) * n == a2 * n + n) by (nonlinear_arith);
    } else if a1 < a2 {
        assert(a2 * n >= (a1 + 1) * n) by (nonlinear_arith)
            requires
                a2 >= a1 + 1,
                n > 0,
        ;
        assert((a1 + 1) * n == a1 * n + n) by (nonlinear_arith);
    }
}

/// A tile in range has a slot inside the storage, and different tiles in
/// range have different slots.
pub proof fn lemma_tile_slot(size: int, x1: int, y1: int, x2: int, y2: int)
    requires
        tile_in_range(size, x1, y1),
        tile_in_range(size, x2, y2),
    ensures
        0 <= tile_slot(size, x1, y1) < tile_count(size),
        tile_slot(size, x1, y1) == tile_slot(size, x2, y2) ==> x1 == x2 && y1 == y2,
{
    let n = 2 * size;
    let a = size + y1;
    let b = size + x1;
    assert(0 <= a * n <= (n - 1) * n) by (nonlinear_arith)
        requires
            0 <= a <= n - 1,
            n > 0,
    ;
    assert((n - 1) * n + n == n * n) by (nonlinear_arith);
    if tile_slot(size, x1, y1) == tile_slot(size, x2, y2) {
        lemma_radix_unique(n, size + y1, size + x1, size + y2, size + x2);
    }
}

/// A map whose tile count fits in `i32` has a size of at most 23170 either
/// way.
proof fn lemma_size_bound(size: int)
    requires
        tile_count(size) <= i32::MAX,
    ensures
        -23170 <= size <= 23170,
{
    if size > 23170 {
        assert(tile_count(size) >= 46342 * 46342) by (nonlinear_arith)
            requires
                size >= 23171,
        ;
    }
    if size < -23170 {
        assert(tile_count(size) >= 46342 * 46342) by (nonlinear_arith)
            requires
                size <= -23171,
        ;
    }
}

impl<T> TileMap<T> {
    /// The map's storage has one item per tile, and every slot offset fits
    /// in `i32`.
    pub open spec fn wf(&self) -> bool {
        &&& tile_count(self.size as int) <= i32::MAX
        &&& self.map@.len() == tile_count(self.size as int)
    }

    /// The item of the tile `(x, y)`.
    pub open spec fn tile(&self, x: int, y: int) -> T {
        self.map@[tile_slot(self.size as int, x, y)]
    }

    /// The items of all tiles, row by row from `y = -size`, each row from
    /// `x = -size`.
    pub open spec fn items(&self) -> Seq<T> {
        self.map@
    }
}

/// A map for the tiles `-size .. size` on both axes, every tile holding
/// `empty`.
pub fn tile_map_new<T: Copy>(size: i32, item_size: usize, empty: T) -> (m: TileMap<T>)
    requires
        tile_count(size as int) <= i32::MAX,
    ensures
        m.wf(),
        m.size == size,
        m.item_size == item_size,
        forall|x: int, y: int| tile_in_range(size as int, x, y) ==> m.tile(x, y) == empty,
        m.items().len() == tile_count(size as int),
        forall|i: int| 0 <= i < m.items().len() ==> m.items()[i] == empty,
{
    proof {
        lemma_size_bound(size as int);
    }
    let side = size * 2;
    assert(side * side <= i32::MAX);
    assert(side * side >= 0) by (nonlinear_arith);
    let count = (side * side) as usize;
    let mut map: Vec<T> = Vec::new();
    while map.len() < count
        invariant
            map.len() <= count,
            forall|i: int| 0 <= i < map@.len() ==> map@[i] == empty,
        decreases count - map.len(),
    {
        map.push(empty);
    }
    let m = TileMap { map, size, item_size };
    assert forall|x: int, y: int| tile_in_range(size as int, x, y) implies m.tile(x, y)
        == empty by {
        lemma_tile_slot(size as int, x, y, x, y);
    }
    m
}

/// Releases the map. Where `free_items` is set, its items come back, row by
/// row, for the caller to release; otherwise nothing comes back.
pub fn tile_map_free<T>(self_: TileMap<T>, free_items: bool) -> (items: Vec<T>)
    ensures
        free_items ==> items@ == self_.items(),
        !free_items ==> items@.len() == 0,
{
    if free_items {
        self_.map
    } else {
        Vec::new()
    }
}

/// The tile lies in the map.
pub fn tile_map_contains<T>(self_: &TileMap<T>, index: TileIndex) -> (r: bool)
    requires
        self_.wf(),
    ensures
        r == tile_in_range(self_.size as int, index.x as int, index.y as int),
{
    proof {
        lemma_size_bound(self_.size as int);
    }
    let size = self_.size;
    index.x >= -size && index.x < size && index.y >= -size && index.y < size
}

/// The slot of a tile in range, in the row-by-row storage `map`.
pub fn tile_map_slot<T>(self_: &TileMap<T>, index: TileIndex) -> (offset: usize)
    requires
        self_.wf(),
        tile_in_range(self_.size as int, index.x as int, index.y as int),
    ensures
        offset == tile_slot(self_.size as int, index.x as int, index.y as int),
        offset < self_.items().len(),
{
    proof {
        lemma_tile_slot(
            self_.size as int,
            index.x as int,
            index.y as int,
            index.x as int,
            index.y as int,
        );
    }
    proof {
        lemma_size_bound(self_.size as int);
    }
    let size = self_.size;
    let rowstride = size * 2;
    let row = size + index.y;
    assert(0 <= row * rowstride && row * rowstride + rowstride <= rowstride * rowstride)
        by (nonlinear_arith)
        requires
            0 <= row < rowstride,
    ;
    let offset = row * rowstride + size + index.x;
    offset as usize
}

/// The item of a tile in the map.
pub fn tile_map_get<T>(self_: &TileMap<T>, index: TileIndex) -> (item: &T)
    requires
        self_.wf(),
        tile_in_range(self_.size as int, index.x as int, index.y as int),
    ensures
        *item == self_.tile(index.x as int, index.y as int),
{
    let offset = tile_map_slot(self_, index);
    &self_.map[offset]
}

/// Stores `item` in a tile of the map; every other tile keeps its item.
pub fn tile_map_set<T>(self_: &mut TileMap<T>, index: TileIndex, item: T)
    requires
        old(self_).wf(),
        tile_in_range(old(self_).size as int, index.x as int, index.y as int),
    ensures
        final(self_).wf(),
        final(self_).size == old(self_).size,
        final(self_).item_size == old(self_).item_size,
        final(self_).tile(index.x as int, index.y as int) == item,
        forall|x: int, y: int|
            tile_in_range(old(self_).size as int, x, y) && !(x == index.x && y == index.y)
                ==> final(self_).tile(x, y) == old(self_).tile(x, y),
{
    let offset = tile_map_slot(self_, index);
    self_.map.set(offset, item);
    proof {
        assert forall|x: int, y: int|
            tile_in_range(old(self_).size as int, x, y) && !(x == index.x && y == index.y)
                implies self_.tile(x, y) == old(self_).tile(x, y) by {
            lemma_tile_slot(old(self_).size as int, x, y, index.x as int, index.y as int);
        }
    }
}

/// The copy of `src` into `dst` has reached the tile `(x, y)`: tiles of
/// `src` in earlier rows, or earlier in row `y`, hold `src`'s items in `dst`;
/// every other tile of `dst` keeps its item from `orig`.
pub open spec fn copied_upto<T>(
    src: TileMap<T>,
    dst: TileMap<T>,
    orig: TileMap<T>,
    x: int,
    y: int,
) -> bool {
    &&& forall|tx: int, ty: int|
        tile_in_range(src.size as int, tx, ty) && (ty < y || (ty == y && tx < x)) ==> dst.tile(
            tx,
            ty,
        ) == src.tile(tx, ty)
    &&& forall|tx: int, ty: int|
        tile_in_range(dst.size as int, tx, ty) && !(tile_in_range(src.size as int, tx, ty) && (
        ty < y || (ty == y && tx < x))) ==> dst.tile(tx, ty) == orig.tile(tx, ty)
}

/// Copies every tile of `self_` into the same tile of `other`, which covers
/// at least as many tiles; the other tiles of `other` keep their items.
pub fn tile_map_copy_to<T: Copy>(self_: &TileMap<T>, other: &mut TileMap<T>)
    requires
        self_.wf(),
        old(other).wf(),
        old(other).size >= self_.size,
    ensures
        final(other).wf(),
        final(other).size == old(other).size,
        final(other).item_size == old(other).item_size,
        forall|x: int, y: int|
            tile_in_range(self_.size as int, x, y) ==> final(other).tile(x, y) == self_.tile(x, y),
        forall|x: int, y: int|
            tile_in_range(old(other).size as int, x, y) && !tile_in_range(self_.size as int, x, y)
                ==> final(other).tile(x, y) == old(other).tile(x, y),
{
    proof {
        lemma_size_bound(self_.size as int);
    }
    let ghost orig = *other;
    let size = self_.size;
    let lo = -size;
    let mut y = lo;
    while y < size
        invariant
            self_.wf(),
            other.wf(),
            other.size == orig.size,
            other.item_size == orig.item_size,
            orig.size >= self_.size,
            size == self_.size,
            lo == -size,
            lo <= y,
            y <= size || y == lo,
            copied_upto(*self_, *other, orig, lo as int, y as int),
        decreases size - y,
    {
        let mut x = lo;
        while x < size
            invariant
                self_.wf(),
                other.wf(),
                other.size == orig.size,
                other.item_size == orig.item_size,
                orig.size >= self_.size,
                size == self_.size,
                lo == -size,
                lo <= y < size,
                lo <= x,
                x <= size || x == lo,
                copied_upto(*self_, *other, orig, x as int, y as int),
            decreases size - x,
        {
            let index = TileIndex { x, y };
            let item = *tile_map_get(self_, index);
            let ghost before = *other;
            tile_map_set(other, index, item);
            assert(copied_upto(*self_, *other, orig, x + 1, y as int)) by {
                assert forall|tx: int, ty: int|
                    tile_in_range(other.size as int, tx, ty) && !(tile_in_range(
                        self_.size as int,
                        tx,
                        ty,
                    ) && (ty < y || (ty == y && tx < x + 1))) implies other.tile(tx, ty)
                    == orig.tile(tx, ty) by {
                    assert(before.tile(tx, ty) == orig.tile(tx, ty));
                }
            }
            x = x + 1;
        }
        assert(copied_upto(*self_, *other, orig, lo as int, y + 1)) by {
            assert forall|tx: int, ty: int|
                tile_in_range(self_.size as int, tx, ty) && ty < y + 1 implies other.tile(tx, ty)
                == self_.tile(tx, ty) by {
                if ty == y {
                    assert(tx < x);
                }
            }
        }
        y = y + 1;
    }
}

} // verus!
