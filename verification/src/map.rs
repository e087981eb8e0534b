//! The level: a grid of sectors, each with a floor height and a texture.

use vstd::prelude::*;
use vstd::string::{is_ascii_spec_bytes, StringSliceAdditionalSpecFns};
use vstd::arithmetic::div_mod::{lemma_fundamental_div_mod_converse};
use crate::component::TextureID;
use crate::dda::{
    lemma_after_steps, lemma_crossings_on_lines, spec_horizontal, spec_vertical, RayHit,
};
use crate::fixed::floor_div;
use crate::geom::{Cardinal, Vec2f, COORD_LIMIT, GRID_LIMIT};

verus! {

/// Cells along each side of a chunk.
pub const CHUNK_SIZE: usize = 8;

/// The level that is built in: a walled yard with three pillars. Rows run
/// from north to south.
pub const DEBUG_MAP: &'static str =
    "XXXXXXXX\nX......X\nX......X\nX..a...X\nX....b.X\nX.c....X\nX......X\nXXXXXXXX";

/// The cell size of the built-in level: three world units.
pub const DEBUG_GRID_SIZE: i64 = 196608;

/// One cell of the grid.
#[derive(Clone, Copy, Debug, PartialEq, Eq, Structural)]
pub struct Sector {
    pub floor_height: i16,
    pub texid: TextureID,
}

impl Default for Sector {
    fn default() -> (s: Self)
        ensures
            s == (Sector { floor_height: 0, texid: TextureID(0) }),
    {
        Sector { floor_height: 0, texid: TextureID(0) }
    }
}

/// A square block of cells, `sectors[y][x]` being the cell in column `x` of
/// row `y`.
#[derive(Clone, Copy, Debug)]
pub struct Chunk {
    pub sectors: [[Sector; 8]; 8],
}

/// A level: its chunks and the size of a cell.
#[derive(Clone, Debug)]
pub struct LevelMap {
    pub chunks: Vec<Chunk>,
    pub grid_size: i64,
}

/// The sector that a character of a layout stands for, if it stands for one:
/// `.` is open floor, `X` a wall, and `a`, `b`, `c` are pillars as high as a
/// wall, each with a texture of its own.
pub open spec fn spec_sector_for(c: u8) -> Option<Sector> {
    if c == 0x2e {
        Some(Sector { floor_height: 0, texid: TextureID(0) })
    } else if c == 0x58 {
        Some(Sector { floor_height: 1, texid: TextureID(1) })
    } else if c == 0x61 {
        Some(Sector { floor_height: 1, texid: TextureID(2) })
    } else if c == 0x62 {
        Some(Sector { floor_height: 1, texid: TextureID(3) })
    } else if c == 0x63 {
        Some(Sector { floor_height: 1, texid: TextureID(4) })
    } else {
        None
    }
}

/// The sector that a character of a layout stands for, if it stands for one.
pub fn sector_for(c: u8) -> (s: Option<Sector>)
    ensures
        s == spec_sector_for(c),
{
    if c == 0x2e {
        Some(Sector { floor_height: 0, texid: TextureID(0) })
    } else if c == 0x58 {
        Some(Sector { floor_height: 1, texid: TextureID(1) })
    } else if c == 0x61 {
        Some(Sector { floor_height: 1, texid: TextureID(2) })
    } else if c == 0x62 {
        Some(Sector { floor_height: 1, texid: TextureID(3) })
    } else if c == 0x63 {
        Some(Sector { floor_height: 1, texid: TextureID(4) })
    } else {
        None
    }
}

/// Where the next sector of a layout goes once its first `n` characters have
/// been read: the column, and the row. Reading starts in column 0 of the top
/// row, row 7. A sector moves the place one column on, a line feed moves it
/// to column 0 of the row below, and any other character leaves it alone.
pub open spec fn layout_cursor(layout: Seq<u8>, n: nat) -> (int, int)
    decreases n,
{
    if n == 0 {
        (0, 7)
    } else {
        let (x, y) = layout_cursor(layout, (n - 1) as nat);
        let c = layout[n - 1];
        if c == 0x0a {
            (0, y - 1)
        } else if spec_sector_for(c) is Some {
            (x + 1, y)
        } else {
            (x, y)
        }
    }
}

/// The sector in column `x` of row `y` once the first `n` characters of a
/// layout have been read: the one that was last put there, or the default
/// sector where none was.
pub open spec fn layout_cell(layout: Seq<u8>, n: nat, x: int, y: int) -> Sector
    decreases n,
{
    if n == 0 {
        Sector { floor_height: 0, texid: TextureID(0) }
    } else {
        let c = layout[n - 1];
        if spec_sector_for(c) is Some && layout_cursor(layout, (n - 1) as nat) == (x, y) {
            spec_sector_for(c)->0
        } else {
            layout_cell(layout, (n - 1) as nat, x, y)
        }
    }
}

/// The place is never left of column 0.
pub proof fn lemma_cursor_column(layout: Seq<u8>, n: nat)
    ensures
        layout_cursor(layout, n).0 >= 0,
    decreases n,
{
    if n > 0 {
        lemma_cursor_column(layout, (n - 1) as nat);
    }
}

/// Reading on never brings the place back: after more characters it is in
/// the same row no further left, or in a row below, and past a sector it is
/// no longer where that sector went.
pub proof fn lemma_cursor_moves_on(layout: Seq<u8>, i: nat, j: nat)
    requires
        i <= j <= layout.len(),
    ensures
        layout_cursor(layout, j).1 <= layout_cursor(layout, i).1,
        layout_cursor(layout, j).1 == layout_cursor(layout, i).1 ==> layout_cursor(layout, j).0
            >= layout_cursor(layout, i).0,
        i < j && spec_sector_for(layout[i as int]) is Some ==> layout_cursor(layout, j)
            != layout_cursor(layout, i),
    decreases j,
{
    if i < j {
        lemma_cursor_moves_on(layout, i, (j - 1) as nat);
        lemma_cursor_column(layout, (j - 1) as nat);
        lemma_cursor_column(layout, i);
    }
}

/// A sector that a layout puts into a cell stays there: no later character
/// puts another in its place.
pub proof fn lemma_cell_put(layout: Seq<u8>, i: nat, n: nat)
    requires
        i < n <= layout.len(),
        spec_sector_for(layout[i as int]) is Some,
    ensures
        layout_cell(
            layout,
            n,
            layout_cursor(layout, i).0,
            layout_cursor(layout, i).1,
        ) == spec_sector_for(layout[i as int])->0,
    decreases n,
{
    if n > i + 1 {
        lemma_cell_put(layout, i, (n - 1) as nat);
        lemma_cursor_moves_on(layout, i, (n - 1) as nat);
    }
}

/// A cell into which a layout puts nothing holds the default sector.
pub proof fn lemma_cell_left(layout: Seq<u8>, n: nat, x: int, y: int)
    requires
        n <= layout.len(),
        forall|i: nat|
            i < n && spec_sector_for(#[trigger] layout[i as int]) is Some ==> layout_cursor(
                layout,
                i,
            ) != (x, y),
    ensures
        layout_cell(layout, n, x, y) == (Sector { floor_height: 0, texid: TextureID(0) }),
    decreases n,
{
    if n > 0 {
        lemma_cell_left(layout, (n - 1) as nat, x, y);
        let c = layout[n - 1];
        if spec_sector_for(c) is Some {
            assert(layout_cursor(layout, (n - 1) as nat) != (x, y));
        }
    }
}

/// The layout is made of full rows: eight sectors to a row, and one line
/// feed between a row and the next.
pub open spec fn full_rows(layout: Seq<u8>) -> bool {
    forall|i: int|
        0 <= i < layout.len() ==> if i % 9 == 8 {
            #[trigger] layout[i] == 0x0a
        } else {
            spec_sector_for(layout[i]) is Some
        }
}

/// In a layout of full rows the place moves as on a page: after `n`
/// characters it is in column `n % 9` of row `7 - n / 9`.
pub proof fn lemma_full_rows_cursor(layout: Seq<u8>, n: nat)
    requires
        full_rows(layout),
        n <= layout.len(),
    ensures
        layout_cursor(layout, n) == ((n % 9) as int, 7 - n / 9),
    decreases n,
{
    if n > 0 {
        lemma_full_rows_cursor(layout, (n - 1) as nat);
        assert(layout[n - 1] == 0x0a || spec_sector_for(layout[n - 1]) is Some);
    }
}

/// In a layout of full rows that fill the chunk, the sector in column `x`
/// of row `y` is the one that the character number `x` of the line number
/// `7 - y` stands for.
pub proof fn lemma_full_rows_cell(layout: Seq<u8>, x: int, y: int)
    requires
        full_rows(layout),
        layout.len() == 71,
        0 <= x < 8,
        0 <= y < 8,
    ensures
        spec_sector_for(layout[(7 - y) * 9 + x]) is Some,
        layout_cell(layout, layout.len(), x, y) == spec_sector_for(layout[(7 - y) * 9 + x])->0,
{
    let i = ((7 - y) * 9 + x) as nat;
    assert(i % 9 == x && i / 9 == 7 - y) by {
        lemma_fundamental_div_mod_converse(i as int, 9, 7 - y, x);
    }
    assert(layout[i as int] == 0x0a || spec_sector_for(layout[i as int]) is Some);
    lemma_full_rows_cursor(layout, i);
    lemma_cell_put(layout, i, layout.len());
}

/// The sector in column `x` of row `y` of the built-in level: a wall all
/// round, three pillars, and open floor.
pub open spec fn spec_debug_sector(x: int, y: int) -> Sector {
    if x == 0 || x == 7 || y == 0 || y == 7 {
        Sector { floor_height: 1, texid: TextureID(1) }
    } else if x == 3 && y == 4 {
        Sector { floor_height: 1, texid: TextureID(2) }
    } else if x == 5 && y == 3 {
        Sector { floor_height: 1, texid: TextureID(3) }
    } else if x == 2 && y == 2 {
        Sector { floor_height: 1, texid: TextureID(4) }
    } else {
        Sector { floor_height: 0, texid: TextureID(0) }
    }
}

/// What the layout of the built-in level describes.
pub proof fn lemma_debug_map(x: int, y: int)
    requires
        0 <= x < 8,
        0 <= y < 8,
    ensures
        layout_cell(DEBUG_MAP.spec_bytes(), DEBUG_MAP.spec_bytes().len(), x, y)
            == spec_debug_sector(x, y),
{
    reveal_strlit(
        "XXXXXXXX\nX......X\nX......X\nX..a...X\nX....b.X\nX.c....X\nX......X\nXXXXXXXX",
    );
    is_ascii_spec_bytes(DEBUG_MAP);
    let layout = DEBUG_MAP.spec_bytes();
    assert(layout.len() == 71);
    assert(full_rows(layout));
    lemma_full_rows_cell(layout, x, y);
    let i = (7 - y) * 9 + x;
    assert(spec_sector_for(layout[i])->0 == spec_debug_sector(x, y)) by {
        assert(0 <= i < 71);
        assert(layout[i] == DEBUG_MAP@[i] as u8);
    }
}

impl Chunk {
    /// The sector in column `x` of row `y`.
    pub open spec fn at(self, x: int, y: int) -> Sector {
        self.sectors[y][x]
    }

    /// The chunk that a layout describes. A sector that the layout puts
    /// outside the chunk, in a row that is too long or below the last row,
    /// is left out, and so is every character that stands for no sector.
    pub fn from_layout(layout: &[u8]) -> (chunk: Chunk)
        ensures
            forall|x: int, y: int|
                0 <= x < 8 && 0 <= y < 8 ==> #[trigger] chunk.at(x, y) == layout_cell(
                    layout@,
                    layout@.len(),
                    x,
                    y,
                ),
    {
        let floor = Sector { floor_height: 0, texid: TextureID(0) };
        let mut sectors: [[Sector; 8]; 8] = [[floor; 8]; 8];
        let mut x: usize = 0;
        // Rows that are still to come, this one counted: the row is `rows - 1`.
        let mut rows: usize = 8;
        let mut i: usize = 0;
        while i < layout.len()
            invariant
                i <= layout.len(),
                rows <= 8,
                x <= i,
                layout_cursor(layout@, i as nat).0 == x,
                layout_cursor(layout@, i as nat).1 >= 0 ==> rows == layout_cursor(
                    layout@,
                    i as nat,
                ).1 + 1,
                layout_cursor(layout@, i as nat).1 < 0 ==> rows == 0,
                forall|cx: int, cy: int|
                    0 <= cx < 8 && 0 <= cy < 8 ==> #[trigger] sectors[cy][cx] == layout_cell(
                        layout@,
                        i as nat,
                        cx,
                        cy,
                    ),
            decreases layout.len() - i,
        {
            let c: u8 = layout[i];
            if c == 0x0a {
                x = 0;
                if rows > 0 {
                    rows = rows - 1;
                }
            } else {
                match sector_for(c) {
                    Some(sector) => {
                        if x < 8 && rows > 0 {
                            let ghost before = sectors;
                            let mut row: [Sector; 8] = sectors[rows - 1];
                            row[x] = sector;
                            sectors[rows - 1] = row;
                            assert forall|cx: int, cy: int| 0 <= cx < 8 && 0 <= cy < 8 implies (
                            #[trigger] sectors[cy][cx]) == layout_cell(
                                layout@,
                                (i + 1) as nat,
                                cx,
                                cy,
                            ) by {
                                assert(before[cy][cx] == layout_cell(layout@, i as nat, cx, cy));
                            }
                        }
                        x = x + 1;
                    },
                    None => {},
                }
            }
            i = i + 1;
        }
        Chunk { sectors }
    }
}

/// A point of the plane from which a cell is looked up: a crossing, moved
/// half a cell into the cell that the ray enters there.
pub open spec fn spec_spot(hit: RayHit, g: int) -> (int, int) {
    let half = g / 2;
    let way = hit.normal.spec_heading();
    (hit.poi.x + way.x * half, hit.poi.y + way.y * half)
}

/// The number of the column, or of the row, that holds the coordinate `p` on
/// a grid of cell size `g`.
pub open spec fn cell_index(p: int, g: int) -> int {
    p / g
}

impl LevelMap {
    /// The cell size admits a cast, and half a cell is at least one step.
    pub open spec fn wf(&self) -> bool {
        2 <= self.grid_size <= GRID_LIMIT
    }

    /// Whether the cell size admits a cast, and half a cell is at least one
    /// step.
    pub fn is_wf(&self) -> (b: bool)
        ensures
            b == self.wf(),
    {
        2 <= self.grid_size && self.grid_size <= GRID_LIMIT
    }

    /// Which chunk holds the cell in column `cx` of row `cy` of the grid,
    /// and where in that chunk the cell is: its column and its row. The
    /// first chunk covers the columns and rows from 0 up to `CHUNK_SIZE`.
    /// No other cell is in a chunk.
    pub open spec fn spec_locate(&self, cx: int, cy: int) -> Option<(int, int, int)> {
        if self.chunks.len() > 0 && 0 <= cx < CHUNK_SIZE && 0 <= cy < CHUNK_SIZE {
            Some((0, cx, cy))
        } else {
            None
        }
    }

    /// The sector in column `cx` of row `cy` of the grid, if a chunk holds
    /// that cell.
    pub open spec fn cell(&self, cx: int, cy: int) -> Option<Sector> {
        match self.spec_locate(cx, cy) {
            Some((chunk, x, y)) => Some(self.chunks[chunk].at(x, y)),
            None => None,
        }
    }

    /// The sector of the cell that holds the point `poi`.
    pub open spec fn spec_sector_to_draw(&self, poi: Vec2f) -> Option<Sector> {
        self.cell(
            cell_index(poi.x as int, self.grid_size as int),
            cell_index(poi.y as int, self.grid_size as int),
        )
    }

    /// The sector that a ray enters at the crossing `hit`.
    pub open spec fn spec_resolve(&self, hit: RayHit) -> Option<Sector> {
        let spot = spec_spot(hit, self.grid_size as int);
        self.cell(
            cell_index(spot.0, self.grid_size as int),
            cell_index(spot.1, self.grid_size as int),
        )
    }

    /// The built-in level, with cells of three world units.
    pub fn new() -> (map: LevelMap)
        ensures
            map.wf(),
            map.grid_size == DEBUG_GRID_SIZE,
            map.chunks.len() == 1,
            forall|x: int, y: int|
                0 <= x < 8 && 0 <= y < 8 ==> #[trigger] map.cell(x, y) == Some(
                    spec_debug_sector(x, y),
                ),
    {
        let chunk = Chunk::from_layout(DEBUG_MAP.as_bytes());
        let mut chunks: Vec<Chunk> = Vec::new();
        chunks.push(chunk);
        let map = LevelMap { chunks, grid_size: DEBUG_GRID_SIZE };
        assert forall|x: int, y: int| 0 <= x < 8 && 0 <= y < 8 implies #[trigger] map.cell(x, y)
            == Some(spec_debug_sector(x, y)) by {
            lemma_debug_map(x, y);
            assert(map.chunks[0].at(x, y) == chunk.at(x, y));
        }
        map
    }

    /// Which chunk holds the cell in column `cx` of row `cy` of the grid,
    /// and where in that chunk the cell is.
    pub fn locate(&self, cx: i128, cy: i128) -> (place: Option<(usize, usize, usize)>)
        ensures
            match place {
                Some((chunk, x, y)) => self.spec_locate(cx as int, cy as int) == Some(
                    (chunk as int, x as int, y as int),
                ),
                None => self.spec_locate(cx as int, cy as int) is None,
            },
    {
        if self.chunks.len() == 0 || cx < 0 || 8 <= cx || cy < 0 || 8 <= cy {
            None
        } else {
            Some((0, cx as usize, cy as usize))
        }
    }

    fn sector_at(&self, px: i128, py: i128) -> (sector: Option<Sector>)
        requires
            self.grid_size > 0,
        ensures
            sector == self.cell(
                cell_index(px as int, self.grid_size as int),
                cell_index(py as int, self.grid_size as int),
            ),
    {
        let cx: i128 = floor_div(px, self.grid_size as i128);
        let cy: i128 = floor_div(py, self.grid_size as i128);
        match self.locate(cx, cy) {
            Some((chunk, x, y)) => Some(self.chunks[chunk].sectors[y][x]),
            None => None,
        }
    }

    /// The sector of the cell that holds the point `poi`, or `None` where
    /// the point lies outside the level.
    pub fn sector_to_draw(&self, poi: Vec2f) -> (sector: Option<Sector>)
        requires
            self.grid_size > 0,
        ensures
            sector == self.spec_sector_to_draw(poi),
    {
        self.sector_at(poi.x as i128, poi.y as i128)
    }

    /// The sector that a ray enters at the crossing `hit`, or `None` where
    /// the ray leaves the level there. The crossing lies on a grid line,
    /// between two cells: the cell is looked up half a cell beyond it.
    pub fn resolve(&self, hit: &RayHit) -> (sector: Option<Sector>)
        requires
            self.grid_size > 0,
        ensures
            sector == self.spec_resolve(*hit),
    {
        let half: i128 = (self.grid_size / 2) as i128;
        let way = hit.normal.heading();
        assert(-half <= way.x * half <= half && -half <= way.y * half <= half) by (nonlinear_arith)
            requires
                -1 <= way.x <= 1,
                -1 <= way.y <= 1,
                0 <= half,
        ;
        let px: i128 = hit.poi.x as i128 + (way.x as i128) * half;
        let py: i128 = hit.poi.y as i128 + (way.y as i128) * half;
        self.sector_at(px, py)
    }
}

/// What a crossing resolves to depends on the level, on the point of the
/// crossing and on the side that is entered there, and on nothing else: two
/// crossings that agree in these resolve alike.
pub proof fn lemma_resolve_repeats(level: LevelMap, a: RayHit, b: RayHit)
    requires
        a.poi == b.poi,
        a.normal == b.normal,
    ensures
        level.spec_resolve(a) == level.spec_resolve(b),
{
}

/// Half a cell beyond the grid line number `k` lies the cell number `k`, and
/// half a cell before it the cell number `k - 1`.
pub proof fn lemma_half_cell(k: int, g: int)
    requires
        g >= 2,
    ensures
        (k * g + g / 2) / g == k,
        (k * g - g / 2) / g == k - 1,
{
    let half = g / 2;
    assert(1 <= half < g);
    lemma_fundamental_div_mod_converse(k * g + half, g, k, half);
    assert(k * g - half == (k - 1) * g + (g - half)) by (nonlinear_arith);
    lemma_fundamental_div_mod_converse(k * g - half, g, k - 1, g - half);
}

/// A crossing of a grid line resolves to the cell that the ray enters, not
/// the cell that it leaves. On the line `x = k * grid_size`, a ray heading
/// east enters column `k` and a ray heading west column `k - 1`; on the line
/// `y = k * grid_size`, a ray heading north enters row `k` and a ray heading
/// south row `k - 1`. The other coordinate picks the cell that holds it.
pub proof fn lemma_resolve_enters(level: LevelMap, hit: RayHit, k: int)
    requires
        level.wf(),
    ensures
        hit.normal == Cardinal::East && hit.poi.x == k * level.grid_size ==> level.spec_resolve(
            hit,
        ) == level.cell(k, cell_index(hit.poi.y as int, level.grid_size as int)),
        hit.normal == Cardinal::West && hit.poi.x == k * level.grid_size ==> level.spec_resolve(
            hit,
        ) == level.cell(k - 1, cell_index(hit.poi.y as int, level.grid_size as int)),
        hit.normal == Cardinal::North && hit.poi.y == k * level.grid_size ==> level.spec_resolve(
            hit,
        ) == level.cell(cell_index(hit.poi.x as int, level.grid_size as int), k),
        hit.normal == Cardinal::South && hit.poi.y == k * level.grid_size ==> level.spec_resolve(
            hit,
        ) == level.cell(cell_index(hit.poi.x as int, level.grid_size as int), k - 1),
{
    lemma_half_cell(k, level.grid_size as int);
    let half = level.grid_size / 2;
    assert(1 * half == half && -1 * half == -half && 0 * half == 0);
}

/// Crossing by crossing, a ray goes from column to column and from row to
/// row: its crossing number `n` with the lines of constant `x` leads into the
/// column `n + 1` columns from the one it started in, towards the side it
/// heads for, and its crossing number `n` with the lines of constant `y` into
/// the row `n + 1` rows from the one it started in.
pub proof fn lemma_crossing_enters_next(level: LevelMap, src: Vec2f, dir: Vec2f, n: nat)
    requires
        level.wf(),
        src.within(COORD_LIMIT as int),
        n <= 0x1_0000_0000,
    ensures
        dir.x != 0 ==> {
            let hit = spec_horizontal(src, dir, level.grid_size).after(n).hit();
            let column = cell_index(src.x as int, level.grid_size as int);
            level.spec_resolve(hit) == level.cell(
                if dir.x > 0 {
                    column + 1 + n
                } else {
                    column - 1 - n
                },
                cell_index(hit.poi.y as int, level.grid_size as int),
            )
        },
        dir.y != 0 ==> {
            let hit = spec_vertical(src, dir, level.grid_size).after(n).hit();
            let row = cell_index(src.y as int, level.grid_size as int);
            level.spec_resolve(hit) == level.cell(
                cell_index(hit.poi.x as int, level.grid_size as int),
                if dir.y > 0 {
                    row + 1 + n
                } else {
                    row - 1 - n
                },
            )
        },
{
    let g = level.grid_size;
    lemma_crossings_on_lines(src, dir, g, n);
    lemma_after_steps(spec_horizontal(src, dir, g), n);
    lemma_after_steps(spec_vertical(src, dir, g), n);
    if dir.x != 0 {
        let hit = spec_horizontal(src, dir, g).after(n).hit();
        let column = cell_index(src.x as int, g as int);
        let k = if dir.x > 0 {
            column + 1 + n
        } else {
            column - n
        };
        assert(hit.poi.x == k * g) by (nonlinear_arith)
            requires
                dir.x > 0 ==> hit.poi.x == (column + 1) * g + n * g,
                dir.x <= 0 ==> hit.poi.x == column * g - n * g,
                k == if dir.x > 0 {
                    column + 1 + n
                } else {
                    column - n
                },
        ;
        lemma_resolve_enters(level, hit, k);
    }
    if dir.y != 0 {
        let hit = spec_vertical(src, dir, g).after(n).hit();
        let row = cell_index(src.y as int, g as int);
        let k = if dir.y > 0 {
            row + 1 + n
        } else {
            row - n
        };
        assert(hit.poi.y == k * g) by (nonlinear_arith)
            requires
                dir.y > 0 ==> hit.poi.y == (row + 1) * g + n * g,
                dir.y <= 0 ==> hit.poi.y == row * g - n * g,
                k == if dir.y > 0 {
                    row + 1 + n
                } else {
                    row - n
                },
        ;
        lemma_resolve_enters(level, hit, k);
    }
}

} // verus!
