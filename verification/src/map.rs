//! The tile grid: its cells, the definitions of its custom tiles, its scene
//! attributes, and the spatial queries that the rest of the engine asks.

use std::collections::HashMap;
use vstd::prelude::*;

verus! {

broadcast use vstd::std_specs::hash::group_hash_axioms;

/// The side length of a tile in world units.
pub const TILE_SIZE: usize = 32;

/// What a cell of the grid holds.
#[derive(Clone, Copy, Debug, PartialEq, Eq, Structural)]
pub enum Tile {
    /// Nothing.
    Empty,
    /// The place where the player starts.
    Spawn,
    /// A tile defined in the map's legend under this symbol.
    Custom(char),
}

/// A position on the grid, in tiles: `x` counts columns, `y` counts rows.
#[derive(Clone, Copy, Debug, PartialEq, Eq, Structural)]
pub struct TilePos {
    pub x: usize,
    pub y: usize,
}

/// The definition of a custom tile.
#[derive(Debug)]
pub struct CustomTile {
    /// Whether the tile blocks the player.
    pub collidable: bool,
    /// Where the tile's texture is found, relative to the map.
    pub tex_path: String,
    /// The tile fills only half of its cell along the x axis.
    pub half_width: bool,
    /// The tile fills only half of its cell along the y axis.
    pub half_height: bool,
}

/// A `CustomTile` as a mathematical value.
pub struct TileDef {
    pub collidable: bool,
    pub tex_path: Seq<char>,
    pub half_width: bool,
    pub half_height: bool,
}

impl TileDef {
    /// The definition is one that a legend line can give: the texture's
    /// name holds neither comma nor line feed, and where it is the name of a
    /// flag, that flag is set.
    pub open spec fn declarable(self) -> bool {
        &&& !self.tex_path.contains(',')
        &&& !self.tex_path.contains('\n')
        &&& self.tex_path == "collide"@ ==> self.collidable
        &&& self.tex_path == "half_width"@ ==> self.half_width
        &&& self.tex_path == "half_height"@ ==> self.half_height
    }
}

impl View for CustomTile {
    type V = TileDef;

    open spec fn view(&self) -> TileDef {
        TileDef {
            collidable: self.collidable,
            tex_path: self.tex_path@,
            half_width: self.half_width,
            half_height: self.half_height,
        }
    }
}

/// A colour.
#[derive(Clone, Copy, Debug, PartialEq, Eq, Structural)]
pub struct Rgb {
    pub r: u8,
    pub g: u8,
    pub b: u8,
}

/// A scene-wide attribute of a map.
#[derive(Clone, Copy, Debug, PartialEq, Eq, Structural)]
pub enum Meta {
    /// Walls fade toward `color` with distance, and are fully faded `dof`
    /// tiles away.
    Fog { dof: u8, color: Rgb },
}

/// A map as a mathematical value.
pub struct TileMapView {
    /// The number of columns.
    pub width: nat,
    /// The number of rows.
    pub height: nat,
    /// The cells, row by row.
    pub cells: Seq<Tile>,
    /// The custom tiles' definitions by symbol.
    pub legend: Map<char, TileDef>,
    /// The scene attributes, in the order in which they were declared.
    pub meta: Seq<Meta>,
}

impl TileMapView {
    /// The map before anything is loaded into it.
    pub open spec fn empty() -> TileMapView {
        TileMapView {
            width: 0,
            height: 0,
            cells: Seq::empty(),
            legend: Map::empty(),
            meta: Seq::empty(),
        }
    }

    /// The map is one that a source can describe. The grid is complete, and
    /// has either no cells or rows and columns. A map without cells has no
    /// legend. Every custom cell is defined, and its symbol is neither the
    /// space nor the star. No symbol of the legend is the line feed, and
    /// every definition is one that a legend line can give. No scene attribute
    /// is listed twice.
    pub open spec fn wf(self) -> bool {
        &&& self.cells.len() == self.width * self.height
        &&& (self.width == 0) == (self.height == 0)
        &&& self.height == 0 ==> forall|id: char| !self.legend.contains_key(id)
        &&& forall|i: int|
            0 <= i < self.cells.len() ==> (#[trigger] self.cells[i] matches Tile::Custom(id)
                ==> self.legend.contains_key(id) && id != ' ' && id != '*')
        &&& forall|id: char| #[trigger]
            self.legend.contains_key(id) ==> id != '\n' && self.legend[id].declarable()
        &&& self.meta.no_duplicates()
    }

    /// The index of the cell at `pos`, rows laid end to end.
    pub open spec fn index_of(self, pos: TilePos) -> int {
        pos.y * self.width + pos.x
    }

    /// The position of the cell with index `idx`.
    pub open spec fn pos_of(self, idx: int) -> TilePos {
        TilePos { x: (idx % self.width as int) as usize, y: (idx / self.width as int) as usize }
    }

    /// The cell with index `idx`, if the grid has one.
    pub open spec fn tile_at(self, idx: int) -> Option<Tile> {
        if 0 <= idx < self.cells.len() {
            Some(self.cells[idx])
        } else {
            None
        }
    }

    /// The definition of the custom tile `id`, if the legend has one.
    pub open spec fn definition(self, id: char) -> Option<TileDef> {
        if self.legend.contains_key(id) {
            Some(self.legend[id])
        } else {
            None
        }
    }

    /// `idx` is the first cell that holds a spawn.
    pub open spec fn is_first_spawn(self, idx: int) -> bool {
        &&& 0 <= idx < self.cells.len()
        &&& self.cells[idx] == Tile::Spawn
        &&& forall|j: int| 0 <= j < idx ==> self.cells[j] != Tile::Spawn
    }

    /// The position of the first spawn cell.
    pub open spec fn spawn(self) -> Option<TilePos> {
        if exists|idx: int| self.is_first_spawn(idx) {
            Some(self.pos_of(choose|idx: int| self.is_first_spawn(idx)))
        } else {
            None
        }
    }

    /// The custom tile at `pos` that stops what moves there. A ray stops at
    /// every custom tile; the player only at a collidable one.
    pub open spec fn colliding(self, pos: TilePos, is_player: bool) -> Option<char> {
        match self.tile_at(self.index_of(pos)) {
            Some(Tile::Custom(id)) => if self.legend.contains_key(id) && (!is_player
                || self.legend[id].collidable) {
                Some(id)
            } else {
                None
            },
            _ => None,
        }
    }

    /// The cell with index `idx` holds a custom tile that blocks the player.
    pub open spec fn is_wall(self, idx: int) -> bool {
        match self.tile_at(idx) {
            Some(Tile::Custom(id)) => self.legend.contains_key(id) && self.legend[id].collidable,
            _ => false,
        }
    }

    /// The fog of the scene: the first one declared.
    pub open spec fn fog(self) -> Option<(u8, Rgb)> {
        if self.meta.len() > 0 {
            match self.meta[0] {
                Meta::Fog { dof, color } => Some((dof, color)),
            }
        } else {
            None
        }
    }
}

/// A tile position within the grid's width comes back unchanged from its
/// index, and so does the index from that position: the way from a position
/// to its index and back changes nothing when it is gone a second time.
///
/// For a point at the whole world coordinates `(x, y)` this says that the
/// corner of the tile that holds it, found by way of the tile's index, is
/// the point rounded down to a multiple of the tile size along each axis,
/// and that the corner lies in the same tile.
pub proof fn lemma_point_snaps_to_tile(map: TileMapView, x: nat, y: nat)
    requires
        x / (TILE_SIZE as nat) < map.width,
        x <= usize::MAX,
        y <= usize::MAX,
    ensures
        ({
            let pos = TilePos {
                x: (x / (TILE_SIZE as nat)) as usize,
                y: (y / (TILE_SIZE as nat)) as usize,
            };
            let back = map.pos_of(map.index_of(pos));
            &&& back == pos
            &&& map.index_of(back) == map.index_of(pos)
            &&& back.x * TILE_SIZE == x - x % (TILE_SIZE as nat)
            &&& back.y * TILE_SIZE == y - y % (TILE_SIZE as nat)
            &&& (back.x * TILE_SIZE) as nat / (TILE_SIZE as nat) == back.x
            &&& (back.y * TILE_SIZE) as nat / (TILE_SIZE as nat) == back.y
        }),
{
    let pos = TilePos {
        x: (x / (TILE_SIZE as nat)) as usize,
        y: (y / (TILE_SIZE as nat)) as usize,
    };
    lemma_index_round_trip(map, pos);
}

/// A tile position within the grid's width comes back unchanged from its
/// index.
pub proof fn lemma_index_round_trip(map: TileMapView, pos: TilePos)
    requires
        pos.x < map.width,
    ensures
        map.pos_of(map.index_of(pos)) == pos,
{
    vstd::arithmetic::div_mod::lemma_fundamental_div_mod_converse(
        map.index_of(pos),
        map.width as int,
        pos.y as int,
        pos.x as int,
    );
}

/// A position within the grid has a cell, and a position below the last row
/// has none. A position right of the last column has the cell that its
/// index names: the one as many columns into the rows that follow.
pub proof fn lemma_cells_of_positions(map: TileMapView, pos: TilePos)
    requires
        map.wf(),
    ensures
        pos.x < map.width && pos.y < map.height ==> map.tile_at(map.index_of(pos)) == Some(
            map.cells[pos.y * map.width + pos.x],
        ),
        pos.y >= map.height ==> map.tile_at(map.index_of(pos)) is None,
{
    let w = map.width as int;
    let h = map.height as int;
    let x = pos.x as int;
    let y = pos.y as int;
    if x < w && y < h {
        assert(0 <= y * w + x < w * h) by (nonlinear_arith)
            requires
                0 <= x < w,
                0 <= y < h,
        ;
    }
    if y >= h {
        assert(y * w + x >= w * h) by (nonlinear_arith)
            requires
                0 <= x,
                0 <= w,
                y >= h,
        ;
    }
}

/// In a well-formed map a ray stops at every custom tile, and at nothing
/// else; and what stops the player stops a ray too.
pub proof fn lemma_rays_stop_at_custom_tiles(map: TileMapView, pos: TilePos)
    requires
        map.wf(),
    ensures
        map.colliding(pos, false) == (match map.tile_at(map.index_of(pos)) {
            Some(Tile::Custom(id)) => Some(id),
            _ => None,
        }),
        map.colliding(pos, true) is Some ==> map.colliding(pos, false) == map.colliding(pos, true),
{
    let idx = map.index_of(pos);
    if 0 <= idx < map.cells.len() {
        assert(map.cells[idx] is Custom ==> map.legend.contains_key(map.cells[idx]->Custom_0));
    }
}

/// `order` lists the symbols of `legend`, each once.
pub open spec fn lists(order: Seq<char>, legend: Map<char, TileDef>) -> bool {
    &&& order.no_duplicates()
    &&& forall|id: char|
        #![trigger legend.contains_key(id)]
        #![trigger order.contains(id)]
        legend.contains_key(id) <==> order.contains(id)
}

/// The legend that a table of definitions keyed by code point stands for.
pub open spec fn legend_of(table: Map<u32, CustomTile>) -> Map<char, TileDef> {
    Map::new(|id: char| table.contains_key(id as u32), |id: char| table[id as u32]@)
}

/// Two symbols with the same code point are the same symbol.
pub proof fn lemma_code_point_names_symbol(a: char, b: char)
    ensures
        a as u32 == b as u32 <==> a == b,
{
}

/// Adding a definition to the table adds it to the legend.
pub proof fn lemma_legend_insert(table: Map<u32, CustomTile>, id: char, def: CustomTile)
    ensures
        legend_of(table.insert(id as u32, def)) == legend_of(table).insert(id, def@),
{
    let grown = legend_of(table.insert(id as u32, def));
    let expected = legend_of(table).insert(id, def@);
    assert forall|other: char| #[trigger]
        grown.contains_key(other) == expected.contains_key(other) && (grown.contains_key(other)
            ==> grown[other] == expected[other]) by {
        lemma_code_point_names_symbol(other, id);
    }
    assert(grown =~= expected);
}

/// A tile map: a grid of cells with the legend of its custom tiles and its
/// scene attributes. It does not change once it is built.
pub struct TileMap {
    width: usize,
    height: usize,
    main_tiles: Vec<Tile>,
    custom_tiles: HashMap<u32, CustomTile>,
    symbols: Vec<char>,
    meta: Vec<Meta>,
}

impl View for TileMap {
    type V = TileMapView;

    closed spec fn view(&self) -> TileMapView {
        TileMapView {
            width: self.width as nat,
            height: self.height as nat,
            cells: self.main_tiles@,
            legend: legend_of(self.custom_tiles@),
            meta: self.meta@,
        }
    }
}

impl TileMap {
    /// The symbols of the legend, in the order in which the source declared
    /// them first.
    pub closed spec fn order(&self) -> Seq<char> {
        self.symbols@
    }

    /// Every map is well-formed, and knows the symbols of its legend.
    #[verifier::type_invariant]
    pub open spec fn inv(self) -> bool {
        self@.wf() && lists(self.order(), self@.legend)
    }

    /// The map before anything is loaded into it: no cells, no legend, no
    /// scene attributes.
    pub fn new() -> (map: TileMap)
        ensures
            map@ == TileMapView::empty(),
    {
        let map = TileMap {
            width: 0,
            height: 0,
            main_tiles: Vec::new(),
            custom_tiles: HashMap::new(),
            symbols: Vec::new(),
            meta: Vec::new(),
        };
        assert(map@.legend =~= Map::empty());
        map
    }

    /// Puts a map together from its parts.
    pub(crate) fn assemble(
        width: usize,
        height: usize,
        main_tiles: Vec<Tile>,
        custom_tiles: HashMap<u32, CustomTile>,
        symbols: Vec<char>,
        meta: Vec<Meta>,
    ) -> (map: TileMap)
        requires
            (TileMapView {
                width: width as nat,
                height: height as nat,
                cells: main_tiles@,
                legend: legend_of(custom_tiles@),
                meta: meta@,
            }).wf(),
            lists(symbols@, legend_of(custom_tiles@)),
        ensures
            map@ == (TileMapView {
                width: width as nat,
                height: height as nat,
                cells: main_tiles@,
                legend: legend_of(custom_tiles@),
                meta: meta@,
            }),
            map.order() == symbols@,
    {
        TileMap { width, height, main_tiles, custom_tiles, symbols, meta }
    }

    /// Takes a map apart.
    pub(crate) fn into_parts(self) -> (parts: (
        usize,
        usize,
        Vec<Tile>,
        HashMap<u32, CustomTile>,
        Vec<char>,
        Vec<Meta>,
    ))
        ensures
            self@ == (TileMapView {
                width: parts.0 as nat,
                height: parts.1 as nat,
                cells: parts.2@,
                legend: legend_of(parts.3@),
                meta: parts.5@,
            }),
            self@.wf(),
            self.order() == parts.4@,
            lists(parts.4@, legend_of(parts.3@)),
    {
        proof {
            use_type_invariant(&self);
        }
        (self.width, self.height, self.main_tiles, self.custom_tiles, self.symbols, self.meta)
    }

    /// The number of columns.
    pub fn width(&self) -> (width: usize)
        ensures
            width == self@.width,
    {
        self.width
    }

    /// The number of rows.
    pub fn height(&self) -> (height: usize)
        ensures
            height == self@.height,
    {
        self.height
    }

    /// The cells, row by row.
    pub fn tiles(&self) -> (tiles: &Vec<Tile>)
        ensures
            tiles@ == self@.cells,
    {
        &self.main_tiles
    }

    /// The symbols of the legend, each once, in the order in which the
    /// source declared them first.
    pub fn symbols(&self) -> (symbols: &Vec<char>)
        ensures
            symbols@ == self.order(),
            lists(symbols@, self@.legend),
    {
        proof {
            use_type_invariant(self);
        }
        &self.symbols
    }

    /// The scene attributes, in the order in which they were declared.
    pub fn meta(&self) -> (meta: &Vec<Meta>)
        ensures
            meta@ == self@.meta,
    {
        &self.meta
    }

    /// The cell with index `idx`, if the grid has one.
    pub fn tile_at(&self, idx: usize) -> (tile: Option<Tile>)
        ensures
            tile == self@.tile_at(idx as int),
    {
        if idx < self.main_tiles.len() {
            Some(self.main_tiles[idx])
        } else {
            None
        }
    }

    /// The definition of the custom tile `id`, if the legend has one.
    pub fn definition(&self, id: char) -> (def: Option<&CustomTile>)
        ensures
            match def {
                Some(d) => self@.definition(id) == Some(d@),
                None => self@.definition(id) is None,
            },
    {
        let key = id as u32;
        self.custom_tiles.get(&key)
    }

    /// Where the texture of the custom tile `id` is found, relative to the
    /// map.
    pub fn tex_path(&self, id: char) -> (path: &str)
        requires
            self@.legend.contains_key(id),
        ensures
            path@ == self@.legend[id].tex_path,
    {
        let key = id as u32;
        match self.custom_tiles.get(&key) {
            Some(def) => def.tex_path.as_str(),
            None => "",
        }
    }

    /// The position of the cell with index `idx`.
    pub fn idx_to_vec(&self, idx: usize) -> (pos: TilePos)
        requires
            self@.width > 0,
        ensures
            pos == self@.pos_of(idx as int),
            pos.x == idx as int % self@.width as int,
            pos.y == idx as int / self@.width as int,
    {
        TilePos { x: idx % self.width, y: idx / self.width }
    }

    /// The index of the cell at `pos`, rows laid end to end: `y * width + x`.
    /// Where that number is too large for the machine, the result is
    /// `usize::MAX`, which is the index of no cell.
    pub fn vec_to_idx(&self, pos: TilePos) -> (idx: usize)
        ensures
            idx == if self@.index_of(pos) <= usize::MAX {
                self@.index_of(pos)
            } else {
                usize::MAX as int
            },
            self@.tile_at(idx as int) == self@.tile_at(self@.index_of(pos)),
    {
        assert(self.main_tiles.len() <= usize::MAX);
        match pos.y.checked_mul(self.width) {
            Some(row) => match row.checked_add(pos.x) {
                Some(idx) => idx,
                None => usize::MAX,
            },
            None => usize::MAX,
        }
    }

    /// The position of the first spawn cell, if the grid has one.
    pub fn get_spawn(&self) -> (spawn: Option<TilePos>)
        ensures
            spawn == self@.spawn(),
    {
        let mut idx: usize = 0;
        while idx < self.main_tiles.len()
            invariant
                idx <= self.main_tiles@.len(),
                forall|j: int| 0 <= j < idx ==> self.main_tiles@[j] != Tile::Spawn,
            decreases self.main_tiles@.len() - idx,
        {
            if self.main_tiles[idx] == Tile::Spawn {
                proof {
                    use_type_invariant(self);
                    assert(self@.is_first_spawn(idx as int));
                    let chosen = choose|i: int| self@.is_first_spawn(i);
                    assert(chosen == idx);
                    assert(self@.width > 0) by (nonlinear_arith)
                        requires
                            self@.cells.len() == self@.width * self@.height,
                            self@.cells.len() > 0,
                    ;
                }
                return Some(self.idx_to_vec(idx));
            }
            idx += 1;
        }
        None
    }

    /// The custom tile at `pos` that stops what moves there, if any. With
    /// `is_player` set only a collidable tile counts; without it, as for a
    /// ray, every custom tile does.
    pub fn colliding(&self, pos: TilePos, is_player: bool) -> (hit: Option<char>)
        ensures
            hit == self@.colliding(pos, is_player),
    {
        match self.tile_at(self.vec_to_idx(pos)) {
            Some(Tile::Custom(id)) => match self.definition(id) {
                Some(def) => if !is_player || def.collidable {
                    Some(id)
                } else {
                    None
                },
                None => None,
            },
            _ => None,
        }
    }

    /// Whether the cell with index `idx` holds a custom tile that blocks the
    /// player.
    pub fn is_wall(&self, idx: usize) -> (wall: bool)
        ensures
            wall == self@.is_wall(idx as int),
    {
        match self.tile_at(idx) {
            Some(Tile::Custom(id)) => match self.definition(id) {
                Some(def) => def.collidable,
                None => false,
            },
            _ => false,
        }
    }

    /// The fog of the scene, if one was declared: its depth in tiles and its
    /// colour.
    pub fn fog(&self) -> (fog: Option<(u8, Rgb)>)
        ensures
            fog == self@.fog(),
    {
        if self.meta.len() > 0 {
            match self.meta[0] {
                Meta::Fog { dof, color } => Some((dof, color)),
            }
        } else {
            None
        }
    }
}

} // verus!
