//! The text format of a map, and the loader that reads it.
//!
//! A map source is a list of lines, grouped into sections. A section starts
//! with a header line, `!!!!META` or `!!!!MAIN`, and is made of paragraphs:
//! runs of non-empty lines that an empty line, or the end of the source,
//! closes.
//!
//! A `!!!!META` section is one paragraph. Each of its lines declares a scene
//! attribute: a directive, then parameters of the form `key=value`, all
//! separated by commas. The one directive is `fog`, with the parameters `dof`
//! (a number up to 255, by default 4) and `color` (`#rrggbb`, by default
//! black).
//!
//! A `!!!!MAIN` section is two paragraphs. The first is the legend: each line
//! starts with the symbol of a custom tile, followed by comma-separated
//! fields, the first of which names the tile's texture; a field `collide`,
//! `half_width` or `half_height` sets the flag of that name. The second is
//! the grid, one line per row: a space is an empty cell, `*` the spawn, and
//! any other character the custom tile that the legend defines for it. The
//! grid has as many rows as it has lines, and its cells are dealt out evenly
//! among them; a grid whose cells cannot be dealt out so is refused.
//!
//! A later meta section adds to what an earlier one declared; a later main
//! section replaces the grid and the legend of an earlier one.
//!
//! Errors name the line they were found on, counting from zero.

use crate::map::{
    legend_of, lemma_code_point_names_symbol, lemma_legend_insert, lists, CustomTile, Meta, Rgb,
    Tile, TileDef, TileMap, TileMapView,
};
use crate::text::{
    copy_range, cut, fields, holds, lemma_fields_are_clean, lemma_lines_are_clean, lines,
    parse_u8, same_text, split_fields, split_lines, split_once, to_chars, to_text, u8_value,
    views,
};
use std::collections::HashMap;
use vstd::prelude::*;

verus! {

broadcast use vstd::std_specs::hash::group_hash_axioms;

/// Why a map source was refused.
#[derive(Clone, Copy, Debug, PartialEq, Eq, Structural)]
pub enum LoadError {
    /// A section header was expected on this line, and it is none.
    UnrecognizedDirective { line: usize },
    /// A parameter of this attribute line is not of the form `key=value`.
    MalformedMeta { line: usize },
    /// This attribute line starts with a directive that is not known.
    UnrecognizedMeta { line: usize },
    /// The fog depth on this line is no number up to 255.
    InvalidDepth { line: usize },
    /// The fog colour on this line is not of the form `#rrggbb`.
    InvalidColor { line: usize },
    /// This grid line holds a symbol that the legend does not define.
    InvalidTile { line: usize, symbol: char },
    /// A main section has no grid.
    EmptyGrid,
    /// The cells of a grid do not fill its rows evenly.
    UnevenGrid,
    /// The map has no spawn.
    MissingSpawn,
}

/// The colour that `s` writes as `#rrggbb`, two hexadecimal digits each for
/// red, green and blue.
pub open spec fn hex_color(s: Seq<char>) -> Option<Rgb> {
    if s.len() == 7 && s[0] == '#' {
        match (
            u8_value(s.subrange(1, 3), 16),
            u8_value(s.subrange(3, 5), 16),
            u8_value(s.subrange(5, 7), 16),
        ) {
            (Some(r), Some(g), Some(b)) => Some(Rgb { r, g, b }),
            _ => None,
        }
    } else {
        None
    }
}

/// Every one of `params` has the form `key=value`.
pub open spec fn well_formed(params: Seq<Seq<char>>) -> bool {
    forall|i: int| 0 <= i < params.len() ==> cut(#[trigger] params[i], '=') is Some
}

/// The value that `params` give to `key`: that of the last parameter with
/// this key.
pub open spec fn param(params: Seq<Seq<char>>, key: Seq<char>) -> Option<Seq<char>>
    decreases params.len(),
{
    if params.len() == 0 {
        None
    } else {
        match cut(params.last(), '=') {
            Some((k, v)) => if k == key {
                Some(v)
            } else {
                param(params.drop_last(), key)
            },
            None => param(params.drop_last(), key),
        }
    }
}

/// The value that `params` give to `key`, or `default` if they give none.
pub open spec fn param_or(params: Seq<Seq<char>>, key: Seq<char>, default: Seq<char>) -> Seq<
    char,
> {
    match param(params, key) {
        Some(v) => v,
        None => default,
    }
}

/// The scene attribute that the line `line`, number `at`, declares.
pub open spec fn meta_line(line: Seq<char>, at: usize) -> Result<Meta, LoadError> {
    let chunks = fields(line, ',');
    let params = chunks.drop_first();
    if !well_formed(params) {
        Err(LoadError::MalformedMeta { line: at })
    } else if chunks[0] != "fog"@ {
        Err(LoadError::UnrecognizedMeta { line: at })
    } else {
        match u8_value(param_or(params, "dof"@, "4"@), 10) {
            None => Err(LoadError::InvalidDepth { line: at }),
            Some(dof) => match hex_color(param_or(params, "color"@, "#000000"@)) {
                None => Err(LoadError::InvalidColor { line: at }),
                Some(color) => Ok(Meta::Fog { dof, color }),
            },
        }
    }
}

/// Reads a colour written as `#rrggbb`.
pub fn parse_hex_color(hex: &str) -> (color: Option<Rgb>)
    ensures
        color == hex_color(hex@),
{
    let chars = to_chars(hex);
    hex_color_of(chars.as_slice())
}

fn hex_color_of(hex: &[char]) -> (color: Option<Rgb>)
    ensures
        color == hex_color(hex@),
{
    if hex.len() != 7 || hex[0] != '#' {
        return None;
    }
    let r = parse_u8(vstd::slice::slice_subrange(hex, 1, 3), 16);
    let g = parse_u8(vstd::slice::slice_subrange(hex, 3, 5), 16);
    let b = parse_u8(vstd::slice::slice_subrange(hex, 5, 7), 16);
    match (r, g, b) {
        (Some(r), Some(g), Some(b)) => Some(Rgb { r, g, b }),
        _ => None,
    }
}

/// Whether every one of `params` has the form `key=value`.
fn check_params(params: &Vec<Vec<char>>) -> (ok: bool)
    ensures
        ok == well_formed(views(params@)),
{
    let mut i: usize = 0;
    while i < params.len()
        invariant
            i <= params@.len(),
            forall|j: int| 0 <= j < i ==> cut(#[trigger] views(params@)[j], '=') is Some,
        decreases params@.len() - i,
    {
        if split_once(params[i].as_slice(), '=').is_none() {
            assert(cut(views(params@)[i as int], '=') is None);
            return false;
        }
        i += 1;
    }
    true
}

/// The value that `params` give to `key`, or `default` if they give none.
fn lookup(params: &Vec<Vec<char>>, key: &str, default: &str) -> (value: Vec<char>)
    ensures
        value@ == param_or(views(params@), key@, default@),
{
    let key_chars = to_chars(key);
    let mut i: usize = params.len();
    assert(views(params@).take(i as int) == views(params@));
    while i > 0
        invariant
            i <= params@.len(),
            key_chars@ == key@,
            param(views(params@), key@) == param(views(params@).take(i as int), key@),
        decreases i,
    {
        let ghost seen = views(params@).take(i as int);
        assert(seen.last() == params@[i - 1]@);
        assert(seen.drop_last() == views(params@).take(i - 1));
        match split_once(params[i - 1].as_slice(), '=') {
            Some((k, v)) => {
                if same_text(k.as_slice(), key_chars.as_slice()) {
                    return v;
                }
            },
            None => {},
        }
        i -= 1;
    }
    to_chars(default)
}

/// Reads the scene attribute that the line `line`, number `at`, declares.
fn parse_meta_line(line: &Vec<char>, at: usize) -> (meta: Result<Meta, LoadError>)
    ensures
        meta == meta_line(line@, at),
{
    let mut chunks = split_fields(line.as_slice(), ',');
    let ghost all = views(chunks@);
    let directive = chunks.remove(0);
    assert(views(chunks@) == all.drop_first());
    assert(directive@ == all[0]);
    if !check_params(&chunks) {
        return Err(LoadError::MalformedMeta { line: at });
    }
    let fog = to_chars("fog");
    if !same_text(directive.as_slice(), fog.as_slice()) {
        return Err(LoadError::UnrecognizedMeta { line: at });
    }
    let depth = lookup(&chunks, "dof", "4");
    let dof = match parse_u8(depth.as_slice(), 10) {
        Some(dof) => dof,
        None => {
            return Err(LoadError::InvalidDepth { line: at });
        },
    };
    let tint = lookup(&chunks, "color", "#000000");
    match hex_color_of(tint.as_slice()) {
        Some(color) => Ok(Meta::Fog { dof, color }),
        None => Err(LoadError::InvalidColor { line: at }),
    }
}

/// How many lines of `lines`, starting with line `from`, come before the
/// next empty line (or before the end, if there is none).
pub open spec fn paragraph_len(lines: Seq<Seq<char>>, from: int) -> nat
    decreases lines.len() - from,
{
    if from < 0 || from >= lines.len() || lines[from].len() == 0 {
        0
    } else {
        1 + paragraph_len(lines, from + 1)
    }
}

/// `metas` with `meta` declared: added at the end, unless it is there.
pub open spec fn declare(metas: Seq<Meta>, meta: Meta) -> Seq<Meta> {
    if metas.contains(meta) {
        metas
    } else {
        metas.push(meta)
    }
}

/// `metas` with the attributes that the lines `from` up to `to` declare, or
/// the error of the first line that declares none.
pub open spec fn meta_lines(lines: Seq<Seq<char>>, from: int, to: int, metas: Seq<Meta>) -> Result<
    Seq<Meta>,
    LoadError,
>
    decreases to - from,
{
    if from >= to {
        Ok(metas)
    } else {
        match meta_line(lines[from], from as usize) {
            Err(e) => Err(e),
            Ok(meta) => meta_lines(lines, from + 1, to, declare(metas, meta)),
        }
    }
}

/// The definition that a legend line gives to its symbol, the line's first
/// character. The fields after the symbol are searched for the flags, the
/// first field included; the first field names the texture.
pub open spec fn legend_entry(line: Seq<char>) -> TileDef {
    let words = fields(line.drop_first(), ',');
    TileDef {
        collidable: words.contains("collide"@),
        tex_path: words[0],
        half_width: words.contains("half_width"@),
        half_height: words.contains("half_height"@),
    }
}

/// `legend` with the definitions of the lines `from` up to `to`; a later
/// line replaces what an earlier one gave to the same symbol.
pub open spec fn legend_lines(
    lines: Seq<Seq<char>>,
    from: int,
    to: int,
    legend: Map<char, TileDef>,
) -> Map<char, TileDef>
    decreases to - from,
{
    if from >= to {
        legend
    } else {
        legend_lines(
            lines,
            from + 1,
            to,
            legend.insert(lines[from][0], legend_entry(lines[from])),
        )
    }
}

/// The tile that the symbol `c` stands for in a grid.
pub open spec fn tile_for(c: char, legend: Map<char, TileDef>) -> Option<Tile> {
    if c == ' ' {
        Some(Tile::Empty)
    } else if c == '*' {
        Some(Tile::Spawn)
    } else if legend.contains_key(c) {
        Some(Tile::Custom(c))
    } else {
        None
    }
}

/// The tiles of the grid line `row`, number `at`, or the error of its first
/// symbol that stands for none.
pub open spec fn grid_line(row: Seq<char>, legend: Map<char, TileDef>, at: usize) -> Result<
    Seq<Tile>,
    LoadError,
>
    decreases row.len(),
{
    if row.len() == 0 {
        Ok(Seq::empty())
    } else {
        match grid_line(row.drop_last(), legend, at) {
            Err(e) => Err(e),
            Ok(tiles) => match tile_for(row.last(), legend) {
                None => Err(LoadError::InvalidTile { line: at, symbol: row.last() }),
                Some(tile) => Ok(tiles.push(tile)),
            },
        }
    }
}

/// `cells` followed by the tiles of the grid lines `from` up to `to`, or the
/// error of the first line that has one.
pub open spec fn grid_lines(
    lines: Seq<Seq<char>>,
    from: int,
    to: int,
    legend: Map<char, TileDef>,
    cells: Seq<Tile>,
) -> Result<Seq<Tile>, LoadError>
    decreases to - from,
{
    if from >= to {
        Ok(cells)
    } else {
        match grid_line(lines[from], legend, from as usize) {
            Err(e) => Err(e),
            Ok(row) => grid_lines(lines, from + 1, to, legend, cells + row),
        }
    }
}

/// The line on which the grid of a main section starts whose legend starts
/// on line `from`: the one after the empty line that closes the legend.
pub open spec fn grid_start(lines: Seq<Seq<char>>, from: int) -> int {
    from + paragraph_len(lines, from) + 1
}

/// The map that a main section gives whose legend starts on line `from`.
/// The section replaces the grid and the legend of what was read before
/// and keeps the scene attributes `meta`. The grid's height is the number of
/// its lines and its width the number of its cells divided by its height.
pub open spec fn main_section(lines: Seq<Seq<char>>, from: int, meta: Seq<Meta>) -> Result<
    TileMapView,
    LoadError,
> {
    let legend = legend_lines(lines, from, from + paragraph_len(lines, from), Map::empty());
    let start = grid_start(lines, from);
    let height = paragraph_len(lines, start);
    match grid_lines(lines, start, start + height, legend, Seq::empty()) {
        Err(e) => Err(e),
        Ok(cells) => if height == 0 {
            Err(LoadError::EmptyGrid)
        } else if cells.len() % height != 0 {
            Err(LoadError::UnevenGrid)
        } else {
            Ok(
                TileMapView {
                    width: cells.len() / height,
                    height,
                    cells,
                    legend,
                    meta,
                },
            )
        },
    }
}

/// The line after the paragraph that starts on line `from` and after the
/// empty line that closes it, but never past the end.
pub open spec fn after_paragraph(lines: Seq<Seq<char>>, from: int) -> int {
    let next = from + paragraph_len(lines, from) + 1;
    if next < lines.len() {
        next
    } else {
        lines.len() as int
    }
}

/// What the sections from line `from` on make of `map`.
pub open spec fn sections(lines: Seq<Seq<char>>, from: int, map: TileMapView) -> Result<
    TileMapView,
    LoadError,
>
    decreases lines.len() - from,
{
    if from < 0 || from >= lines.len() {
        Ok(map)
    } else if lines[from] == "!!!!META"@ {
        let end = from + 1 + paragraph_len(lines, from + 1);
        match meta_lines(lines, from + 1, end, map.meta) {
            Err(e) => Err(e),
            Ok(meta) => sections(
                lines,
                after_paragraph(lines, from + 1),
                TileMapView {
                    width: map.width,
                    height: map.height,
                    cells: map.cells,
                    legend: map.legend,
                    meta,
                },
            ),
        }
    } else if lines[from] == "!!!!MAIN"@ {
        match main_section(lines, from + 1, map.meta) {
            Err(e) => Err(e),
            Ok(loaded) => sections(
                lines,
                after_paragraph(lines, grid_start(lines, from + 1)),
                loaded,
            ),
        }
    } else {
        Err(LoadError::UnrecognizedDirective { line: from as usize })
    }
}

/// The map that the source text `source` describes, or why it describes
/// none.
pub open spec fn parse(source: Seq<char>) -> Result<TileMapView, LoadError> {
    sections(lines(source), 0, TileMapView::empty())
}

/// The lines of a paragraph are not empty, and lie within the source.
pub proof fn lemma_paragraph_lines(lines: Seq<Seq<char>>, from: int)
    requires
        0 <= from,
    ensures
        from <= lines.len() ==> from + paragraph_len(lines, from) <= lines.len(),
        forall|k: int|
            from <= k < from + paragraph_len(lines, from) ==> (#[trigger] lines[k]).len() > 0,
    decreases lines.len() - from,
{
    if from < lines.len() && lines[from].len() > 0 {
        lemma_paragraph_lines(lines, from + 1);
    }
}

/// Declaring scene attributes never lists one twice.
pub proof fn lemma_meta_lines_keep_once(
    lines: Seq<Seq<char>>,
    from: int,
    to: int,
    metas: Seq<Meta>,
)
    requires
        metas.no_duplicates(),
    ensures
        meta_lines(lines, from, to, metas) matches Ok(all) ==> all.no_duplicates(),
    decreases to - from,
{
    if from < to {
        match meta_line(lines[from], from as usize) {
            Err(e) => {},
            Ok(meta) => {
                lemma_meta_lines_keep_once(lines, from + 1, to, declare(metas, meta));
            },
        }
    }
}

/// What a legend line without line feed gives is a definition that a
/// legend line can give.
pub proof fn lemma_legend_entry_declarable(line: Seq<char>)
    requires
        line.len() > 0,
        !line.contains('\n'),
    ensures
        legend_entry(line).declarable(),
        line[0] != '\n',
{
    let rest = line.drop_first();
    lemma_fields_are_clean(rest, ',', 0);
    let words = fields(rest, ',');
    let name = words[0];
    assert(!name.contains('\n')) by {
        if name.contains('\n') {
            let k = choose|k: int| 0 <= k < name.len() && name[k] == '\n';
            assert(rest.contains(name[k]));
            let j = choose|j: int| 0 <= j < rest.len() && rest[j] == '\n';
            assert(line[j + 1] == '\n');
        }
    }
}

/// Reading legend lines without line feed keeps a legend such that a source
/// can declare it.
pub proof fn lemma_legend_lines_declarable(
    lines: Seq<Seq<char>>,
    from: int,
    to: int,
    legend: Map<char, TileDef>,
)
    requires
        0 <= from,
        to <= lines.len(),
        forall|k: int|
            from <= k < to ==> (#[trigger] lines[k]).len() > 0 && !lines[k].contains('\n'),
        forall|id: char| #[trigger]
            legend.contains_key(id) ==> id != '\n' && legend[id].declarable(),
    ensures
        forall|id: char| #[trigger]
            legend_lines(lines, from, to, legend).contains_key(id) ==> id != '\n' && legend_lines(
                lines,
                from,
                to,
                legend,
            )[id].declarable(),
    decreases to - from,
{
    if from < to {
        lemma_legend_entry_declarable(lines[from]);
        let grown = legend.insert(lines[from][0], legend_entry(lines[from]));
        assert forall|id: char| #[trigger] grown.contains_key(id) implies id != '\n'
            && grown[id].declarable() by {
            if id != lines[from][0] {
                assert(legend.contains_key(id));
            }
        }
        lemma_legend_lines_declarable(lines, from + 1, to, grown);
        assert(legend_lines(lines, from, to, legend) == legend_lines(lines, from + 1, to, grown));
    }
}

/// The tiles of a grid line are as many as its symbols; a custom tile among
/// them is defined, and its symbol is neither the space nor the star.
pub proof fn lemma_grid_line_tiles(row: Seq<char>, legend: Map<char, TileDef>, at: usize)
    ensures
        grid_line(row, legend, at) matches Ok(tiles) ==> tiles.len() == row.len() && forall|
            i: int,
        |
            0 <= i < tiles.len() ==> (#[trigger] tiles[i] matches Tile::Custom(id)
                ==> legend.contains_key(id) && id != ' ' && id != '*'),
    decreases row.len(),
{
    if row.len() > 0 {
        lemma_grid_line_tiles(row.drop_last(), legend, at);
    }
}

/// The cells of grid lines that are not empty are at least as many as the
/// lines; a custom tile among them is defined, and its symbol is neither
/// the space nor the star.
pub proof fn lemma_grid_lines_tiles(
    lines: Seq<Seq<char>>,
    from: int,
    to: int,
    legend: Map<char, TileDef>,
    cells: Seq<Tile>,
)
    requires
        0 <= from,
        to <= lines.len(),
        forall|k: int| from <= k < to ==> (#[trigger] lines[k]).len() > 0,
        forall|i: int|
            0 <= i < cells.len() ==> (#[trigger] cells[i] matches Tile::Custom(id)
                ==> legend.contains_key(id) && id != ' ' && id != '*'),
    ensures
        grid_lines(lines, from, to, legend, cells) matches Ok(all) ==> (from <= to ==> all.len()
            >= cells.len() + (to - from)) && forall|i: int|
            0 <= i < all.len() ==> (#[trigger] all[i] matches Tile::Custom(id)
                ==> legend.contains_key(id) && id != ' ' && id != '*'),
    decreases to - from,
{
    if from < to {
        lemma_grid_line_tiles(lines[from], legend, from as usize);
        match grid_line(lines[from], legend, from as usize) {
            Err(e) => {},
            Ok(row) => {
                let grown = cells + row;
                assert forall|i: int| 0 <= i < grown.len() implies (#[trigger] grown[i] matches Tile::Custom(
                    id,
                ) ==> legend.contains_key(id) && id != ' ' && id != '*') by {
                    if i < cells.len() {
                        assert(grown[i] == cells[i]);
                    } else {
                        assert(grown[i] == row[i - cells.len()]);
                    }
                }
                lemma_grid_lines_tiles(lines, from + 1, to, legend, grown);
            },
        }
    }
}

/// The map that a main section gives is well-formed.
pub proof fn lemma_main_section_wf(lines: Seq<Seq<char>>, from: int, meta: Seq<Meta>)
    requires
        0 <= from <= lines.len(),
        meta.no_duplicates(),
        forall|k: int| 0 <= k < lines.len() ==> !(#[trigger] lines[k]).contains('\n'),
    ensures
        main_section(lines, from, meta) matches Ok(map) ==> map.wf(),
{
    lemma_paragraph_lines(lines, from);
    let legend_end = from + paragraph_len(lines, from);
    let legend = legend_lines(lines, from, legend_end, Map::empty());
    lemma_legend_lines_declarable(lines, from, legend_end, Map::empty());
    let start = grid_start(lines, from);
    lemma_paragraph_lines(lines, start);
    let height = paragraph_len(lines, start);
    if start <= lines.len() {
        lemma_grid_lines_tiles(lines, start, start + height, legend, Seq::empty());
    }
    match main_section(lines, from, meta) {
        Ok(map) => {
            let cells = map.cells;
            assert(height > 0);
            assert(start < lines.len());
            assert(cells.len() >= height);
            assert(cells.len() == (cells.len() / height) * height && cells.len() / height > 0)
                by (nonlinear_arith)
                requires
                    height > 0,
                    cells.len() >= height,
                    cells.len() % height == 0,
            ;
        },
        Err(e) => {},
    }
}

/// What the sections of a source without line feeds within its lines make
/// of a well-formed map is well-formed.
pub proof fn lemma_sections_wf(lines: Seq<Seq<char>>, from: int, map: TileMapView)
    requires
        0 <= from,
        map.wf(),
        forall|k: int| 0 <= k < lines.len() ==> !(#[trigger] lines[k]).contains('\n'),
    ensures
        sections(lines, from, map) matches Ok(loaded) ==> loaded.wf(),
    decreases lines.len() - from,
{
    if from < lines.len() {
        if lines[from] == "!!!!META"@ {
            let end = from + 1 + paragraph_len(lines, from + 1);
            lemma_meta_lines_keep_once(lines, from + 1, end, map.meta);
            match meta_lines(lines, from + 1, end, map.meta) {
                Err(e) => {},
                Ok(meta) => {
                    lemma_sections_wf(
                        lines,
                        after_paragraph(lines, from + 1),
                        TileMapView {
                            width: map.width,
                            height: map.height,
                            cells: map.cells,
                            legend: map.legend,
                            meta,
                        },
                    );
                },
            }
        } else if lines[from] == "!!!!MAIN"@ {
            lemma_main_section_wf(lines, from + 1, map.meta);
            match main_section(lines, from + 1, map.meta) {
                Err(e) => {},
                Ok(loaded) => {
                    lemma_sections_wf(
                        lines,
                        after_paragraph(lines, grid_start(lines, from + 1)),
                        loaded,
                    );
                },
            }
        }
    }
}

/// Every map that a source describes is well-formed.
pub proof fn lemma_parsed_is_wf(source: Seq<char>)
    ensures
        parse(source) matches Ok(map) ==> map.wf(),
{
    lemma_lines_are_clean(source, 0);
    lemma_sections_wf(lines(source), 0, TileMapView::empty());
}

/// The line on which the paragraph that starts on line `from` ends: the next
/// empty line, or the end of `lines`.
fn paragraph_end(lines: &Vec<Vec<char>>, from: usize) -> (end: usize)
    requires
        from <= lines@.len(),
    ensures
        end == from + paragraph_len(views(lines@), from as int),
        from <= end <= lines@.len(),
        forall|k: int| from <= k < end ==> (#[trigger] lines@[k])@.len() > 0,
{
    let mut end: usize = from;
    while end < lines.len() && lines[end].len() > 0
        invariant
            from <= end <= lines@.len(),
            from + paragraph_len(views(lines@), from as int) == end + paragraph_len(
                views(lines@),
                end as int,
            ),
            forall|k: int| from <= k < end ==> (#[trigger] lines@[k])@.len() > 0,
        decreases lines@.len() - end,
    {
        end += 1;
    }
    end
}

/// Adds `meta` to `metas` unless it is there.
fn declare_meta(metas: &mut Vec<Meta>, meta: Meta)
    requires
        old(metas)@.no_duplicates(),
    ensures
        final(metas)@ == declare(old(metas)@, meta),
        final(metas)@.no_duplicates(),
{
    let mut i: usize = 0;
    while i < metas.len()
        invariant
            i <= metas@.len(),
            metas@ == old(metas)@,
            metas@.no_duplicates(),
            forall|j: int| 0 <= j < i ==> metas@[j] != meta,
        decreases metas@.len() - i,
    {
        if metas[i] == meta {
            return ;
        }
        i += 1;
    }
    assert(!metas@.contains(meta));
    metas.push(meta);
}

/// Reads the definition that a legend line gives to its symbol.
fn parse_legend_line(line: &Vec<char>) -> (entry: (char, CustomTile))
    requires
        line@.len() > 0,
        !line@.contains('\n'),
    ensures
        entry.0 == line@[0],
        entry.0 != '\n',
        entry.1@ == legend_entry(line@),
        entry.1@.declarable(),
{
    let rest = copy_range(line.as_slice(), 1, line.len());
    assert(rest@ == line@.drop_first());
    let words = split_fields(rest.as_slice(), ',');
    assert(views(words@)[0] == words@[0]@);
    proof {
        lemma_legend_entry_declarable(line@);
    }
    let collide = to_chars("collide");
    let half_width = to_chars("half_width");
    let half_height = to_chars("half_height");
    let def = CustomTile {
        collidable: holds(&words, collide.as_slice()),
        tex_path: to_text(words[0].as_slice()),
        half_width: holds(&words, half_width.as_slice()),
        half_height: holds(&words, half_height.as_slice()),
    };
    (line[0], def)
}

/// Reads the tiles of the grid line `row`, number `at`.
fn parse_grid_line(row: &Vec<char>, customs: &HashMap<u32, CustomTile>, at: usize) -> (out: Result<
    Vec<Tile>,
    LoadError,
>)
    ensures
        match out {
            Ok(tiles) => {
                &&& grid_line(row@, legend_of(customs@), at) == Ok::<Seq<Tile>, LoadError>(tiles@)
                &&& tiles@.len() == row@.len()
                &&& forall|i: int|
                    0 <= i < tiles@.len() ==> (#[trigger] tiles@[i] matches Tile::Custom(id)
                        ==> legend_of(customs@).contains_key(id) && id != ' ' && id != '*')
            },
            Err(e) => grid_line(row@, legend_of(customs@), at) == Err::<Seq<Tile>, LoadError>(e),
        },
{
    let mut tiles: Vec<Tile> = Vec::new();
    let mut i: usize = 0;
    assert(row@.take(0) == Seq::<char>::empty());
    while i < row.len()
        invariant
            i <= row@.len(),
            tiles@.len() == i,
            grid_line(row@.take(i as int), legend_of(customs@), at) == Ok::<Seq<Tile>, LoadError>(
                tiles@,
            ),
            forall|k: int|
                0 <= k < tiles@.len() ==> (#[trigger] tiles@[k] matches Tile::Custom(id)
                    ==> legend_of(customs@).contains_key(id) && id != ' ' && id != '*'),
        decreases row@.len() - i,
    {
        let c = row[i];
        let ghost next = row@.take(i + 1);
        assert(next.drop_last() == row@.take(i as int));
        assert(next.last() == c);
        let key = c as u32;
        let tile = if c == ' ' {
            Tile::Empty
        } else if c == '*' {
            Tile::Spawn
        } else if customs.contains_key(&key) {
            Tile::Custom(c)
        } else {
            proof {
                lemma_grid_line_fails(row@, legend_of(customs@), at, i + 1);
            }
            return Err(LoadError::InvalidTile { line: at, symbol: c });
        };
        assert(tile_for(c, legend_of(customs@)) == Some(tile));
        tiles.push(tile);
        i += 1;
    }
    assert(row@.take(row@.len() as int) == row@);
    Ok(tiles)
}

/// An error in the first `n` symbols of a grid line is the error of the
/// whole line.
proof fn lemma_grid_line_fails(row: Seq<char>, legend: Map<char, TileDef>, at: usize, n: int)
    requires
        0 <= n <= row.len(),
        grid_line(row.take(n), legend, at) is Err,
    ensures
        grid_line(row, legend, at) == grid_line(row.take(n), legend, at),
    decreases row.len(),
{
    if n == row.len() {
        assert(row.take(n) == row);
    } else {
        assert(row.drop_last().take(n) == row.take(n));
        lemma_grid_line_fails(row.drop_last(), legend, at, n);
    }
}

impl TileMap {
    /// Reads one `!!!!META` section whose first attribute line is line
    /// `from`, and adds what it declares to `metas`. Returns the attributes
    /// and the line on which the next section starts.
    pub(crate) fn parse_meta(lines: &Vec<Vec<char>>, from: usize, metas: Vec<Meta>) -> (out: Result<
        (Vec<Meta>, usize),
        LoadError,
    >)
        requires
            from <= lines@.len(),
            metas@.no_duplicates(),
        ensures
            match out {
                Ok((all, next)) => {
                    &&& meta_lines(
                        views(lines@),
                        from as int,
                        from + paragraph_len(views(lines@), from as int),
                        metas@,
                    ) == Ok::<Seq<Meta>, LoadError>(all@)
                    &&& next == after_paragraph(views(lines@), from as int)
                    &&& all@.no_duplicates()
                },
                Err(e) => meta_lines(
                    views(lines@),
                    from as int,
                    from + paragraph_len(views(lines@), from as int),
                    metas@,
                ) == Err::<Seq<Meta>, LoadError>(e),
            },
    {
        let end = paragraph_end(lines, from);
        let mut all = metas;
        let mut at: usize = from;
        while at < end
            invariant
                from <= at <= end <= lines@.len(),
                end == from + paragraph_len(views(lines@), from as int),
                all@.no_duplicates(),
                meta_lines(views(lines@), from as int, end as int, metas@) == meta_lines(
                    views(lines@),
                    at as int,
                    end as int,
                    all@,
                ),
            decreases end - at,
        {
            assert(views(lines@)[at as int] == lines@[at as int]@);
            match parse_meta_line(&lines[at], at) {
                Err(e) => {
                    return Err(e);
                },
                Ok(meta) => {
                    declare_meta(&mut all, meta);
                },
            }
            at += 1;
        }
        let next = if end < lines.len() {
            end + 1
        } else {
            end
        };
        Ok((all, next))
    }

    /// Reads one `!!!!MAIN` section whose first legend line is line `from`.
    /// Returns the map that it describes, with the scene attributes `meta`,
    /// and the line on which the next section starts.
    pub(crate) fn parse_main(lines: &Vec<Vec<char>>, from: usize, meta: Vec<Meta>) -> (out: Result<
        (TileMap, usize),
        LoadError,
    >)
        requires
            from <= lines@.len(),
            meta@.no_duplicates(),
            forall|k: int| 0 <= k < lines@.len() ==> !(#[trigger] lines@[k])@.contains('\n'),
        ensures
            match out {
                Ok((map, next)) => {
                    &&& main_section(views(lines@), from as int, meta@) == Ok::<
                        TileMapView,
                        LoadError,
                    >(map@)
                    &&& next == after_paragraph(
                        views(lines@),
                        grid_start(views(lines@), from as int),
                    )
                },
                Err(e) => main_section(views(lines@), from as int, meta@) == Err::<
                    TileMapView,
                    LoadError,
                >(e),
            },
    {
        let ghost texts = views(lines@);
        let legend_end = paragraph_end(lines, from);
        let mut customs: HashMap<u32, CustomTile> = HashMap::new();
        let mut symbols: Vec<char> = Vec::new();
        assert(legend_of(customs@) =~= Map::<char, TileDef>::empty());
        let mut at: usize = from;
        while at < legend_end
            invariant
                from <= at <= legend_end <= lines@.len(),
                texts == views(lines@),
                forall|k: int| from <= k < legend_end ==> (#[trigger] lines@[k])@.len() > 0,
                forall|k: int| 0 <= k < lines@.len() ==> !(#[trigger] lines@[k])@.contains('\n'),
                forall|key: u32| #[trigger]
                    customs@.contains_key(key) ==> key != 10 && customs@[key]@.declarable(),
                lists(symbols@, legend_of(customs@)),
                legend_lines(texts, from as int, legend_end as int, Map::empty()) == legend_lines(
                    texts,
                    at as int,
                    legend_end as int,
                    legend_of(customs@),
                ),
            decreases legend_end - at,
        {
            assert(texts[at as int] == lines@[at as int]@);
            let (id, def) = parse_legend_line(&lines[at]);
            let key = id as u32;
            let ghost legend = legend_of(customs@);
            let ghost listed = symbols@;
            proof {
                lemma_legend_insert(customs@, id, def);
                lemma_code_point_names_symbol(id, '\n');
            }
            if !customs.contains_key(&key) {
                symbols.push(id);
                proof {
                    assert(!legend.contains_key(id));
                    assert(!listed.contains(id));
                    assert forall|other: char|
                        legend.insert(id, def@).contains_key(other) <==> symbols@.contains(
                            other,
                        ) by {
                        if legend.contains_key(other) {
                            let k = choose|k: int| 0 <= k < listed.len() && listed[k] == other;
                            assert(symbols@[k] == other);
                        }
                        if other == id {
                            assert(symbols@[listed.len() as int] == id);
                        }
                        if symbols@.contains(other) {
                            let k = choose|k: int|
                                0 <= k < symbols@.len() && symbols@[k] == other;
                            if k < listed.len() {
                                assert(listed[k] == other);
                            }
                        }
                    }
                }
            } else {
                proof {
                    assert(legend.contains_key(id));
                    assert forall|other: char|
                        legend.insert(id, def@).contains_key(other) <==> symbols@.contains(
                            other,
                        ) by {}
                }
            }
            customs.insert(key, def);
            at += 1;
        }
        let ghost legend = legend_of(customs@);
        assert forall|id: char| #[trigger] legend.contains_key(id) implies id != '\n'
            && legend[id].declarable() by {
            assert(customs@.contains_key(id as u32));
        }
        if legend_end == lines.len() {
            return Err(LoadError::EmptyGrid);
        }
        let start = legend_end + 1;
        let end = paragraph_end(lines, start);
        let mut tiles: Vec<Tile> = Vec::new();
        let mut at: usize = start;
        while at < end
            invariant
                start <= at <= end <= lines@.len(),
                texts == views(lines@),
                legend == legend_of(customs@),
                legend == legend_lines(
                    texts,
                    from as int,
                    from + paragraph_len(texts, from as int),
                    Map::empty(),
                ),
                start == grid_start(texts, from as int),
                end == start + paragraph_len(texts, start as int),
                forall|k: int| start <= k < end ==> (#[trigger] lines@[k])@.len() > 0,
                tiles@.len() >= at - start,
                grid_lines(texts, start as int, end as int, legend, Seq::empty()) == grid_lines(
                    texts,
                    at as int,
                    end as int,
                    legend,
                    tiles@,
                ),
                forall|i: int|
                    0 <= i < tiles@.len() ==> (#[trigger] tiles@[i] matches Tile::Custom(id)
                        ==> legend.contains_key(id) && id != ' ' && id != '*'),
            decreases end - at,
        {
            assert(texts[at as int] == lines@[at as int]@);
            match parse_grid_line(&lines[at], &customs, at) {
                Err(e) => {
                    return Err(e);
                },
                Ok(mut row) => {
                    tiles.append(&mut row);
                },
            }
            at += 1;
        }
        let height = end - start;
        if height == 0 {
            return Err(LoadError::EmptyGrid);
        }
        if tiles.len() % height != 0 {
            return Err(LoadError::UnevenGrid);
        }
        let width = tiles.len() / height;
        assert(tiles@.len() == width * height && width > 0) by (nonlinear_arith)
            requires
                height > 0,
                tiles@.len() >= height,
                tiles@.len() % (height as nat) == 0,
                width == tiles@.len() / (height as nat),
        ;
        let map = TileMap::assemble(width, height, tiles, customs, symbols, meta);
        let next = if end < lines.len() {
            end + 1
        } else {
            end
        };
        Ok((map, next))
    }

    /// Reads a map from its source text.
    ///
    /// The result is the map that `parse` gives for the text, or the error
    /// that it gives. A text without sections gives the empty map.
    pub fn load(source: &str) -> (out: Result<TileMap, LoadError>)
        ensures
            match out {
                Ok(map) => parse(source@) == Ok::<TileMapView, LoadError>(map@) && map@.wf(),
                Err(e) => parse(source@) == Err::<TileMapView, LoadError>(e),
            },
    {
        let chars = to_chars(source);
        let lines = split_lines(chars.as_slice());
        let meta_header = to_chars("!!!!META");
        let main_header = to_chars("!!!!MAIN");
        let ghost texts = views(lines@);
        let mut map = TileMap::new();
        let mut at: usize = 0;
        while at < lines.len()
            invariant
                at <= lines@.len(),
                texts == views(lines@),
                texts == crate::text::lines(source@),
                forall|k: int| 0 <= k < lines@.len() ==> !(#[trigger] lines@[k])@.contains('\n'),
                meta_header@ == "!!!!META"@,
                main_header@ == "!!!!MAIN"@,
                parse(source@) == sections(texts, at as int, map@),
            decreases lines@.len() - at,
        {
            assert(texts[at as int] == lines@[at as int]@);
            if same_text(lines[at].as_slice(), meta_header.as_slice()) {
                let (width, height, tiles, customs, symbols, meta) = map.into_parts();
                match TileMap::parse_meta(&lines, at + 1, meta) {
                    Err(e) => {
                        return Err(e);
                    },
                    Ok((meta, next)) => {
                        map = TileMap::assemble(width, height, tiles, customs, symbols, meta);
                        at = next;
                    },
                }
            } else if same_text(lines[at].as_slice(), main_header.as_slice()) {
                let (_, _, _, _, _, meta) = map.into_parts();
                match TileMap::parse_main(&lines, at + 1, meta) {
                    Err(e) => {
                        return Err(e);
                    },
                    Ok((loaded, next)) => {
                        map = loaded;
                        at = next;
                    },
                }
            } else {
                return Err(LoadError::UnrecognizedDirective { line: at });
            }
        }
        proof {
            use_type_invariant(&map);
        }
        Ok(map)
    }
}

} // verus!
