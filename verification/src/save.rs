//! Writing a map as source text, and the proof that reading the text gives
//! the map back.
//!
//! The text has a `!!!!META` section with one line for each scene attribute,
//! unless there is none, and a `!!!!MAIN` section with the legend and the
//! grid, unless the map has no cells. Every line ends with a carriage return
//! and a line feed.

use crate::load::{
    after_paragraph, declare, grid_line, grid_lines, grid_start, hex_color, legend_entry,
    legend_lines, lemma_parsed_is_wf, main_section, meta_line, meta_lines, paragraph_len, param,
    parse, sections, tile_for, well_formed, LoadError,
};
use crate::map::{lists, CustomTile, Meta, Rgb, Tile, TileDef, TileMap, TileMapView};
use crate::text::{
    decimal, hex_pair, joined, lemma_cut_reads_back, lemma_decimal_reads_back,
    lemma_fields_of_separated, lemma_hex_pair_reads_back, lemma_lines_of_joined, lines,
    push_decimal, push_hex_pair, push_text, separated, to_chars, to_text,
};
use vstd::prelude::*;

verus! {

/// The symbol that stands for `tile` in a grid.
pub open spec fn symbol_of(tile: Tile) -> char {
    match tile {
        Tile::Empty => ' ',
        Tile::Spawn => '*',
        Tile::Custom(id) => id,
    }
}

/// The flags that are set in `def`, by name.
pub open spec fn flag_words(def: TileDef) -> Seq<Seq<char>> {
    (if def.collidable {
        seq!["collide"@]
    } else {
        Seq::empty()
    }) + (if def.half_width {
        seq!["half_width"@]
    } else {
        Seq::empty()
    }) + (if def.half_height {
        seq!["half_height"@]
    } else {
        Seq::empty()
    })
}

/// The legend line that gives `def` to the symbol `id`: the symbol, the
/// texture's name, and the name of each flag that is set.
pub open spec fn legend_text(id: char, def: TileDef) -> Seq<char> {
    seq![id] + separated(seq![def.tex_path] + flag_words(def), ',')
}

/// The grid line of the row `row` of `map`.
pub open spec fn row_text(map: TileMapView, row: int) -> Seq<char> {
    Seq::new(map.width, |k: int| symbol_of(map.cells[row * map.width + k]))
}

/// `color` written as `#rrggbb`.
pub open spec fn color_text(color: Rgb) -> Seq<char> {
    seq!['#'] + hex_pair(color.r) + hex_pair(color.g) + hex_pair(color.b)
}

/// The words of the line that declares `meta`.
pub open spec fn meta_words(meta: Meta) -> Seq<Seq<char>> {
    match meta {
        Meta::Fog { dof, color } => seq![
            "fog"@,
            "dof"@ + seq!['='] + decimal(dof),
            "color"@ + seq!['='] + color_text(color),
        ],
    }
}

/// The line that declares `meta`.
pub open spec fn meta_text(meta: Meta) -> Seq<char> {
    separated(meta_words(meta), ',')
}

/// The lines of a meta section that declares `metas`; none if there is
/// nothing to declare.
pub open spec fn meta_part(metas: Seq<Meta>) -> Seq<Seq<char>> {
    if metas.len() == 0 {
        Seq::empty()
    } else {
        seq!["!!!!META"@] + Seq::new(metas.len(), |i: int| meta_text(metas[i])) + seq![
            Seq::<char>::empty(),
        ]
    }
}

/// The lines of a main section that describes the grid and the legend of
/// `map`, with the legend's lines in the order `order`; none if the map has
/// no cells.
pub open spec fn main_part(map: TileMapView, order: Seq<char>) -> Seq<Seq<char>> {
    if map.height == 0 {
        Seq::empty()
    } else {
        seq!["!!!!MAIN"@] + Seq::new(
            order.len(),
            |i: int| legend_text(order[i], map.legend[order[i]]),
        ) + seq![Seq::<char>::empty()] + Seq::new(map.height, |r: int| row_text(map, r))
    }
}

/// The lines of a source text that describes `map`.
pub open spec fn source_lines(map: TileMapView, order: Seq<char>) -> Seq<Seq<char>> {
    meta_part(map.meta) + main_part(map, order)
}

/// A source text that describes `map`, with the legend's lines in the order
/// `order`.
pub open spec fn source_of(map: TileMapView, order: Seq<char>) -> Seq<char> {
    joined(source_lines(map, order))
}

/// A text made of words holds only what the words hold, and separators.
proof fn lemma_separated_holds(words: Seq<Seq<char>>, sep: char, c: char)
    requires
        c != sep,
        forall|i: int| 0 <= i < words.len() ==> !(#[trigger] words[i]).contains(c),
    ensures
        !separated(words, sep).contains(c),
    decreases words.len(),
{
    if words.len() >= 2 {
        let front = words.drop_last();
        assert forall|i: int| 0 <= i < front.len() implies !(#[trigger] front[i]).contains(c) by {
            assert(front[i] == words[i]);
        }
        lemma_separated_holds(front, sep, c);
        let text = separated(words, sep);
        if text.contains(c) {
            let k = choose|k: int| 0 <= k < text.len() && text[k] == c;
            let head = separated(front, sep);
            if k < head.len() {
                assert(head[k] == c);
                assert(head.contains(c));
            } else if k > head.len() {
                assert(words.last()[k - head.len() - 1] == c);
                assert(words.last().contains(c));
            }
        }
    } else if words.len() == 1 {
        assert(separated(words, sep) == words[0]);
    }
}

/// A text made of words, the first of which is not empty, is not empty.
proof fn lemma_separated_starts(words: Seq<Seq<char>>, sep: char)
    requires
        words.len() > 0,
        words[0].len() > 0,
    ensures
        separated(words, sep).len() > 0,
    decreases words.len(),
{
    if words.len() >= 2 {
    } else {
        assert(separated(words, sep) == words[0]);
    }
}

/// The names of the flags hold neither comma nor line feed, and differ.
proof fn lemma_flag_names()
    ensures
        !"collide"@.contains(','),
        !"half_width"@.contains(','),
        !"half_height"@.contains(','),
        !"collide"@.contains('\n'),
        !"half_width"@.contains('\n'),
        !"half_height"@.contains('\n'),
        "collide"@ != "half_width"@,
        "collide"@ != "half_height"@,
        "half_width"@ != "half_height"@,
{
    reveal_strlit("collide");
    reveal_strlit("half_width");
    reveal_strlit("half_height");
    assert("collide"@.len() == 7);
    assert("half_width"@.len() == 10);
    assert("half_height"@.len() == 11);
}

/// The words of an attribute line hold no comma, no line feed and, but for
/// the one that parts a key from its value, no equals sign.
proof fn lemma_meta_names()
    ensures
        "fog"@.len() == 3,
        !"fog"@.contains(','),
        !"fog"@.contains('\n'),
        !"dof"@.contains(','),
        !"dof"@.contains('\n'),
        !"dof"@.contains('='),
        !"color"@.contains(','),
        !"color"@.contains('\n'),
        !"color"@.contains('='),
        "dof"@ != "color"@,
{
    reveal_strlit("fog");
    reveal_strlit("dof");
    reveal_strlit("color");
    assert("dof"@.len() == 3);
    assert("color"@.len() == 5);
}

/// A legend line written for a definition gives that definition.
pub proof fn lemma_legend_text_reads_back(id: char, def: TileDef)
    requires
        id != '\n',
        def.declarable(),
    ensures
        legend_text(id, def).len() > 0,
        legend_text(id, def)[0] == id,
        !legend_text(id, def).contains('\n'),
        legend_entry(legend_text(id, def)) == def,
{
    lemma_flag_names();
    let flags = flag_words(def);
    let words = seq![def.tex_path] + flags;
    let body = separated(words, ',');
    let line = legend_text(id, def);
    assert(line.drop_first() == body);
    assert forall|i: int| 0 <= i < flags.len() implies (#[trigger] flags[i] == "collide"@
        && def.collidable) || (flags[i] == "half_width"@ && def.half_width) || (flags[i]
        == "half_height"@ && def.half_height) by {}
    assert forall|i: int| 0 <= i < words.len() implies !(#[trigger] words[i]).contains(',')
        && !words[i].contains('\n') by {
        if i > 0 {
            assert(words[i] == flags[i - 1]);
        }
    }
    lemma_fields_of_separated(words, ',');
    lemma_separated_holds(words, ',', '\n');
    assert(!line.contains('\n')) by {
        if line.contains('\n') {
            let k = choose|k: int| 0 <= k < line.len() && line[k] == '\n';
            assert(body[k - 1] == '\n');
            assert(body.contains('\n'));
        }
    }
    assert(words[0] == def.tex_path);
    assert(words.contains("collide"@) == def.collidable) by {
        if def.collidable {
            assert(flags[0] == "collide"@);
            assert(words[1] == "collide"@);
        }
        if words.contains("collide"@) {
            let i = choose|i: int| 0 <= i < words.len() && words[i] == "collide"@;
            if i > 0 {
                assert(words[i] == flags[i - 1]);
            }
        }
    }
    assert(words.contains("half_width"@) == def.half_width) by {
        if def.half_width {
            let at = if def.collidable {
                1int
            } else {
                0int
            };
            assert(flags[at] == "half_width"@);
            assert(words[at + 1] == "half_width"@);
        }
        if words.contains("half_width"@) {
            let i = choose|i: int| 0 <= i < words.len() && words[i] == "half_width"@;
            if i > 0 {
                assert(words[i] == flags[i - 1]);
            }
        }
    }
    assert(words.contains("half_height"@) == def.half_height) by {
        if def.half_height {
            let at = flags.len() - 1;
            assert(flags[at] == "half_height"@);
            assert(words[at + 1] == "half_height"@);
        }
        if words.contains("half_height"@) {
            let i = choose|i: int| 0 <= i < words.len() && words[i] == "half_height"@;
            if i > 0 {
                assert(words[i] == flags[i - 1]);
            }
        }
    }
}

/// A colour written as `#rrggbb` reads as that colour.
pub proof fn lemma_color_text_reads_back(color: Rgb)
    ensures
        hex_color(color_text(color)) == Some(color),
        !color_text(color).contains(','),
        !color_text(color).contains('\n'),
{
    let text = color_text(color);
    lemma_hex_pair_reads_back(color.r);
    lemma_hex_pair_reads_back(color.g);
    lemma_hex_pair_reads_back(color.b);
    assert(text.len() == 7);
    assert(text[0] == '#');
    assert(text.subrange(1, 3) == hex_pair(color.r));
    assert(text.subrange(3, 5) == hex_pair(color.g));
    assert(text.subrange(5, 7) == hex_pair(color.b));
    assert forall|k: int| 0 <= k < text.len() implies #[trigger] text[k] != ',' && text[k]
        != '\n' by {
        if 1 <= k < 3 {
            assert(hex_pair(color.r)[k - 1] == text[k]);
            assert(hex_pair(color.r).contains(text[k]));
        } else if 3 <= k < 5 {
            assert(hex_pair(color.g)[k - 3] == text[k]);
            assert(hex_pair(color.g).contains(text[k]));
        } else if 5 <= k {
            assert(hex_pair(color.b)[k - 5] == text[k]);
            assert(hex_pair(color.b).contains(text[k]));
        }
    }
}

/// A text made of two parts holds only what the parts hold.
proof fn lemma_concat_holds(a: Seq<char>, b: Seq<char>, c: char)
    requires
        !a.contains(c),
        !b.contains(c),
    ensures
        !(a + b).contains(c),
{
    if (a + b).contains(c) {
        let k = choose|k: int| 0 <= k < (a + b).len() && (a + b)[k] == c;
        if k < a.len() {
            assert(a[k] == c);
            assert(a.contains(c));
        } else {
            assert(b[k - a.len()] == c);
            assert(b.contains(c));
        }
    }
}

/// An attribute line written for a scene attribute declares that attribute.
pub proof fn lemma_meta_text_reads_back(meta: Meta, at: usize)
    ensures
        meta_text(meta).len() > 0,
        !meta_text(meta).contains('\n'),
        meta_line(meta_text(meta), at) == Ok::<Meta, LoadError>(meta),
{
    lemma_meta_names();
    match meta {
        Meta::Fog { dof, color } => {
            let mark = seq!['='];
            let depth = "dof"@ + mark + decimal(dof);
            let tint = "color"@ + mark + color_text(color);
            let words = meta_words(meta);
            let params = words.drop_first();
            lemma_decimal_reads_back(dof);
            lemma_color_text_reads_back(color);
            assert(!mark.contains(',') && !mark.contains('\n'));
            lemma_concat_holds("dof"@, mark, ',');
            lemma_concat_holds("dof"@ + mark, decimal(dof), ',');
            lemma_concat_holds("dof"@, mark, '\n');
            lemma_concat_holds("dof"@ + mark, decimal(dof), '\n');
            lemma_concat_holds("color"@, mark, ',');
            lemma_concat_holds("color"@ + mark, color_text(color), ',');
            lemma_concat_holds("color"@, mark, '\n');
            lemma_concat_holds("color"@ + mark, color_text(color), '\n');
            assert(words[0] == "fog"@ && words[1] == depth && words[2] == tint);
            lemma_fields_of_separated(words, ',');
            lemma_separated_holds(words, ',', '\n');
            lemma_separated_starts(words, ',');
            lemma_cut_reads_back("dof"@, decimal(dof), '=');
            lemma_cut_reads_back("color"@, color_text(color), '=');
            assert(params == seq![depth, tint]);
            assert(params.last() == tint);
            assert(params.drop_last() == seq![depth]);
            assert(seq![depth].last() == depth);
            assert(seq![depth].drop_last() == Seq::<Seq<char>>::empty());
            assert(well_formed(params));
            reveal_with_fuel(param, 3);
            assert(param(params, "color"@) == Some(color_text(color)));
            assert(param(params, "dof"@) == Some(decimal(dof)));
        },
    }
}

/// A run of `n` non-empty lines that an empty line or the end closes is a
/// paragraph of `n` lines.
proof fn lemma_paragraph(texts: Seq<Seq<char>>, from: int, n: int)
    requires
        0 <= from,
        0 <= n,
        from + n <= texts.len(),
        forall|k: int| from <= k < from + n ==> (#[trigger] texts[k]).len() > 0,
        from + n == texts.len() || texts[from + n].len() == 0,
    ensures
        paragraph_len(texts, from) == n,
    decreases n,
{
    if n > 0 {
        assert(texts[from].len() > 0);
        lemma_paragraph(texts, from + 1, n - 1);
    }
}

/// Reading the attribute lines written for a list of scene attributes gives
/// the list.
proof fn lemma_meta_lines_read_back(texts: Seq<Seq<char>>, from: int, metas: Seq<Meta>, done: int)
    requires
        0 <= from,
        0 <= done <= metas.len(),
        from + metas.len() <= texts.len(),
        metas.no_duplicates(),
        forall|i: int| 0 <= i < metas.len() ==> #[trigger] texts[from + i] == meta_text(metas[i]),
    ensures
        meta_lines(texts, from + done, from + metas.len(), metas.take(done)) == Ok::<
            Seq<Meta>,
            LoadError,
        >(metas),
    decreases metas.len() - done,
{
    if done == metas.len() {
        assert(metas.take(done) == metas);
    } else {
        let meta = metas[done];
        assert(texts[from + done] == meta_text(meta));
        lemma_meta_text_reads_back(meta, (from + done) as usize);
        let seen = metas.take(done);
        assert(!seen.contains(meta)) by {
            if seen.contains(meta) {
                let k = choose|k: int| 0 <= k < seen.len() && seen[k] == meta;
                assert(metas[k] == metas[done]);
            }
        }
        assert(declare(seen, meta) == metas.take(done + 1));
        lemma_meta_lines_read_back(texts, from, metas, done + 1);
    }
}

/// The part of `legend` that the first `n` symbols of `order` name.
spec fn legend_so_far(legend: Map<char, TileDef>, order: Seq<char>, n: int) -> Map<char, TileDef> {
    Map::new(
        |id: char| order.take(n).contains(id) && legend.contains_key(id),
        |id: char| legend[id],
    )
}

/// Reading the legend lines written for a legend gives the legend.
proof fn lemma_legend_lines_read_back(
    texts: Seq<Seq<char>>,
    from: int,
    legend: Map<char, TileDef>,
    order: Seq<char>,
    done: int,
)
    requires
        0 <= from,
        0 <= done <= order.len(),
        from + order.len() <= texts.len(),
        lists(order, legend),
        forall|id: char| #[trigger]
            legend.contains_key(id) ==> id != '\n' && legend[id].declarable(),
        forall|i: int|
            0 <= i < order.len() ==> #[trigger] texts[from + i] == legend_text(
                order[i],
                legend[order[i]],
            ),
    ensures
        legend_lines(texts, from + done, from + order.len(), legend_so_far(legend, order, done))
            == legend,
    decreases order.len() - done,
{
    let so_far = legend_so_far(legend, order, done);
    if done == order.len() {
        assert(order.take(done) == order);
        assert(so_far =~= legend);
    } else {
        let id = order[done];
        assert(order.contains(id));
        assert(legend.contains_key(id));
        let line = texts[from + done];
        assert(line == legend_text(id, legend[id]));
        lemma_legend_text_reads_back(id, legend[id]);
        let next = legend_so_far(legend, order, done + 1);
        let seen = order.take(done);
        let grown = order.take(done + 1);
        assert(grown == seen.push(id));
        assert(so_far.insert(id, legend[id]) =~= next) by {
            assert forall|other: char| #[trigger]
                next.contains_key(other) == so_far.insert(id, legend[id]).contains_key(other) by {
                if grown.contains(other) {
                    let k = choose|k: int| 0 <= k < grown.len() && grown[k] == other;
                    if k < done {
                        assert(seen[k] == other);
                    }
                }
                if seen.contains(other) {
                    let k = choose|k: int| 0 <= k < seen.len() && seen[k] == other;
                    assert(grown[k] == other);
                }
                if other == id {
                    assert(grown[done] == id);
                }
            }
        }
        lemma_legend_lines_read_back(texts, from, legend, order, done + 1);
    }
}

/// Reading a grid line written for tiles gives the tiles.
proof fn lemma_grid_line_reads_back(tiles: Seq<Tile>, legend: Map<char, TileDef>, at: usize)
    requires
        forall|i: int|
            0 <= i < tiles.len() ==> (#[trigger] tiles[i] matches Tile::Custom(id)
                ==> legend.contains_key(id) && id != ' ' && id != '*'),
    ensures
        grid_line(Seq::new(tiles.len(), |k: int| symbol_of(tiles[k])), legend, at) == Ok::<
            Seq<Tile>,
            LoadError,
        >(tiles),
    decreases tiles.len(),
{
    let row = Seq::new(tiles.len(), |k: int| symbol_of(tiles[k]));
    if tiles.len() == 0 {
        assert(tiles == Seq::<Tile>::empty());
    } else {
        let front = tiles.drop_last();
        assert forall|i: int| 0 <= i < front.len() implies (#[trigger] front[i] matches Tile::Custom(
            id,
        ) ==> legend.contains_key(id) && id != ' ' && id != '*') by {
            assert(front[i] == tiles[i]);
        }
        lemma_grid_line_reads_back(front, legend, at);
        assert(row.drop_last() == Seq::new(front.len(), |k: int| symbol_of(front[k])));
        assert(row.last() == symbol_of(tiles.last()));
        assert(tile_for(symbol_of(tiles.last()), legend) == Some(tiles.last()));
        assert(front.push(tiles.last()) == tiles);
    }
}

/// Reading the grid lines written for a grid gives the grid.
proof fn lemma_grid_lines_read_back(texts: Seq<Seq<char>>, from: int, map: TileMapView, done: int)
    requires
        map.wf(),
        0 <= from,
        0 <= done <= map.height,
        from + map.height <= texts.len(),
        forall|r: int| 0 <= r < map.height ==> #[trigger] texts[from + r] == row_text(map, r),
    ensures
        grid_lines(
            texts,
            from + done,
            from + map.height,
            map.legend,
            map.cells.take(done * map.width),
        ) == Ok::<Seq<Tile>, LoadError>(map.cells),
    decreases map.height - done,
{
    let w = map.width as int;
    let h = map.height as int;
    if done == h {
        assert(map.cells.take(done * w) == map.cells) by {
            assert(done * w == map.cells.len()) by (nonlinear_arith)
                requires
                    done == h,
                    map.cells.len() == w * h,
            ;
        }
    } else {
        assert(0 <= done * w && (done + 1) * w == done * w + w && (done + 1) * w <= w * h)
            by (nonlinear_arith)
            requires
                0 <= done < h,
                0 <= w,
        ;
        let tiles = map.cells.subrange(done * w, (done + 1) * w);
        assert forall|i: int| 0 <= i < tiles.len() implies (#[trigger] tiles[i] matches Tile::Custom(
            id,
        ) ==> map.legend.contains_key(id) && id != ' ' && id != '*') by {
            assert(tiles[i] == map.cells[done * w + i]);
        }
        lemma_grid_line_reads_back(tiles, map.legend, (from + done) as usize);
        assert(texts[from + done] == row_text(map, done));
        assert(row_text(map, done) == Seq::new(tiles.len(), |k: int| symbol_of(tiles[k])));
        assert(map.cells.take(done * w) + tiles == map.cells.take((done + 1) * w));
        lemma_grid_lines_read_back(texts, from, map, done + 1);
    }
}

/// No line written for a map holds a line feed, and the lines of its legend
/// and of its grid are not empty.
proof fn lemma_main_part_lines(map: TileMapView, order: Seq<char>)
    requires
        map.wf(),
        lists(order, map.legend),
        map.height > 0,
    ensures
        main_part(map, order).len() == order.len() + map.height + 2,
        main_part(map, order)[0] == "!!!!MAIN"@,
        main_part(map, order)[order.len() as int + 1] == Seq::<char>::empty(),
        forall|i: int|
            0 <= i < order.len() ==> #[trigger] main_part(map, order)[1 + i] == legend_text(
                order[i],
                map.legend[order[i]],
            ),
        forall|r: int|
            0 <= r < map.height ==> #[trigger] main_part(map, order)[order.len() + 2 + r]
                == row_text(map, r),
        forall|k: int|
            0 <= k < main_part(map, order).len() ==> !(#[trigger] main_part(map, order)[k]).contains(
                '\n',
            ),
        forall|k: int|
            1 <= k < main_part(map, order).len() && k != order.len() + 1 ==> (
            #[trigger] main_part(map, order)[k]).len() > 0,
{
    let n = order.len() as int;
    let h = map.height as int;
    let w = map.width as int;
    let texts = main_part(map, order);
    let legend_part = Seq::new(order.len(), |i: int| legend_text(order[i], map.legend[order[i]]));
    let grid_part = Seq::new(map.height, |r: int| row_text(map, r));
    reveal_strlit("!!!!MAIN");
    assert(texts.len() == n + h + 2);
    assert(texts[0] == "!!!!MAIN"@);
    assert forall|i: int| 0 <= i < n implies #[trigger] texts[1 + i] == legend_text(
        order[i],
        map.legend[order[i]],
    ) && texts[1 + i].len() > 0 && !texts[1 + i].contains('\n') by {
        assert(texts[1 + i] == legend_part[i]);
        assert(order.contains(order[i]));
        lemma_legend_text_reads_back(order[i], map.legend[order[i]]);
    }
    assert(texts[1 + n] == Seq::<char>::empty());
    assert forall|r: int| 0 <= r < h implies #[trigger] texts[n + 2 + r] == row_text(map, r)
        && texts[n + 2 + r].len() > 0 && !texts[n + 2 + r].contains('\n') by {
        assert(texts[n + 2 + r] == grid_part[r]);
        let row = row_text(map, r);
        assert(row.len() == w);
        if row.contains('\n') {
            let k = choose|k: int| 0 <= k < row.len() && row[k] == '\n';
            assert(0 <= r * w + k < w * h) by (nonlinear_arith)
                requires
                    0 <= r < h,
                    0 <= k < w,
            ;
            let tile = map.cells[r * w + k];
            assert(symbol_of(tile) == '\n');
            assert(tile is Custom);
            assert(map.legend.contains_key(tile->Custom_0));
        }
    }
    assert forall|k: int| 0 <= k < texts.len() implies !(#[trigger] texts[k]).contains('\n') by {
        if k == 0 {
        } else if k < 1 + n {
            assert(texts[k] == texts[1 + (k - 1)]);
        } else if k == 1 + n {
        } else {
            assert(texts[k] == texts[n + 2 + (k - n - 2)]);
        }
    }
    assert forall|k: int| 1 <= k < texts.len() && k != n + 1 implies (#[trigger] texts[k]).len()
        > 0 by {
        if k < 1 + n {
            assert(texts[k] == texts[1 + (k - 1)]);
        } else {
            assert(texts[k] == texts[n + 2 + (k - n - 2)]);
        }
    }
}

/// Reading the main section written for a map gives the map's grid and
/// legend, and keeps the scene attributes read before.
proof fn lemma_main_part_reads_back(
    texts: Seq<Seq<char>>,
    base: int,
    map: TileMapView,
    order: Seq<char>,
    before: TileMapView,
)
    requires
        map.wf(),
        lists(order, map.legend),
        map.height > 0,
        0 <= base,
        texts.len() == base + main_part(map, order).len(),
        forall|k: int|
            0 <= k < main_part(map, order).len() ==> #[trigger] texts[base + k] == main_part(
                map,
                order,
            )[k],
    ensures
        sections(texts, base, before) == Ok::<TileMapView, LoadError>(
            TileMapView {
                width: map.width,
                height: map.height,
                cells: map.cells,
                legend: map.legend,
                meta: before.meta,
            },
        ),
{
    let n = order.len() as int;
    let h = map.height as int;
    let w = map.width as int;
    let part = main_part(map, order);
    let loaded = TileMapView {
        width: map.width,
        height: map.height,
        cells: map.cells,
        legend: map.legend,
        meta: before.meta,
    };
    lemma_main_part_lines(map, order);
    assert(texts[base + 0] == part[0]);
    reveal_strlit("!!!!MAIN");
    reveal_strlit("!!!!META");
    assert("!!!!MAIN"@[5] != "!!!!META"@[5]);
    assert forall|i: int| 0 <= i < n implies #[trigger] texts[base + 1 + i] == legend_text(
        order[i],
        map.legend[order[i]],
    ) by {
        assert(texts[base + (1 + i)] == part[1 + i]);
    }
    assert(texts[base + 1 + n] == Seq::<char>::empty()) by {
        assert(texts[base + (n + 1)] == part[n + 1]);
    }
    assert forall|r: int| 0 <= r < h implies #[trigger] texts[base + n + 2 + r] == row_text(
        map,
        r,
    ) by {
        assert(texts[base + (n + 2 + r)] == part[n + 2 + r]);
    }
    assert forall|k: int| base + 1 <= k < base + 1 + n implies (#[trigger] texts[k]).len() > 0 by {
        assert(texts[base + (k - base)] == part[k - base]);
    }
    lemma_paragraph(texts, base + 1, n);
    assert(grid_start(texts, base + 1) == base + n + 2);
    assert forall|k: int| base + n + 2 <= k < base + n + 2 + h implies (#[trigger] texts[k]).len()
        > 0 by {
        assert(texts[base + (k - base)] == part[k - base]);
    }
    lemma_paragraph(texts, base + n + 2, h);
    assert(legend_so_far(map.legend, order, 0) =~= Map::<char, TileDef>::empty()) by {
        assert(order.take(0) == Seq::<char>::empty());
    }
    lemma_legend_lines_read_back(texts, base + 1, map.legend, order, 0);
    assert(map.cells.take(0 * w) == Seq::<Tile>::empty());
    lemma_grid_lines_read_back(texts, base + n + 2, map, 0);
    assert(map.cells.len() % (h as nat) == 0 && map.cells.len() / (h as nat) == w)
        by (nonlinear_arith)
        requires
            map.cells.len() == w * h,
            h > 0,
            w >= 0,
    ;
    assert(main_section(texts, base + 1, before.meta) == Ok::<TileMapView, LoadError>(loaded));
    assert(after_paragraph(texts, base + n + 2) == texts.len());
    assert(sections(texts, texts.len() as int, loaded) == Ok::<TileMapView, LoadError>(loaded));
}

/// What is read from a source text written for a map is that map, whatever
/// the order of the legend's lines.
pub proof fn lemma_source_reads_back(map: TileMapView, order: Seq<char>)
    requires
        map.wf(),
        lists(order, map.legend),
    ensures
        parse(source_of(map, order)) == Ok::<TileMapView, LoadError>(map),
{
    let texts = source_lines(map, order);
    let meta = meta_part(map.meta);
    let main = main_part(map, order);
    let m = map.meta.len() as int;
    let declared = Seq::new(map.meta.len(), |i: int| meta_text(map.meta[i]));
    let empty = TileMapView::empty();

    if map.height == 0 {
        assert(map.cells.len() == 0) by (nonlinear_arith)
            requires
                map.cells.len() == map.width * map.height,
                map.height == 0,
        ;
        assert(map.cells == Seq::<Tile>::empty());
        assert(map.legend =~= Map::<char, TileDef>::empty());
        assert(texts == meta);
    } else {
        lemma_main_part_lines(map, order);
    }
    if m > 0 {
        assert forall|i: int| 0 <= i < m implies #[trigger] meta[1 + i] == meta_text(map.meta[i])
            && meta[1 + i].len() > 0 && !meta[1 + i].contains('\n') by {
            assert(meta[1 + i] == declared[i]);
            lemma_meta_text_reads_back(map.meta[i], 0);
        }
        reveal_strlit("!!!!META");
        assert(meta[0] == "!!!!META"@);
        assert(meta[m + 1] == Seq::<char>::empty());
    } else {
        assert(texts == main);
    }
    assert forall|k: int| 0 <= k < texts.len() implies !(#[trigger] texts[k]).contains('\n') by {
        if k < meta.len() {
            assert(texts[k] == meta[k]);
            if 1 <= k < 1 + m {
                assert(meta[k] == meta[1 + (k - 1)]);
            }
        } else {
            assert(texts[k] == main[k - meta.len()]);
        }
    }
    lemma_lines_of_joined(texts);
    assert(lines(source_of(map, order)) == texts);

    let with_meta = TileMapView {
        width: 0,
        height: 0,
        cells: Seq::empty(),
        legend: Map::empty(),
        meta: map.meta,
    };
    if m == 0 {
        assert(map.meta == Seq::<Meta>::empty());
        assert(with_meta == empty);
    } else {
        assert(texts[0] == meta[0]);
        assert forall|i: int| 0 <= i < m implies #[trigger] texts[1 + i] == meta_text(
            map.meta[i],
        ) by {
            assert(texts[1 + i] == meta[1 + i]);
        }
        assert forall|k: int| 1 <= k < 1 + m implies (#[trigger] texts[k]).len() > 0 by {
            assert(texts[k] == meta[1 + (k - 1)]);
        }
        assert(texts[1 + m] == meta[1 + m]);
        lemma_paragraph(texts, 1, m);
        assert(map.meta.take(0) == Seq::<Meta>::empty());
        lemma_meta_lines_read_back(texts, 1, map.meta, 0);
        assert(after_paragraph(texts, 1) == m + 2);
        assert(sections(texts, 0, empty) == sections(texts, m + 2, with_meta));
    }
    let base = meta.len() as int;
    assert(sections(texts, 0, empty) == sections(texts, base, with_meta));
    if map.height == 0 {
        assert(with_meta == map);
    } else {
        assert forall|k: int| 0 <= k < main.len() implies #[trigger] texts[base + k] == main[k] by {}
        lemma_main_part_reads_back(texts, base, map, order, with_meta);
    }
}

/// Reading a source, writing the map and reading what was written gives the
/// map that was read first: the same width, height, cells, legend and scene
/// attributes.
pub proof fn lemma_read_write_read(source: Seq<char>, order: Seq<char>)
    requires
        parse(source) is Ok,
        lists(order, parse(source)->Ok_0.legend),
    ensures
        parse(source_of(parse(source)->Ok_0, order)) == parse(source),
{
    lemma_parsed_is_wf(source);
    lemma_source_reads_back(parse(source)->Ok_0, order);
}

/// Appends `line` to `out` as one more line.
fn push_line(out: &mut Vec<char>, line: &Vec<char>, Ghost(written): Ghost<Seq<Seq<char>>>)
    requires
        old(out)@ == joined(written),
    ensures
        final(out)@ == joined(written.push(line@)),
{
    push_text(out, line.as_slice());
    out.push('\r');
    out.push('\n');
    proof {
        let grown = written.push(line@);
        assert(grown.drop_last() == written);
        assert(grown.last() == line@);
        assert(out@ == joined(written) + line@ + seq!['\r', '\n']);
    }
}

/// Appends a comma and `word` to `line`, which holds `words` so far.
fn push_word(line: &mut Vec<char>, word: &str, Ghost(id): Ghost<char>, Ghost(words): Ghost<Seq<Seq<char>>>)
    requires
        words.len() > 0,
        old(line)@ == seq![id] + separated(words, ','),
    ensures
        final(line)@ == seq![id] + separated(words.push(word@), ','),
{
    line.push(',');
    let chars = to_chars(word);
    push_text(line, chars.as_slice());
    proof {
        let grown = words.push(word@);
        assert(grown.drop_last() == words);
        assert(grown.last() == word@);
        assert(line@ == seq![id] + (separated(words, ',') + seq![','] + word@));
    }
}

/// The legend line that gives `def` to the symbol `id`.
fn legend_line(id: char, def: &CustomTile) -> (line: Vec<char>)
    ensures
        line@ == legend_text(id, def@),
{
    let mut line: Vec<char> = Vec::new();
    line.push(id);
    let name = to_chars(def.tex_path.as_str());
    push_text(&mut line, name.as_slice());
    let ghost mut words = seq![def@.tex_path];
    assert(separated(words, ',') == def@.tex_path);
    assert(line@ == seq![id] + separated(words, ','));
    if def.collidable {
        push_word(&mut line, "collide", Ghost(id), Ghost(words));
        proof {
            words = words.push("collide"@);
        }
    }
    if def.half_width {
        push_word(&mut line, "half_width", Ghost(id), Ghost(words));
        proof {
            words = words.push("half_width"@);
        }
    }
    if def.half_height {
        push_word(&mut line, "half_height", Ghost(id), Ghost(words));
        proof {
            words = words.push("half_height"@);
        }
    }
    assert(words == seq![def@.tex_path] + flag_words(def@));
    line
}

/// The line that declares `meta`.
fn meta_line_text(meta: Meta) -> (line: Vec<char>)
    ensures
        line@ == meta_text(meta),
{
    match meta {
        Meta::Fog { dof, color } => {
            let mut line = to_chars("fog");
            line.push(',');
            let key = to_chars("dof");
            push_text(&mut line, key.as_slice());
            line.push('=');
            push_decimal(&mut line, dof);
            line.push(',');
            let key = to_chars("color");
            push_text(&mut line, key.as_slice());
            line.push('=');
            line.push('#');
            push_hex_pair(&mut line, color.r);
            push_hex_pair(&mut line, color.g);
            push_hex_pair(&mut line, color.b);
            proof {
                let words = meta_words(meta);
                let depth = "dof"@ + seq!['='] + decimal(dof);
                let tint = "color"@ + seq!['='] + color_text(color);
                let two = words.drop_last();
                assert(two == seq!["fog"@, depth]);
                assert(two.drop_last() == seq!["fog"@]);
                assert(separated(two.drop_last(), ',') == "fog"@);
                assert(separated(two, ',') == "fog"@ + seq![','] + depth);
                assert(separated(words, ',') == "fog"@ + seq![','] + depth + seq![','] + tint);
                assert(line@ == "fog"@ + seq![','] + depth + seq![','] + tint);
            }
            line
        },
    }
}

/// The symbol that stands for `tile` in a grid.
fn symbol(tile: Tile) -> (c: char)
    ensures
        c == symbol_of(tile),
{
    match tile {
        Tile::Empty => ' ',
        Tile::Spawn => '*',
        Tile::Custom(id) => id,
    }
}

impl TileMap {
    /// The grid line of the row `row`.
    fn row_line(&self, row: usize) -> (line: Vec<char>)
        requires
            row < self@.height,
        ensures
            line@ == row_text(self@, row as int),
    {
        proof {
            use_type_invariant(self);
        }
        let tiles = self.tiles();
        let width = self.width();
        let len = tiles.len();
        assert(0 <= row * width && row * width + width <= len) by (nonlinear_arith)
            requires
                0 <= row < self@.height,
                width == self@.width,
                len == self@.width * self@.height,
        ;
        let start = row * width;
        let mut line: Vec<char> = Vec::new();
        let mut k: usize = 0;
        while k < width
            invariant
                k <= width,
                width == self@.width,
                start == row * width,
                start + width <= tiles@.len() <= usize::MAX,
                tiles@ == self@.cells,
                line@ == row_text(self@, row as int).take(k as int),
            decreases width - k,
        {
            line.push(symbol(tiles[start + k]));
            assert(row_text(self@, row as int).take(k + 1) == row_text(self@, row as int).take(
                k as int,
            ).push(symbol_of(self@.cells[row * width + k])));
            k += 1;
        }
        assert(row_text(self@, row as int).take(width as int) == row_text(self@, row as int));
        line
    }

    /// Writes the map as source text: a meta section that declares the scene
    /// attributes, if there are any, and a main section with the legend and
    /// the grid, if the map has cells. The legend's lines come in the order
    /// in which the symbols were declared first. Loading the text gives the
    /// map back.
    pub fn to_source(&self) -> (text: String)
        ensures
            text@ == source_of(self@, self.order()),
            parse(text@) == Ok::<TileMapView, LoadError>(self@),
    {
        proof {
            use_type_invariant(self);
            lemma_source_reads_back(self@, self.order());
        }
        let mut out: Vec<char> = Vec::new();
        let ghost mut written: Seq<Seq<char>> = Seq::empty();
        let empty_line: Vec<char> = Vec::new();

        let metas = self.meta();
        if metas.len() > 0 {
            let header = to_chars("!!!!META");
            push_line(&mut out, &header, Ghost(written));
            proof {
                written = written.push(header@);
            }
            let mut i: usize = 0;
            while i < metas.len()
                invariant
                    i <= metas@.len(),
                    metas@ == self@.meta,
                    out@ == joined(written),
                    written == seq!["!!!!META"@] + Seq::new(
                        i as nat,
                        |k: int| meta_text(self@.meta[k]),
                    ),
                decreases metas@.len() - i,
            {
                let line = meta_line_text(metas[i]);
                push_line(&mut out, &line, Ghost(written));
                proof {
                    written = written.push(line@);
                }
                i += 1;
            }
            push_line(&mut out, &empty_line, Ghost(written));
            proof {
                written = written.push(empty_line@);
                assert(written == meta_part(self@.meta));
            }
        }
        assert(written == meta_part(self@.meta));

        if self.height() > 0 {
            let ghost before = written;
            let header = to_chars("!!!!MAIN");
            push_line(&mut out, &header, Ghost(written));
            proof {
                written = written.push(header@);
            }
            let symbols = self.symbols();
            let mut i: usize = 0;
            while i < symbols.len()
                invariant
                    i <= symbols@.len(),
                    symbols@ == self.order(),
                    lists(symbols@, self@.legend),
                    out@ == joined(written),
                    written == before + (seq!["!!!!MAIN"@] + Seq::new(
                        i as nat,
                        |k: int| legend_text(self.order()[k], self@.legend[self.order()[k]]),
                    )),
                decreases symbols@.len() - i,
            {
                let id = symbols[i];
                assert(symbols@.contains(id));
                match self.definition(id) {
                    Some(def) => {
                        let line = legend_line(id, def);
                        push_line(&mut out, &line, Ghost(written));
                        proof {
                            written = written.push(line@);
                        }
                    },
                    None => {
                        assert(false);
                    },
                }
                i += 1;
            }
            push_line(&mut out, &empty_line, Ghost(written));
            proof {
                written = written.push(empty_line@);
            }
            let ghost legend_done = written;
            let height = self.height();
            let mut row: usize = 0;
            while row < height
                invariant
                    row <= height,
                    height == self@.height,
                    out@ == joined(written),
                    written == legend_done + Seq::new(row as nat, |r: int| row_text(self@, r)),
                decreases height - row,
            {
                let line = self.row_line(row);
                push_line(&mut out, &line, Ghost(written));
                proof {
                    written = written.push(line@);
                }
                row += 1;
            }
            assert(written == before + main_part(self@, self.order()));
        } else {
            assert(main_part(self@, self.order()) == Seq::<Seq<char>>::empty());
            assert(written + Seq::<Seq<char>>::empty() == written);
        }
        assert(written == source_lines(self@, self.order()));
        to_text(out.as_slice())
    }
}

} // verus!
