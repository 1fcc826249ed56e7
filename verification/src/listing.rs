//! The tile enumerator: which tiles a level holds.
//!
//! A level is a directory of column directories, each holding tile files.
//! The enumerator is handed what was found in those directories and names
//! every tile among it, relative to the dataset root. A tile is a regular
//! file with the extension `png`; a directory is no tile, whatever its name.
//! A level that could not be read is an empty listing and has no tiles.

use crate::decimal::append_decimal;
use crate::decimal::decimal;
use crate::path::has_png_extension;
use crate::path::is_tile_file_name;
use crate::path::without_png_suffix;
use vstd::prelude::*;

verus! {

/// One entry of a column directory.
#[derive(Debug, Clone)]
pub struct Entry {
    /// Name of the entry.
    pub name: String,
    /// Whether the entry is a regular file.
    pub is_file: bool,
}

/// One column directory of a level and what was found in it.
#[derive(Debug, Clone)]
pub struct Column {
    /// Name of the directory.
    pub name: String,
    /// The entries of the directory.
    pub entries: Vec<Entry>,
}

/// The entry is a tile: a regular file whose name ends in `.png`, with at
/// least one character before the dot.
pub open spec fn is_tile(entry: Entry) -> bool {
    entry.is_file && is_tile_file_name(entry.name@)
}

/// Name of the file `file` in the column directory `column` of level `zoom`,
/// relative to the dataset root.
pub open spec fn relative_name(zoom: nat, column: Seq<char>, file: Seq<char>) -> Seq<char> {
    decimal(zoom) + seq!['/'] + column + seq!['/'] + file
}

/// The tiles among `entries`, in the order of `entries`.
pub open spec fn column_tiles(zoom: nat, column: Seq<char>, entries: Seq<Entry>) -> Seq<Seq<char>>
    decreases entries.len(),
{
    if entries.len() == 0 {
        Seq::empty()
    } else if is_tile(entries.last()) {
        column_tiles(zoom, column, entries.drop_last()).push(
            relative_name(zoom, column, entries.last().name@),
        )
    } else {
        column_tiles(zoom, column, entries.drop_last())
    }
}

/// The tiles of a level, column after column.
pub open spec fn level_tiles(zoom: nat, columns: Seq<Column>) -> Seq<Seq<char>>
    decreases columns.len(),
{
    if columns.len() == 0 {
        Seq::empty()
    } else {
        level_tiles(zoom, columns.drop_last()) + column_tiles(
            zoom,
            columns.last().name@,
            columns.last().entries@,
        )
    }
}

/// The texts of a list of strings.
pub open spec fn texts(strings: Seq<String>) -> Seq<Seq<char>> {
    Seq::new(strings.len(), |k: int| strings[k]@)
}

/// The enumerator yields no tile that was not found: every name it gives is
/// the name of a listed regular file with the extension `png`.
pub proof fn lemma_column_tiles_are_listed(
    zoom: nat,
    column: Seq<char>,
    entries: Seq<Entry>,
    k: int,
)
    requires
        0 <= k < column_tiles(zoom, column, entries).len(),
    ensures
        exists|e: int|
            0 <= e < entries.len() && is_tile(#[trigger] entries[e]) && column_tiles(
                zoom,
                column,
                entries,
            )[k] == relative_name(zoom, column, entries[e].name@),
    decreases entries.len(),
{
    let rest = column_tiles(zoom, column, entries.drop_last());
    if k < rest.len() {
        lemma_column_tiles_are_listed(zoom, column, entries.drop_last(), k);
        let e = choose|e: int|
            0 <= e < entries.drop_last().len() && is_tile(#[trigger] entries.drop_last()[e])
                && rest[k] == relative_name(zoom, column, entries.drop_last()[e].name@);
        assert(entries[e] == entries.drop_last()[e]);
    } else {
        assert(entries[entries.len() - 1] == entries.last());
    }
}

/// The same for a whole level: every name given belongs to a listed regular
/// file of a listed column.
pub proof fn lemma_level_tiles_are_listed(zoom: nat, columns: Seq<Column>, k: int)
    requires
        0 <= k < level_tiles(zoom, columns).len(),
    ensures
        exists|c: int, e: int|
            0 <= c < columns.len() && 0 <= e < columns[c].entries@.len() && is_tile(
                #[trigger] columns[c].entries@[e],
            ) && level_tiles(zoom, columns)[k] == relative_name(
                zoom,
                columns[c].name@,
                columns[c].entries@[e].name@,
            ),
    decreases columns.len(),
{
    let before = level_tiles(zoom, columns.drop_last());
    if k < before.len() {
        lemma_level_tiles_are_listed(zoom, columns.drop_last(), k);
        let (c, e) = choose|c: int, e: int|
            0 <= c < columns.drop_last().len() && 0 <= e < columns.drop_last()[c].entries@.len()
                && is_tile(#[trigger] columns.drop_last()[c].entries@[e]) && before[k]
                == relative_name(
                zoom,
                columns.drop_last()[c].name@,
                columns.drop_last()[c].entries@[e].name@,
            );
        assert(columns[c] == columns.drop_last()[c]);
        assert(is_tile(columns[c].entries@[e]));
    } else {
        let last = columns.last();
        lemma_column_tiles_are_listed(zoom, last.name@, last.entries@, k - before.len());
        let e = choose|e: int|
            0 <= e < last.entries@.len() && is_tile(#[trigger] last.entries@[e]) && column_tiles(
                zoom,
                last.name@,
                last.entries@,
            )[k - before.len()] == relative_name(zoom, last.name@, last.entries@[e].name@);
        let c = columns.len() - 1;
        assert(columns[c] == last);
        assert(is_tile(columns[c].entries@[e]));
    }
}

/// Every name the enumerator gives ends in `.png`, so each of them is
/// planned for and none is passed over.
pub proof fn lemma_listed_tile_ends_in_png(zoom: nat, column: Seq<char>, file: Seq<char>)
    requires
        is_tile_file_name(file),
    ensures
        without_png_suffix(relative_name(zoom, column, file)) is Some,
{
    let name = relative_name(zoom, column, file);
    assert(name.skip(name.len() - 4) =~= file.skip(file.len() - 4));
}

/// Names a file of a column relative to the dataset root.
fn relative_path(zoom_level: u8, column: &str, file: &str) -> (name: String)
    ensures
        name@ == relative_name(zoom_level as nat, column@, file@),
{
    let mut name = String::new();
    proof {
        reveal_strlit("/");
    }
    append_decimal(&mut name, zoom_level as u32);
    name.append("/");
    name.append(column);
    name.append("/");
    name.append(file);
    assert(name@ =~= relative_name(zoom_level as nat, column@, file@));
    name
}

/// Lists the tiles of a level.
///
/// `columns` holds the column directories found in the directory of level
/// `zoom_level` and the entries found in each. The result names, relative to
/// the dataset root, every entry that is a regular file with the extension
/// `png`, in the order in which the entries are listed.
pub fn collect_image_paths(zoom_level: u8, columns: &Vec<Column>) -> (image_paths: Vec<String>)
    ensures
        texts(image_paths@) == level_tiles(zoom_level as nat, columns@),
{
    let mut image_paths: Vec<String> = Vec::new();
    let mut c: usize = 0;
    assert(columns@.take(0) =~= Seq::<Column>::empty());
    while c < columns.len()
        invariant
            c <= columns@.len(),
            texts(image_paths@) =~= level_tiles(zoom_level as nat, columns@.take(c as int)),
        decreases columns@.len() - c,
    {
        let column = &columns[c];
        let ghost before = texts(image_paths@);
        let mut e: usize = 0;
        assert(column.entries@.take(0) =~= Seq::<Entry>::empty());
        while e < column.entries.len()
            invariant
                c < columns@.len(),
                column == columns@[c as int],
                e <= column.entries@.len(),
                texts(image_paths@) =~= before + column_tiles(
                    zoom_level as nat,
                    column.name@,
                    column.entries@.take(e as int),
                ),
            decreases column.entries@.len() - e,
        {
            let entry = &column.entries[e];
            assert(column.entries@.take(e + 1).drop_last() =~= column.entries@.take(e as int));
            assert(column.entries@.take(e + 1).last() == *entry);
            let ghost listed = texts(image_paths@);
            if entry.is_file && has_png_extension(entry.name.as_str()) {
                let name = relative_path(zoom_level, column.name.as_str(), entry.name.as_str());
                image_paths.push(name);
                assert(texts(image_paths@) =~= listed.push(
                    relative_name(zoom_level as nat, column.name@, entry.name@),
                ));
            }
            e += 1;
        }
        assert(column.entries@.take(e as int) =~= column.entries@);
        assert(columns@.take(c + 1).drop_last() =~= columns@.take(c as int));
        assert(columns@.take(c + 1).last() == *column);
        c += 1;
    }
    assert(columns@.take(c as int) =~= columns@);
    image_paths
}

} // verus!
