//! Tile paths: `<root>/<zoom>/<x>/<y>.png`.
//!
//! The same layout is read and written. Relative to the dataset root a tile
//! is named `<zoom>/<x>/<y>.png`; its coordinates are the second and the
//! third segment of that name.

use crate::decimal::append_decimal;
use crate::decimal::decimal;
use crate::decimal::lemma_decimal_is_digits;
use crate::decimal::lemma_parse_decimal;
use crate::decimal::parse_digits;
use crate::decimal::parse_u32;
use vstd::prelude::*;

verus! {

/// Why a tile name does not follow the layout.
#[derive(Debug, Clone, Copy, PartialEq, Eq, Structural)]
pub enum PathError {
    /// The name has fewer than three segments.
    MissingSegment,
    /// The second or the third segment is no number that fits in 32 bits.
    InvalidNumber,
}

/// The extension of a tile file, dot included.
pub open spec fn png_suffix() -> Seq<char> {
    seq!['.', 'p', 'n', 'g']
}

/// No element of `s` is the separator `/`.
pub open spec fn separator_free(s: Seq<char>) -> bool {
    forall|i: int| 0 <= i < s.len() ==> #[trigger] s[i] != '/'
}

/// Length of the part of `s` before its first separator, or of all of `s`
/// where it has none.
pub open spec fn first_segment_len(s: Seq<char>) -> nat
    decreases s.len(),
{
    if s.len() == 0 || s[0] == '/' {
        0
    } else {
        1 + first_segment_len(s.skip(1))
    }
}

/// The parts of `s` between its separators, empty ones included. A sequence
/// with `n` separators has `n + 1` segments.
pub open spec fn segments(s: Seq<char>) -> Seq<Seq<char>>
    decreases s.len(),
{
    let n = first_segment_len(s) as int;
    if n >= s.len() {
        seq![s]
    } else {
        seq![s.take(n)] + segments(s.skip(n + 1))
    }
}

/// The coordinates that a relative tile name, extension removed, denotes.
/// The first segment is the level and is not looked at; segments after the
/// third are ignored.
pub open spec fn image_path_coords(path: Seq<char>) -> Result<(u32, u32), PathError> {
    let parts = segments(path);
    if parts.len() < 3 {
        Err(PathError::MissingSegment)
    } else {
        match (parse_u32(parts[1]), parse_u32(parts[2])) {
            (Some(x), Some(y)) => Ok((x, y)),
            _ => Err(PathError::InvalidNumber),
        }
    }
}

/// `path` without the extension `.png`, where it ends in it.
pub open spec fn without_png_suffix(path: Seq<char>) -> Option<Seq<char>> {
    if path.len() >= 4 && path.skip(path.len() - 4) == png_suffix() {
        Some(path.take(path.len() - 4))
    } else {
        None
    }
}

/// Directory of a zoom level: `<root>/<zoom>`.
pub open spec fn level_dir_of(root: Seq<char>, zoom: nat) -> Seq<char> {
    root + seq!['/'] + decimal(zoom)
}

/// Directory of one column of a level: `<root>/<zoom>/<x>`.
pub open spec fn column_dir_of(root: Seq<char>, zoom: nat, x: nat) -> Seq<char> {
    level_dir_of(root, zoom) + seq!['/'] + decimal(x)
}

/// File of a tile: `<root>/<zoom>/<x>/<y>.png`.
pub open spec fn tile_path_of(root: Seq<char>, zoom: nat, x: nat, y: nat) -> Seq<char> {
    column_dir_of(root, zoom, x) + seq!['/'] + decimal(y) + png_suffix()
}

/// The length of the first segment is the position of the first separator.
pub proof fn lemma_first_segment_len(s: Seq<char>, n: int)
    requires
        0 <= n <= s.len(),
        separator_free(s.take(n)),
        n < s.len() ==> s[n] == '/',
    ensures
        first_segment_len(s) == n,
    decreases n,
{
    if n > 0 {
        assert(s.take(n)[0] != '/');
        assert forall|i: int| 0 <= i < n - 1 implies #[trigger] s.skip(1).take(n - 1)[i] != '/' by {
            assert(s.take(n)[i + 1] != '/');
        }
        lemma_first_segment_len(s.skip(1), n - 1);
    }
}

/// A sequence without separator is its own single segment.
pub proof fn lemma_segments_single(s: Seq<char>)
    requires
        separator_free(s),
    ensures
        segments(s) == seq![s],
{
    assert(s.take(s.len() as int) =~= s);
    lemma_first_segment_len(s, s.len() as int);
}

/// A separator-free head in front of a separator is the first segment; the
/// other segments are those of what follows the separator.
pub proof fn lemma_segments_prepend(head: Seq<char>, rest: Seq<char>)
    requires
        separator_free(head),
    ensures
        segments(head + seq!['/'] + rest) == seq![head] + segments(rest),
{
    let s = head + seq!['/'] + rest;
    let n = head.len() as int;
    assert(s.take(n) =~= head);
    assert(s[n] == '/');
    lemma_first_segment_len(s, n);
    assert(s.skip(n + 1) =~= rest);
}

/// Digits are no separators.
pub proof fn lemma_decimal_separator_free(n: nat)
    ensures
        separator_free(decimal(n)),
{
    lemma_decimal_is_digits(n);
    assert forall|i: int| 0 <= i < decimal(n).len() implies #[trigger] decimal(n)[i] != '/' by {
        assert(crate::decimal::is_digit(decimal(n)[i]));
    }
}

/// Parsing recovers the coordinates a tile name was built from: for every
/// level segment without separator and all coordinates `x` and `y`, the name
/// `<level>/<x>/<y>` denotes `(x, y)`, and adding the extension `.png` and
/// removing it again leaves the name as it was.
pub proof fn lemma_tile_name_round_trip(level: Seq<char>, x: u32, y: u32)
    requires
        separator_free(level),
    ensures
        image_path_coords(level + seq!['/'] + decimal(x as nat) + seq!['/'] + decimal(y as nat))
            == Ok::<(u32, u32), PathError>((x, y)),
        without_png_suffix(
            level + seq!['/'] + decimal(x as nat) + seq!['/'] + decimal(y as nat) + png_suffix(),
        ) == Some(level + seq!['/'] + decimal(x as nat) + seq!['/'] + decimal(y as nat)),
{
    let dx = decimal(x as nat);
    let dy = decimal(y as nat);
    let name = level + seq!['/'] + dx + seq!['/'] + dy;
    lemma_decimal_separator_free(x as nat);
    lemma_decimal_separator_free(y as nat);
    lemma_parse_decimal(x);
    lemma_parse_decimal(y);
    assert(name =~= level + seq!['/'] + (dx + seq!['/'] + dy));
    lemma_segments_prepend(level, dx + seq!['/'] + dy);
    lemma_segments_prepend(dx, dy);
    lemma_segments_single(dy);
    assert(segments(name) =~= seq![level, dx, dy]);
    let full = name + png_suffix();
    assert(full.skip(full.len() - 4) =~= png_suffix());
    assert(full.take(full.len() - 4) =~= name);
}

/// The characters of a string.
pub fn chars_of(text: &str) -> (chars: Vec<char>)
    ensures
        chars@ == text@,
{
    let mut chars: Vec<char> = Vec::new();
    for c in it: text.chars()
        invariant
            chars@ == it.seq().take(it.index() as int),
            it.seq() == text@,
    {
        chars.push(c);
    }
    chars
}

/// Where the segments of `chars[..end]` begin and end.
fn segment_bounds(chars: &Vec<char>, end: usize) -> (bounds: Vec<(usize, usize)>)
    requires
        end <= chars@.len(),
    ensures
        bounds@.len() == segments(chars@.take(end as int)).len(),
        forall|k: int|
            0 <= k < bounds@.len() ==> {
                let (from, to) = #[trigger] bounds@[k];
                &&& from <= to <= end
                &&& segments(chars@.take(end as int))[k] == chars@.subrange(from as int, to as int)
            },
{
    let ghost s = chars@.take(end as int);
    let mut bounds: Vec<(usize, usize)> = Vec::new();
    let ghost mut done: Seq<Seq<char>> = Seq::empty();
    let mut from: usize = 0;
    let mut i: usize = 0;
    assert(s.skip(0) =~= s);
    while i < end
        invariant
            from <= i <= end <= chars@.len(),
            s == chars@.take(end as int),
            separator_free(s.subrange(from as int, i as int)),
            segments(s) == done + segments(s.skip(from as int)),
            bounds@.len() == done.len(),
            forall|k: int|
                0 <= k < bounds@.len() ==> {
                    let (a, b) = #[trigger] bounds@[k];
                    &&& a <= b <= end
                    &&& done[k] == chars@.subrange(a as int, b as int)
                },
        decreases end - i,
    {
        if chars[i] == '/' {
            proof {
                let tail = s.skip(from as int);
                let n = i - from;
                assert(tail.take(n) =~= s.subrange(from as int, i as int));
                assert(tail[n] == '/');
                lemma_first_segment_len(tail, n);
                assert(tail.skip(n + 1) =~= s.skip(i + 1));
                assert(tail.take(n) =~= chars@.subrange(from as int, i as int));
                done = done.push(tail.take(n));
                assert(segments(s) =~= done + segments(s.skip(i + 1)));
            }
            bounds.push((from, i));
            from = i + 1;
            assert(s.subrange(from as int, from as int) =~= Seq::<char>::empty());
        } else {
            assert forall|k: int| 0 <= k < i + 1 - from implies #[trigger] s.subrange(
                from as int,
                i + 1,
            )[k] != '/' by {
                if k < i - from {
                    assert(s.subrange(from as int, i as int)[k] != '/');
                }
            }
        }
        i += 1;
    }
    proof {
        let tail = s.skip(from as int);
        assert(tail =~= s.subrange(from as int, end as int));
        lemma_segments_single(tail);
        assert(tail =~= chars@.subrange(from as int, end as int));
        done = done.push(tail);
        assert(segments(s) =~= done);
    }
    bounds.push((from, end));
    bounds
}

/// Reads the coordinates out of the first `end` characters of a relative
/// tile name.
fn coords_in(chars: &Vec<char>, end: usize) -> (coords: Result<(u32, u32), PathError>)
    requires
        end <= chars@.len(),
    ensures
        coords == image_path_coords(chars@.take(end as int)),
{
    let bounds = segment_bounds(chars, end);
    if bounds.len() < 3 {
        return Err(PathError::MissingSegment);
    }
    let (x_from, x_to) = bounds[1];
    let (y_from, y_to) = bounds[2];
    match parse_digits(chars, x_from, x_to) {
        Some(x) => match parse_digits(chars, y_from, y_to) {
            Some(y) => Ok((x, y)),
            None => Err(PathError::InvalidNumber),
        },
        None => Err(PathError::InvalidNumber),
    }
}

/// Reads the coordinates of a tile out of its name relative to the dataset
/// root, extension removed: `<zoom>/<x>/<y>`.
///
/// The level segment is not looked at. A name with fewer than three segments,
/// or whose second or third segment is no number, is refused.
pub fn parse_image_path(image_path: &str) -> (coords: Result<(u32, u32), PathError>)
    ensures
        coords == image_path_coords(image_path@),
{
    let chars = chars_of(image_path);
    assert(chars@.take(chars@.len() as int) =~= chars@);
    coords_in(&chars, chars.len())
}

/// Length of `chars` without the extension `.png`, where it ends in it.
fn stem_len(chars: &Vec<char>) -> (len: Option<usize>)
    ensures
        match len {
            Some(n) => n + 4 == chars@.len() && without_png_suffix(chars@) == Some(
                chars@.take(n as int),
            ),
            None => without_png_suffix(chars@) is None,
        },
{
    let n = chars.len();
    if n < 4 {
        return None;
    }
    let ghost tail = chars@.skip(n - 4);
    assert(tail.len() == 4 && tail[0] == chars@[n - 4] && tail[1] == chars@[n - 3] && tail[2]
        == chars@[n - 2] && tail[3] == chars@[n - 1]);
    if chars[n - 4] == '.' && chars[n - 3] == 'p' && chars[n - 2] == 'n' && chars[n - 1] == 'g' {
        assert(tail =~= png_suffix());
        Some(n - 4)
    } else {
        assert(tail != png_suffix()) by {
            if tail == png_suffix() {
                assert(png_suffix()[0] == '.' && png_suffix()[1] == 'p' && png_suffix()[2] == 'n'
                    && png_suffix()[3] == 'g');
            }
        }
        None
    }
}

/// Reads the coordinates of a tile out of its file name relative to the
/// dataset root: `<zoom>/<x>/<y>.png`. A name that does not end in `.png`
/// names no tile and gives `None`.
pub fn parse_tile_file(image_path: &str) -> (coords: Option<Result<(u32, u32), PathError>>)
    ensures
        coords == match without_png_suffix(image_path@) {
            Some(stem) => Some(image_path_coords(stem)),
            None => None,
        },
{
    let chars = chars_of(image_path);
    match stem_len(&chars) {
        Some(end) => Some(coords_in(&chars, end)),
        None => None,
    }
}

/// Whether `name` ends in `.png`, with at least one character before it.
pub open spec fn is_tile_file_name(name: Seq<char>) -> bool {
    name.len() > 4 && name.skip(name.len() - 4) == png_suffix()
}

/// Whether a file name has the extension `png`: it ends in `.png` and has at
/// least one character before the dot.
pub fn has_png_extension(name: &str) -> (yes: bool)
    ensures
        yes == is_tile_file_name(name@),
{
    let chars = chars_of(name);
    match stem_len(&chars) {
        Some(end) => end > 0,
        None => false,
    }
}

/// The directory of a zoom level: `<root>/<zoom>`.
pub fn level_dir(root: &str, zoom: u8) -> (dir: String)
    ensures
        dir@ == level_dir_of(root@, zoom as nat),
{
    let mut dir = String::from_str(root);
    proof {
        reveal_strlit("/");
    }
    dir.append("/");
    append_decimal(&mut dir, zoom as u32);
    assert(dir@ =~= level_dir_of(root@, zoom as nat));
    dir
}

/// The directory of one column of a level: `<root>/<zoom>/<x>`.
pub fn column_dir(root: &str, zoom: u8, x: u32) -> (dir: String)
    ensures
        dir@ == column_dir_of(root@, zoom as nat, x as nat),
{
    let mut dir = level_dir(root, zoom);
    proof {
        reveal_strlit("/");
    }
    dir.append("/");
    append_decimal(&mut dir, x);
    assert(dir@ =~= column_dir_of(root@, zoom as nat, x as nat));
    dir
}

/// The file of a tile: `<root>/<zoom>/<x>/<y>.png`.
pub fn tile_path(root: &str, zoom: u8, x: u32, y: u32) -> (path: String)
    ensures
        path@ == tile_path_of(root@, zoom as nat, x as nat, y as nat),
{
    let mut path = column_dir(root, zoom, x);
    proof {
        reveal_strlit("/");
        reveal_strlit(".png");
    }
    path.append("/");
    append_decimal(&mut path, y);
    path.append(".png");
    assert(path@ =~= tile_path_of(root@, zoom as nat, x as nat, y as nat));
    path
}

} // verus!
