//! The textual pixel-map format: a header line `<width> <height> <palette size>`,
//! one palette line per entry (`<key> ... <#RRGGBB|None|none>`), then one line
//! of at least `width` key characters per pixel row.
use vstd::prelude::*;

use crate::text::{
    chars_of, normalize_line_endings, normalized, split_at_line_feeds, split_lines,
    split_tokens, tokens, views,
};

verus! {

/// An opaque colour, one byte per channel.
#[derive(Clone, Copy, Debug, PartialEq, Eq, Structural)]
pub struct Rgb {
    pub r: u8,
    pub g: u8,
    pub b: u8,
}

/// One palette line: its key character, and its colour (`None` for a
/// transparent entry).
#[derive(Clone, Copy, Debug)]
pub struct PaletteEntry {
    pub key: char,
    pub color: Option<Rgb>,
}

/// An opaque pixel of a pixel map: its row, its column and its colour.
#[derive(Clone, Copy, Debug, PartialEq, Eq, Structural)]
pub struct Pixel {
    pub row: usize,
    pub col: usize,
    pub color: Rgb,
}

/// A parsed pixel map: its dimensions and its opaque pixels in row-major
/// order.
#[derive(Clone, Debug, PartialEq, Eq)]
pub struct PixelMap {
    pub width: usize,
    pub height: usize,
    pub pixels: Vec<Pixel>,
}

pub ghost struct PixelMapView {
    pub width: nat,
    pub height: nat,
    pub pixels: Seq<Pixel>,
}

impl View for PixelMap {
    type V = PixelMapView;

    open spec fn view(&self) -> PixelMapView {
        PixelMapView { width: self.width as nat, height: self.height as nat, pixels: self.pixels@ }
    }
}

/// What is wrong with a line of a malformed pixel map.
#[derive(Clone, Copy, Debug, PartialEq, Eq, Structural)]
pub enum MalformedReason {
    /// The text ends before this line.
    MissingLine,
    /// The header holds fewer than three tokens.
    MissingDimensions,
    /// A header token is not a positive integer that fits in `usize`.
    InvalidDimension,
    /// A palette line is empty, so it names no key.
    MissingPaletteKey,
    /// A palette line holds no token to read a colour from.
    MissingColor,
    /// A palette colour is neither `None`, `none` nor `#RRGGBB`.
    InvalidColor,
    /// A pixel row holds fewer characters than the width.
    RowTooShort,
}

/// The error of the parser: the index of the offending line (after line
/// endings are normalised) and what is wrong with it.
#[derive(Clone, Copy, Debug, PartialEq, Eq, Structural)]
pub struct MalformedPixelMap {
    pub line: usize,
    pub reason: MalformedReason,
}

pub open spec fn is_digit(c: char) -> bool {
    48 <= (c as u32) && (c as u32) <= 57
}

pub open spec fn all_digits(s: Seq<char>) -> bool {
    forall|i: int| 0 <= i < s.len() ==> is_digit(#[trigger] s[i])
}

/// The number that the decimal digits `s` write.
pub open spec fn decimal_value(s: Seq<char>) -> nat
    decreases s.len(),
{
    if s.len() == 0 {
        0
    } else {
        decimal_value(s.drop_last()) * 10 + ((s.last() as u32) - 48) as nat
    }
}

/// The value of `s` read as a positive decimal integer that fits in `usize`.
pub open spec fn positive_value(s: Seq<char>) -> Option<nat> {
    if s.len() > 0 && all_digits(s) && 0 < decimal_value(s) <= usize::MAX {
        Some(decimal_value(s))
    } else {
        None
    }
}

/// The value of a hexadecimal digit, in either case.
pub open spec fn hex_value(c: char) -> Option<nat> {
    let u = c as u32;
    if 48 <= u <= 57 {
        Some((u - 48) as nat)
    } else if 97 <= u <= 102 {
        Some((u - 87) as nat)
    } else if 65 <= u <= 70 {
        Some((u - 55) as nat)
    } else {
        None
    }
}

pub open spec fn hex_pair(s: Seq<char>, i: int) -> nat {
    match (hex_value(s[i]), hex_value(s[i + 1])) {
        (Some(hi), Some(lo)) => hi * 16 + lo,
        _ => 0,
    }
}

/// The colour that a `#RRGGBB` token writes.
pub open spec fn hex_color(t: Seq<char>) -> Option<Rgb> {
    if t.len() == 7 && t[0] == '#' && (forall|i: int| 1 <= i < 7 ==> (#[trigger] hex_value(t[i])) is Some) {
        Some(Rgb { r: hex_pair(t, 1) as u8, g: hex_pair(t, 3) as u8, b: hex_pair(t, 5) as u8 })
    } else {
        None
    }
}

pub open spec fn is_none_word(t: Seq<char>) -> bool {
    t == seq!['N', 'o', 'n', 'e'] || t == seq!['n', 'o', 'n', 'e']
}

/// A palette line: its first character is the key, its last token the colour.
pub open spec fn palette_entry(line: Seq<char>) -> Result<PaletteEntry, MalformedReason> {
    if line.len() == 0 {
        Err(MalformedReason::MissingPaletteKey)
    } else if tokens(line).len() == 0 {
        Err(MalformedReason::MissingColor)
    } else if is_none_word(tokens(line).last()) {
        Ok(PaletteEntry { key: line[0], color: None })
    } else {
        match hex_color(tokens(line).last()) {
            Some(c) => Ok(PaletteEntry { key: line[0], color: Some(c) }),
            None => Err(MalformedReason::InvalidColor),
        }
    }
}

/// The colour of `key`: that of the last coloured entry with that key.
/// Transparent entries give no colour and take none away.
pub open spec fn palette_color(entries: Seq<PaletteEntry>, key: char) -> Option<Rgb>
    decreases entries.len(),
{
    if entries.len() == 0 {
        None
    } else if entries.last().key == key && entries.last().color is Some {
        entries.last().color
    } else {
        palette_color(entries.drop_last(), key)
    }
}

pub open spec fn malformed(line: int, reason: MalformedReason) -> MalformedPixelMap {
    MalformedPixelMap { line: line as usize, reason }
}

/// The `n` palette entries from line `start` on, or the first line that fails.
pub open spec fn palette_entries(lines: Seq<Seq<char>>, start: int, n: nat) -> Result<
    Seq<PaletteEntry>,
    MalformedPixelMap,
>
    decreases n,
{
    if n == 0 {
        Ok(Seq::empty())
    } else {
        match palette_entries(lines, start, (n - 1) as nat) {
            Err(e) => Err(e),
            Ok(es) => {
                let li = start + n - 1;
                if li >= lines.len() {
                    Err(malformed(li, MalformedReason::MissingLine))
                } else {
                    match palette_entry(lines[li]) {
                        Err(reason) => Err(malformed(li, reason)),
                        Ok(e) => Ok(es.push(e)),
                    }
                }
            },
        }
    }
}

/// The first of the `n` pixel rows from line `start` on that is missing or
/// shorter than `width`.
pub open spec fn row_error(lines: Seq<Seq<char>>, start: int, width: nat, n: nat) -> Option<
    MalformedPixelMap,
>
    decreases n,
{
    if n == 0 {
        None
    } else {
        match row_error(lines, start, width, (n - 1) as nat) {
            Some(e) => Some(e),
            None => {
                let li = start + n - 1;
                if li >= lines.len() {
                    Some(malformed(li, MalformedReason::MissingLine))
                } else if lines[li].len() < width {
                    Some(malformed(li, MalformedReason::RowTooShort))
                } else {
                    None
                }
            },
        }
    }
}

/// The opaque pixels among the first `n` columns of pixel row `row`.
pub open spec fn row_pixels(line: Seq<char>, row: nat, n: nat, palette: Seq<PaletteEntry>) -> Seq<
    Pixel,
>
    decreases n,
{
    if n == 0 {
        Seq::empty()
    } else {
        let prev = row_pixels(line, row, (n - 1) as nat, palette);
        match palette_color(palette, line[n - 1]) {
            Some(c) => prev.push(Pixel { row: row as usize, col: (n - 1) as usize, color: c }),
            None => prev,
        }
    }
}

/// The opaque pixels of the first `n` pixel rows, row by row.
pub open spec fn opaque_pixels(
    lines: Seq<Seq<char>>,
    start: int,
    width: nat,
    n: nat,
    palette: Seq<PaletteEntry>,
) -> Seq<Pixel>
    decreases n,
{
    if n == 0 {
        Seq::empty()
    } else {
        opaque_pixels(lines, start, width, (n - 1) as nat, palette) + row_pixels(
            lines[start + n - 1],
            (n - 1) as nat,
            width,
            palette,
        )
    }
}

/// What parsing `text` gives when the header stands on line `header_line`.
pub open spec fn parse_model(text: Seq<char>, header_line: nat) -> Result<
    PixelMapView,
    MalformedPixelMap,
> {
    let lines = split_lines(normalized(text));
    if header_line >= lines.len() {
        Err(malformed(header_line as int, MalformedReason::MissingLine))
    } else {
        let toks = tokens(lines[header_line as int]);
        if toks.len() < 3 {
            Err(malformed(header_line as int, MalformedReason::MissingDimensions))
        } else {
            match (positive_value(toks[0]), positive_value(toks[1]), positive_value(toks[2])) {
                (Some(width), Some(height), Some(count)) => {
                    let start = header_line + 1int;
                    match palette_entries(lines, start, count) {
                        Err(e) => Err(e),
                        Ok(palette) => {
                            let first_row = start + count as int;
                            match row_error(lines, first_row, width, height) {
                                Some(e) => Err(e),
                                None => Ok(
                                    PixelMapView {
                                        width,
                                        height,
                                        pixels: opaque_pixels(
                                            lines,
                                            first_row,
                                            width,
                                            height,
                                            palette,
                                        ),
                                    },
                                ),
                            }
                        },
                    }
                },
                _ => Err(malformed(header_line as int, MalformedReason::InvalidDimension)),
            }
        }
    }
}

pub open spec fn parsed_view(r: Result<PixelMap, MalformedPixelMap>) -> Result<
    PixelMapView,
    MalformedPixelMap,
> {
    match r {
        Ok(m) => Ok(m@),
        Err(e) => Err(e),
    }
}

impl PixelMapView {
    /// Positive dimensions, every pixel inside them, and at most one pixel
    /// per cell.
    pub open spec fn well_formed(self) -> bool {
        &&& 1 <= self.width <= usize::MAX
        &&& 1 <= self.height <= usize::MAX
        &&& self.pixels.len() <= self.width * self.height
        &&& forall|i: int|
            0 <= i < self.pixels.len() ==> (#[trigger] self.pixels[i]).row < self.height
                && self.pixels[i].col < self.width
    }
}

proof fn lemma_decimal_monotone(s: Seq<char>, i: int)
    requires
        0 <= i <= s.len(),
    ensures
        decimal_value(s.subrange(0, i)) <= decimal_value(s),
    decreases s.len(),
{
    if i < s.len() {
        assert(s.drop_last().subrange(0, i) =~= s.subrange(0, i));
        lemma_decimal_monotone(s.drop_last(), i);
    } else {
        assert(s.subrange(0, i) =~= s);
    }
}

/// Reads a positive decimal integer that fits in `usize`.
pub fn parse_positive(t: &Vec<char>) -> (r: Option<usize>)
    ensures
        r matches Some(v) ==> positive_value(t@) == Some(v as nat),
        r is None ==> positive_value(t@) is None,
{
    if t.len() == 0 {
        return None;
    }
    let mut acc: usize = 0;
    let mut i: usize = 0;
    while i < t.len()
        invariant
            i <= t.len(),
            acc == decimal_value(t@.subrange(0, i as int)),
            all_digits(t@.subrange(0, i as int)),
        decreases t.len() - i,
    {
        let c = t[i];
        let ghost prefix = t@.subrange(0, i + 1);
        assert(prefix.drop_last() =~= t@.subrange(0, i as int));
        if !((c as u32) >= 48 && (c as u32) <= 57) {
            assert(!is_digit(t@[i as int]));
            return None;
        }
        let d = ((c as u32) - 48) as usize;
        if acc > (usize::MAX - d) / 10 {
            assert(acc * 10 + d > usize::MAX) by (nonlinear_arith)
                requires
                    acc > (usize::MAX - d) / 10,
                    d <= 9,
            ;
            proof {
                lemma_decimal_monotone(t@, i + 1);
            }
            return None;
        }
        assert(acc * 10 + d <= usize::MAX) by (nonlinear_arith)
            requires
                acc <= (usize::MAX - d) / 10,
                d <= 9,
        ;
        acc = acc * 10 + d;
        i = i + 1;
        assert(all_digits(t@.subrange(0, i as int))) by {
            assert forall|j: int| 0 <= j < i implies is_digit(#[trigger] t@.subrange(0, i as int)[j]) by {
                if j < i - 1 {
                    assert(t@.subrange(0, i as int)[j] == t@.subrange(0, i - 1)[j]);
                }
            }
        }
    }
    assert(t@.subrange(0, t@.len() as int) =~= t@);
    if acc == 0 {
        None
    } else {
        Some(acc)
    }
}

fn hex_digit(c: char) -> (r: Option<u8>)
    ensures
        r matches Some(v) ==> hex_value(c) == Some(v as nat),
        r is None ==> hex_value(c) is None,
{
    let u = c as u32;
    if 48 <= u && u <= 57 {
        Some((u - 48) as u8)
    } else if 97 <= u && u <= 102 {
        Some((u - 87) as u8)
    } else if 65 <= u && u <= 70 {
        Some((u - 55) as u8)
    } else {
        None
    }
}

/// Reads a `#RRGGBB` colour token.
pub fn parse_hex_color(t: &Vec<char>) -> (r: Option<Rgb>)
    ensures
        r == hex_color(t@),
{
    if t.len() != 7 || t[0] != '#' {
        return None;
    }
    let mut digits: Vec<u8> = Vec::new();
    let mut i: usize = 1;
    while i < 7
        invariant
            t@.len() == 7,
            1 <= i <= 7,
            digits@.len() == i - 1,
            forall|j: int| 0 <= j < i - 1 ==> hex_value(t@[j + 1]) == Some(#[trigger] digits@[j] as nat),
        decreases 7 - i,
    {
        match hex_digit(t[i]) {
            Some(v) => digits.push(v),
            None => {
                assert(hex_value(t@[i as int]) is None);
                return None;
            },
        }
        i = i + 1;
    }
    assert(forall|j: int| 1 <= j < 7 ==> (#[trigger] hex_value(t@[j])) is Some) by {
        assert forall|j: int| 1 <= j < 7 implies (#[trigger] hex_value(t@[j])) is Some by {
            assert(hex_value(t@[(j - 1) + 1]) == Some(digits@[j - 1] as nat));
        }
    }
    assert(hex_value(t@[1]) == Some(digits@[0] as nat));
    assert(hex_value(t@[2]) == Some(digits@[1] as nat));
    assert(hex_value(t@[3]) == Some(digits@[2] as nat));
    assert(hex_value(t@[4]) == Some(digits@[3] as nat));
    assert(hex_value(t@[5]) == Some(digits@[4] as nat));
    assert(hex_value(t@[6]) == Some(digits@[5] as nat));
    Some(
        Rgb {
            r: digits[0] * 16 + digits[1],
            g: digits[2] * 16 + digits[3],
            b: digits[4] * 16 + digits[5],
        },
    )
}

fn is_transparent_word(t: &Vec<char>) -> (r: bool)
    ensures
        r == is_none_word(t@),
{
    if t.len() == 4 && (t[0] == 'N' || t[0] == 'n') && t[1] == 'o' && t[2] == 'n' && t[3] == 'e' {
        if t[0] == 'N' {
            assert(t@ =~= seq!['N', 'o', 'n', 'e']);
        } else {
            assert(t@ =~= seq!['n', 'o', 'n', 'e']);
        }
        true
    } else {
        assert(seq!['N', 'o', 'n', 'e'][0] == 'N');
        assert(seq!['n', 'o', 'n', 'e'][0] == 'n');
        assert(seq!['n', 'o', 'n', 'e'][1] == 'o');
        assert(seq!['n', 'o', 'n', 'e'][2] == 'n');
        assert(seq!['n', 'o', 'n', 'e'][3] == 'e');
        assert(seq!['N', 'o', 'n', 'e'][1] == 'o');
        assert(seq!['N', 'o', 'n', 'e'][2] == 'n');
        assert(seq!['N', 'o', 'n', 'e'][3] == 'e');
        false
    }
}

/// Reads one palette line.
pub fn parse_palette_entry(line: &Vec<char>) -> (r: Result<PaletteEntry, MalformedReason>)
    ensures
        r == palette_entry(line@),
{
    if line.len() == 0 {
        return Err(MalformedReason::MissingPaletteKey);
    }
    let key = line[0];
    let toks = split_tokens(line);
    if toks.len() == 0 {
        return Err(MalformedReason::MissingColor);
    }
    let last = &toks[toks.len() - 1];
    assert(last@ == tokens(line@).last());
    if is_transparent_word(last) {
        Ok(PaletteEntry { key, color: None })
    } else {
        match parse_hex_color(last) {
            Some(c) => Ok(PaletteEntry { key, color: Some(c) }),
            None => Err(MalformedReason::InvalidColor),
        }
    }
}

/// The colour that `palette` gives `key`, if any.
pub fn lookup_color(palette: &Vec<PaletteEntry>, key: char) -> (r: Option<Rgb>)
    ensures
        r == palette_color(palette@, key),
{
    let mut i: usize = palette.len();
    assert(palette@.subrange(0, i as int) =~= palette@);
    while i > 0
        invariant
            i <= palette.len(),
            palette_color(palette@, key) == palette_color(palette@.subrange(0, i as int), key),
        decreases i,
    {
        let e = palette[i - 1];
        let ghost prefix = palette@.subrange(0, i as int);
        assert(prefix.drop_last() =~= palette@.subrange(0, i - 1));
        if e.key == key {
            match e.color {
                Some(c) => {
                    return Some(c);
                },
                None => {},
            }
        }
        i = i - 1;
    }
    None
}

proof fn lemma_palette_error_persists(lines: Seq<Seq<char>>, start: int, k: nat, n: nat)
    requires
        k <= n,
        palette_entries(lines, start, k) is Err,
    ensures
        palette_entries(lines, start, n) == palette_entries(lines, start, k),
    decreases n,
{
    if n > k {
        lemma_palette_error_persists(lines, start, k, (n - 1) as nat);
    }
}

proof fn lemma_row_error_persists(lines: Seq<Seq<char>>, start: int, width: nat, k: nat, n: nat)
    requires
        k <= n,
        row_error(lines, start, width, k) is Some,
    ensures
        row_error(lines, start, width, n) == row_error(lines, start, width, k),
    decreases n,
{
    if n > k {
        lemma_row_error_persists(lines, start, width, k, (n - 1) as nat);
    }
}

/// Reads the `count` palette lines from line `start` on.
fn parse_palette(lines: &Vec<Vec<char>>, start: usize, count: usize) -> (r: Result<
    Vec<PaletteEntry>,
    MalformedPixelMap,
>)
    requires
        start <= lines.len(),
    ensures
        r matches Ok(es) ==> palette_entries(views(lines@), start as int, count as nat) == Ok::<
            Seq<PaletteEntry>,
            MalformedPixelMap,
        >(es@) && start + count <= lines.len(),
        r matches Err(e) ==> palette_entries(views(lines@), start as int, count as nat) == Err::<
            Seq<PaletteEntry>,
            MalformedPixelMap,
        >(e),
{
    let ghost ls = views(lines@);
    let mut entries: Vec<PaletteEntry> = Vec::new();
    let mut k: usize = 0;
    while k < count
        invariant
            ls == views(lines@),
            k <= count,
            start + k <= lines.len(),
            palette_entries(ls, start as int, k as nat) == Ok::<
                Seq<PaletteEntry>,
                MalformedPixelMap,
            >(entries@),
        decreases count - k,
    {
        let li = start + k;
        if li >= lines.len() {
            let e = MalformedPixelMap { line: li, reason: MalformedReason::MissingLine };
            proof {
                lemma_palette_error_persists(ls, start as int, (k + 1) as nat, count as nat);
            }
            return Err(e);
        }
        assert(ls[li as int] == lines@[li as int]@);
        match parse_palette_entry(&lines[li]) {
            Ok(entry) => {
                entries.push(entry);
            },
            Err(reason) => {
                let e = MalformedPixelMap { line: li, reason };
                proof {
                    lemma_palette_error_persists(ls, start as int, (k + 1) as nat, count as nat);
                }
                return Err(e);
            },
        }
        k = k + 1;
    }
    Ok(entries)
}

/// Reads the `height` pixel rows from line `first_row` on and collects the
/// opaque pixels among their first `width` characters.
fn collect_pixels(
    lines: &Vec<Vec<char>>,
    first_row: usize,
    width: usize,
    height: usize,
    palette: &Vec<PaletteEntry>,
) -> (r: Result<Vec<Pixel>, MalformedPixelMap>)
    requires
        first_row <= lines.len(),
    ensures
        r matches Ok(px) ==> row_error(views(lines@), first_row as int, width as nat, height as nat)
            is None && px@ == opaque_pixels(
            views(lines@),
            first_row as int,
            width as nat,
            height as nat,
            palette@,
        ),
        r matches Err(e) ==> row_error(views(lines@), first_row as int, width as nat, height as nat)
            == Some(e),
{
    let ghost ls = views(lines@);
    let mut pixels: Vec<Pixel> = Vec::new();
    let mut h: usize = 0;
    while h < height
        invariant
            ls == views(lines@),
            h <= height,
            first_row + h <= lines.len(),
            row_error(ls, first_row as int, width as nat, h as nat) is None,
            pixels@ == opaque_pixels(ls, first_row as int, width as nat, h as nat, palette@),
        decreases height - h,
    {
        let li = first_row + h;
        if li >= lines.len() {
            let e = MalformedPixelMap { line: li, reason: MalformedReason::MissingLine };
            proof {
                lemma_row_error_persists(ls, first_row as int, width as nat, (h + 1) as nat, height as nat);
            }
            return Err(e);
        }
        let row = &lines[li];
        assert(ls[li as int] == row@);
        if row.len() < width {
            let e = MalformedPixelMap { line: li, reason: MalformedReason::RowTooShort };
            proof {
                lemma_row_error_persists(ls, first_row as int, width as nat, (h + 1) as nat, height as nat);
            }
            return Err(e);
        }
        let ghost before = pixels@;
        let mut w: usize = 0;
        while w < width
            invariant
                w <= width,
                width <= row@.len(),
                pixels@ == before + row_pixels(row@, h as nat, w as nat, palette@),
            decreases width - w,
        {
            match lookup_color(palette, row[w]) {
                Some(color) => {
                    pixels.push(Pixel { row: h, col: w, color });
                },
                None => {},
            }
            w = w + 1;
            assert(pixels@ =~= before + row_pixels(row@, h as nat, w as nat, palette@));
        }
        h = h + 1;
    }
    Ok(pixels)
}

proof fn lemma_row_pixels_bounds(line: Seq<char>, row: nat, n: nat, palette: Seq<PaletteEntry>)
    requires
        row <= usize::MAX,
        n <= usize::MAX,
    ensures
        row_pixels(line, row, n, palette).len() <= n,
        forall|i: int|
            0 <= i < row_pixels(line, row, n, palette).len() ==> (#[trigger] row_pixels(
                line,
                row,
                n,
                palette,
            )[i]).row == row && row_pixels(line, row, n, palette)[i].col < n,
    decreases n,
{
    if n > 0 {
        lemma_row_pixels_bounds(line, row, (n - 1) as nat, palette);
    }
}

proof fn lemma_opaque_pixels_bounds(
    lines: Seq<Seq<char>>,
    start: int,
    width: nat,
    n: nat,
    palette: Seq<PaletteEntry>,
)
    requires
        width <= usize::MAX,
        n <= usize::MAX,
    ensures
        opaque_pixels(lines, start, width, n, palette).len() <= width * n,
        forall|i: int|
            0 <= i < opaque_pixels(lines, start, width, n, palette).len() ==> (#[trigger] opaque_pixels(
                lines,
                start,
                width,
                n,
                palette,
            )[i]).row < n && opaque_pixels(lines, start, width, n, palette)[i].col < width,
    decreases n,
{
    if n > 0 {
        let prev = opaque_pixels(lines, start, width, (n - 1) as nat, palette);
        let last = row_pixels(lines[start + n - 1], (n - 1) as nat, width, palette);
        lemma_opaque_pixels_bounds(lines, start, width, (n - 1) as nat, palette);
        lemma_row_pixels_bounds(lines[start + n - 1], (n - 1) as nat, width, palette);
        assert(width * (n - 1) + width == width * n) by (nonlinear_arith);
        let all = opaque_pixels(lines, start, width, n, palette);
        assert(all == prev + last);
        assert forall|i: int| 0 <= i < all.len() implies (#[trigger] all[i]).row < n && all[i].col
            < width by {
            if i >= prev.len() {
                assert(all[i] == last[i - prev.len()]);
            }
        }
    }
}

/// Whatever parses has positive dimensions that fit in `usize`, and its
/// opaque pixels lie inside them, at most one per cell.
pub proof fn lemma_parsed_map_well_formed(text: Seq<char>, header_line: nat)
    requires
        parse_model(text, header_line) is Ok,
    ensures
        parse_model(text, header_line)->Ok_0.well_formed(),
{
    let lines = split_lines(normalized(text));
    let toks = tokens(lines[header_line as int]);
    let width = positive_value(toks[0])->Some_0;
    let height = positive_value(toks[1])->Some_0;
    let count = positive_value(toks[2])->Some_0;
    let palette = palette_entries(lines, header_line + 1int, count)->Ok_0;
    lemma_opaque_pixels_bounds(lines, header_line + 1 + count as int, width, height, palette);
}

/// Parses a pixel map whose header stands on line `header_line` (the lines
/// before it, such as a format line, are skipped). Line endings `\r\n` and
/// `\r` count as `\n`. Pixel characters that the palette does not colour give
/// no pixel.
pub fn parse_pixel_map(text: &str, header_line: usize) -> (r: Result<PixelMap, MalformedPixelMap>)
    ensures
        parsed_view(r) == parse_model(text@, header_line as nat),
        r matches Ok(m) ==> m@.well_formed(),
{
    let chars = chars_of(text);
    let norm = normalize_line_endings(&chars);
    let lines = split_at_line_feeds(&norm);
    let ghost ls = views(lines@);
    assert(ls == split_lines(normalized(text@)));
    if header_line >= lines.len() {
        return Err(MalformedPixelMap { line: header_line, reason: MalformedReason::MissingLine });
    }
    assert(ls[header_line as int] == lines@[header_line as int]@);
    let toks = split_tokens(&lines[header_line]);
    if toks.len() < 3 {
        return Err(
            MalformedPixelMap { line: header_line, reason: MalformedReason::MissingDimensions },
        );
    }
    assert(views(toks@)[0] == toks@[0]@);
    assert(views(toks@)[1] == toks@[1]@);
    assert(views(toks@)[2] == toks@[2]@);
    let width = parse_positive(&toks[0]);
    let height = parse_positive(&toks[1]);
    let count = parse_positive(&toks[2]);
    let (width, height, count) = match (width, height, count) {
        (Some(w), Some(h), Some(c)) => (w, h, c),
        _ => {
            return Err(
                MalformedPixelMap { line: header_line, reason: MalformedReason::InvalidDimension },
            );
        },
    };
    let start = header_line + 1;
    let palette = match parse_palette(&lines, start, count) {
        Ok(p) => p,
        Err(e) => {
            return Err(e);
        },
    };
    let first_row = start + count;
    let pixels = match collect_pixels(&lines, first_row, width, height, &palette) {
        Ok(px) => px,
        Err(e) => {
            return Err(e);
        },
    };
    let r = Ok(PixelMap { width, height, pixels });
    proof {
        lemma_parsed_map_well_formed(text@, header_line as nat);
    }
    r
}

} // verus!
