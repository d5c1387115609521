//! Cell metrics and zoom: how large a cell is, how zoom steps scale it, and
//! how a stored zoom setting is read back.
use vstd::prelude::*;

verus! {

/// The size of a character cell in pixels.
#[derive(Debug, Clone, Copy, PartialEq, Eq, Structural)]
pub struct TerminalMetrics {
    pub cell_width: u32,
    pub cell_height: u32,
}

impl Default for TerminalMetrics {
    fn default() -> (r: Self)
        ensures
            r == (TerminalMetrics { cell_width: 10, cell_height: 18 }),
    {
        TerminalMetrics { cell_width: 10, cell_height: 18 }
    }
}

impl TerminalMetrics {
    /// The metrics with each side at least one pixel.
    pub fn normalized(self) -> (r: Self)
        ensures
            r.cell_width == (if self.cell_width >= 1 {
                self.cell_width
            } else {
                1
            }),
            r.cell_height == (if self.cell_height >= 1 {
                self.cell_height
            } else {
                1
            }),
    {
        TerminalMetrics {
            cell_width: if self.cell_width >= 1 {
                self.cell_width
            } else {
                1
            },
            cell_height: if self.cell_height >= 1 {
                self.cell_height
            } else {
                1
            },
        }
    }
}

/// The smallest zoom setting.
pub const MIN_ZOOM_STEPS: i16 = -4;

/// The largest zoom setting.
pub const MAX_ZOOM_STEPS: i16 = 8;

pub open spec fn spec_normalize_zoom_steps(steps: i16) -> i16 {
    if steps < MIN_ZOOM_STEPS {
        MIN_ZOOM_STEPS
    } else if steps > MAX_ZOOM_STEPS {
        MAX_ZOOM_STEPS
    } else {
        steps
    }
}

/// `steps` clamped to the zoom range.
pub fn normalize_zoom_steps(steps: i16) -> (r: i16)
    ensures
        r == spec_normalize_zoom_steps(steps),
{
    if steps < MIN_ZOOM_STEPS {
        MIN_ZOOM_STEPS
    } else if steps > MAX_ZOOM_STEPS {
        MAX_ZOOM_STEPS
    } else {
        steps
    }
}

/// The cell metrics at `zoom_steps`: one pixel wider and two taller per
/// step, at least 6 by 10 pixels.
pub open spec fn spec_scaled_metrics(base: TerminalMetrics, zoom_steps: i16) -> TerminalMetrics {
    let w = base.cell_width as i32 + zoom_steps;
    let h = base.cell_height as i32 + zoom_steps * 2;
    TerminalMetrics {
        cell_width: if w < 6 {
            6
        } else {
            w as u32
        },
        cell_height: if h < 10 {
            10
        } else {
            h as u32
        },
    }
}

pub fn scaled_metrics(base: TerminalMetrics, zoom_steps: i16) -> (r: TerminalMetrics)
    requires
        i32::MIN <= base.cell_width as i32 + zoom_steps <= i32::MAX,
        i32::MIN <= base.cell_height as i32 + zoom_steps * 2 <= i32::MAX,
    ensures
        r == spec_scaled_metrics(base, zoom_steps),
{
    let step = zoom_steps as i32;
    let w = base.cell_width as i32 + step;
    let h = base.cell_height as i32 + step * 2;
    TerminalMetrics {
        cell_width: if w < 6 {
            6
        } else {
            w as u32
        },
        cell_height: if h < 10 {
            10
        } else {
            h as u32
        },
    }
}

/// Zoom settings are clamped to the zoom range: the result lies in it, a
/// setting inside it is kept, and clamping twice is clamping once; so is
/// every setting that `parse_zoom_steps` reads.
pub proof fn lemma_zoom_clamped(steps: i16, text: Seq<char>)
    ensures
        MIN_ZOOM_STEPS <= spec_normalize_zoom_steps(steps) <= MAX_ZOOM_STEPS,
        MIN_ZOOM_STEPS <= steps <= MAX_ZOOM_STEPS ==> spec_normalize_zoom_steps(steps) == steps,
        spec_normalize_zoom_steps(spec_normalize_zoom_steps(steps)) == spec_normalize_zoom_steps(steps),
        spec_parse_zoom_steps(text) matches Some(v) ==> MIN_ZOOM_STEPS <= v <= MAX_ZOOM_STEPS,
{
}

/// Zooming never makes cells smaller than 6 by 10 pixels, and more zoom
/// steps never make them smaller.
pub proof fn lemma_scaled_metrics_monotonic(base: TerminalMetrics, a: i16, b: i16)
    requires
        a <= b,
    ensures
        spec_scaled_metrics(base, a).cell_width >= 6,
        spec_scaled_metrics(base, a).cell_height >= 10,
        base.cell_width <= i32::MAX ==> spec_scaled_metrics(base, a).cell_width <= spec_scaled_metrics(
            base,
            b,
        ).cell_width,
        base.cell_height + 2 * 0x8000 <= i32::MAX ==> spec_scaled_metrics(base, a).cell_height
            <= spec_scaled_metrics(base, b).cell_height,
{
}

/// Whether `c` is white space in Unicode (what `char::is_whitespace` tests).
pub open spec fn is_white_space(c: char) -> bool {
    let v = c as u32;
    ||| 0x09 <= v <= 0x0d
    ||| v == 0x20
    ||| v == 0x85
    ||| v == 0xa0
    ||| v == 0x1680
    ||| 0x2000 <= v <= 0x200a
    ||| v == 0x2028
    ||| v == 0x2029
    ||| v == 0x202f
    ||| v == 0x205f
    ||| v == 0x3000
}

pub fn is_white_space_char(c: char) -> (r: bool)
    ensures
        r == is_white_space(c),
{
    let v = c as u32;
    (0x09 <= v && v <= 0x0d) || v == 0x20 || v == 0x85 || v == 0xa0 || v == 0x1680 || (0x2000 <= v
        && v <= 0x200a) || v == 0x2028 || v == 0x2029 || v == 0x202f || v == 0x205f || v == 0x3000
}

/// The index of the first character at or after `i` that is not white space.
pub open spec fn trim_start(s: Seq<char>, i: int) -> int
    decreases s.len() - i,
{
    if i < 0 || i >= s.len() || !is_white_space(s[i]) {
        i
    } else {
        trim_start(s, i + 1)
    }
}

/// The index after the last character before `j` that is not white space,
/// stopping at `lo`.
pub open spec fn trim_end(s: Seq<char>, lo: int, j: int) -> int
    decreases j - lo,
{
    if j <= lo || j > s.len() || !is_white_space(s[j - 1]) {
        j
    } else {
        trim_end(s, lo, j - 1)
    }
}

/// `s` without leading and trailing white space (what `str::trim` gives).
pub open spec fn trimmed(s: Seq<char>) -> Seq<char> {
    let a = trim_start(s, 0);
    s.subrange(a, trim_end(s, a, s.len() as int))
}

pub open spec fn is_decimal_digit(c: char) -> bool {
    '0' <= c <= '9'
}

/// The decimal value of the digits `s[i..j]`.
pub open spec fn digits_value(s: Seq<char>, i: int, j: int) -> int
    decreases j - i,
{
    if j <= i {
        0
    } else {
        digits_value(s, i, j - 1) * 10 + (s[j - 1] as u32 - '0' as u32)
    }
}

/// What parsing `s` as an `i16` gives (`i16::from_str`): an optional sign,
/// then one or more decimal digits, and a value in range.
pub open spec fn spec_parse_i16(s: Seq<char>) -> Option<i16> {
    let negative = s.len() > 0 && s[0] == '-';
    let start: int = if s.len() > 0 && (s[0] == '-' || s[0] == '+') {
        1
    } else {
        0
    };
    if start >= s.len() {
        None
    } else if exists|k: int| start <= k < s.len() && !is_decimal_digit(#[trigger] s[k]) {
        None
    } else {
        let v = digits_value(s, start, s.len() as int);
        let signed = if negative {
            -v
        } else {
            v
        };
        if -32768 <= signed <= 32767 {
            Some(signed as i16)
        } else {
            None
        }
    }
}

/// A stored zoom setting: the text, trimmed, as a number, clamped to the
/// zoom range; `None` when it is not a number.
pub open spec fn spec_parse_zoom_steps(text: Seq<char>) -> Option<i16> {
    match spec_parse_i16(trimmed(text)) {
        Some(v) => Some(spec_normalize_zoom_steps(v)),
        None => None,
    }
}

proof fn lemma_digits_grow(s: Seq<char>, i: int, j: int, k: int)
    requires
        i <= j <= k <= s.len(),
        forall|q: int| i <= q < k ==> is_decimal_digit(#[trigger] s[q]),
    ensures
        digits_value(s, i, j) <= digits_value(s, i, k),
        0 <= digits_value(s, i, j),
    decreases k - i,
{
    if k > j {
        lemma_digits_grow(s, i, j, k - 1);
    } else if j > i {
        lemma_digits_grow(s, i, j - 1, j - 1);
    }
}

pub proof fn lemma_trim_start(s: Seq<char>, i: int)
    requires
        0 <= i <= s.len(),
    ensures
        i <= trim_start(s, i) <= s.len(),
    decreases s.len() - i,
{
    if i < s.len() && is_white_space(s[i]) {
        lemma_trim_start(s, i + 1);
    }
}

pub proof fn lemma_trim_end(s: Seq<char>, lo: int, j: int)
    requires
        0 <= lo <= j <= s.len(),
    ensures
        lo <= trim_end(s, lo, j) <= j,
    decreases j - lo,
{
    if j > lo && is_white_space(s[j - 1]) {
        lemma_trim_end(s, lo, j - 1);
    }
}

/// Reads a stored zoom setting.
pub fn parse_zoom_steps(text: &str) -> (r: Option<i16>)
    ensures
        r == spec_parse_zoom_steps(text@),
{
    let chars = crate::terminal::collect_chars(text);
    let ghost s = chars@;
    let len = chars.len();
    let mut a: usize = 0;
    while a < len && is_white_space_char(chars[a])
        invariant
            a <= len,
            len == s.len(),
            s == chars@,
            trim_start(s, a as int) == trim_start(s, 0),
        decreases len - a,
    {
        a = a + 1;
    }
    let mut b: usize = len;
    while b > a && is_white_space_char(chars[b - 1])
        invariant
            a <= b <= len,
            len == s.len(),
            s == chars@,
            trim_end(s, a as int, b as int) == trim_end(s, a as int, len as int),
        decreases b,
    {
        b = b - 1;
    }
    assert(trimmed(s) =~= s.subrange(a as int, b as int));
    match parse_i16(&chars, a, b) {
        Some(v) => Some(normalize_zoom_steps(v)),
        None => None,
    }
}

/// Parses `chars[a..b]` as an `i16`.
fn parse_i16(chars: &Vec<char>, a: usize, b: usize) -> (r: Option<i16>)
    requires
        a <= b <= chars@.len(),
    ensures
        r == spec_parse_i16(chars@.subrange(a as int, b as int)),
{
    let ghost t = chars@.subrange(a as int, b as int);
    if a == b {
        return None;
    }
    assert(t.len() == b - a);
    assert(t[0] == chars@[a as int]);
    let negative = chars[a] == '-';
    let start = if chars[a] == '-' || chars[a] == '+' {
        a + 1
    } else {
        a
    };
    if start >= b {
        return None;
    }
    let ghost st: int = start - a;
    let mut value: i64 = 0;
    let mut k = start;
    while k < b
        invariant
            a < start <= k <= b || a == start && start <= k <= b,
            b <= chars@.len(),
            t == chars@.subrange(a as int, b as int),
            st == start - a,
            t.len() == b - a,
            st < t.len(),
            st == (if t.len() > 0 && (t[0] == '-' || t[0] == '+') {
                1int
            } else {
                0int
            }),
            negative == (t.len() > 0 && t[0] == '-'),
            forall|q: int| st <= q < k - a ==> is_decimal_digit(#[trigger] t[q]),
            value == digits_value(t, st, k - a),
            0 <= value <= 32768,
        decreases b - k,
    {
        let c = chars[k];
        if !('0' <= c && c <= '9') {
            assert(!is_decimal_digit(t[k - a]));
            return None;
        }
        let next = value * 10 + (c as u32 - '0' as u32) as i64;
        assert(t[k - a] == c);
        assert(digits_value(t, st, k + 1 - a) == next);
        if next > 32768 {
            proof {
                assert forall|q: int| st <= q < k + 1 - a implies is_decimal_digit(#[trigger] t[q]) by {
                    if q == k - a {
                        assert(t[q] == c);
                    }
                }
                if forall|q: int| st <= q < t.len() ==> is_decimal_digit(#[trigger] t[q]) {
                    lemma_digits_grow(t, st, k + 1 - a, t.len() as int);
                }
            }
            return None;
        }
        value = next;
        k = k + 1;
    }
    let signed: i64 = if negative {
        -value
    } else {
        value
    };
    if -32768 <= signed && signed <= 32767 {
        Some(signed as i16)
    } else {
        None
    }
}

/// How many whole cells of `cell` pixels fit in `pixels`, between one and
/// `u16::MAX`.
pub open spec fn cells_that_fit(pixels: u32, cell: u32) -> u16 {
    let n = (if pixels < cell {
        cell
    } else {
        pixels
    }) / cell;
    if n < 1 {
        1
    } else if n > u16::MAX {
        u16::MAX
    } else {
        n as u16
    }
}

/// The columns and rows of cells that a window `width_px` by `height_px`
/// pixels holds (one each at least).
pub fn grid_size(width_px: u32, height_px: u32, metrics: TerminalMetrics) -> (r: (u16, u16))
    requires
        metrics.cell_width > 0,
        metrics.cell_height > 0,
    ensures
        r == (cells_that_fit(width_px, metrics.cell_width), cells_that_fit(height_px, metrics.cell_height)),
{
    let w = if width_px < metrics.cell_width {
        metrics.cell_width
    } else {
        width_px
    };
    let h = if height_px < metrics.cell_height {
        metrics.cell_height
    } else {
        height_px
    };
    let cols = w / metrics.cell_width;
    let rows = h / metrics.cell_height;
    let cols: u16 = if cols < 1 {
        1
    } else if cols > 65535 {
        65535
    } else {
        cols as u16
    };
    let rows: u16 = if rows < 1 {
        1
    } else if rows > 65535 {
        65535
    } else {
        rows as u16
    };
    (cols, rows)
}

/// The width in pixels of `cols` cells.
pub fn buffer_width(cols: u16, metrics: TerminalMetrics) -> (r: u32)
    requires
        cols * metrics.cell_width <= u32::MAX,
    ensures
        r == cols * metrics.cell_width,
{
    cols as u32 * metrics.cell_width
}

/// The height in pixels of `rows` cells.
pub fn buffer_height(rows: u16, metrics: TerminalMetrics) -> (r: u32)
    requires
        rows * metrics.cell_height <= u32::MAX,
    ensures
        r == rows * metrics.cell_height,
{
    rows as u32 * metrics.cell_height
}

/// The bytes of an RGBA frame of `cols` by `rows` cells.
pub fn frame_len(cols: u16, rows: u16, metrics: TerminalMetrics) -> (r: usize)
    requires
        cols * metrics.cell_width * rows * metrics.cell_height * 4 <= usize::MAX,
    ensures
        r == cols * metrics.cell_width * rows * metrics.cell_height * 4,
{
    let a = cols as usize;
    let b = metrics.cell_width as usize;
    let c = rows as usize;
    let d = metrics.cell_height as usize;
    if c == 0 || d == 0 {
        proof {
            assert(a * b * c * d * 4 == 0) by (nonlinear_arith)
                requires
                    c == 0 || d == 0,
            ;
        }
        return 0;
    }
    proof {
        assert(a * b <= a * b * c && a * b * c <= a * b * c * d && a * b * c * d <= a * b * c * d * 4)
            by (nonlinear_arith)
            requires
                a >= 0,
                b >= 0,
                c >= 1,
                d >= 1,
        ;
    }
    a * b * c * d * 4
}

} // verus!
