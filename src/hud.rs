use vstd::prelude::*;

verus! {

/// Gap between the anchor point and the text.
pub const TEXT_PAD: i32 = 12;

/// Offset of the drop shadow from the text.
pub const SHADOW: i32 = 2;

/// Where text anchored at `(x, y)` goes: right of the anchor, or left of it
/// where it would run past the right edge; above the anchor where a line of
/// `font_size` would run past the bottom edge.
pub open spec fn spec_text_origin(
    x: int,
    y: int,
    text_width: int,
    font_size: int,
    screen_width: int,
    screen_height: int,
) -> (int, int) {
    let px = if x + text_width + TEXT_PAD >= screen_width {
        x - (text_width + TEXT_PAD)
    } else {
        x + TEXT_PAD
    };
    let py = if y + font_size >= screen_height {
        y - font_size
    } else {
        y
    };
    (px, py)
}

/// Places a label of `text_width` pixels and `font_size` at the anchor
/// `(x, y)` on a screen of the given size. Returns the origin of the shadow,
/// then that of the text.
pub fn text_layout(
    x: i32,
    y: i32,
    text_width: i32,
    font_size: i32,
    screen_width: i32,
    screen_height: i32,
) -> (r: ((i32, i32), (i32, i32)))
    requires
        i32::MIN <= spec_text_origin(x as int, y as int, text_width as int, font_size as int, screen_width as int, screen_height as int).0,
        spec_text_origin(x as int, y as int, text_width as int, font_size as int, screen_width as int, screen_height as int).0 + SHADOW <= i32::MAX,
        i32::MIN <= spec_text_origin(x as int, y as int, text_width as int, font_size as int, screen_width as int, screen_height as int).1,
        spec_text_origin(x as int, y as int, text_width as int, font_size as int, screen_width as int, screen_height as int).1 + SHADOW <= i32::MAX,
    ensures
        ({
            let o = spec_text_origin(x as int, y as int, text_width as int, font_size as int, screen_width as int, screen_height as int);
            &&& r.1 == (o.0 as i32, o.1 as i32)
            &&& r.0 == ((o.0 + SHADOW) as i32, (o.1 + SHADOW) as i32)
        }),
{
    let xw: i64 = x as i64 + text_width as i64 + TEXT_PAD as i64;
    let px: i64 = if xw >= screen_width as i64 {
        x as i64 - (text_width as i64 + TEXT_PAD as i64)
    } else {
        x as i64 + TEXT_PAD as i64
    };
    let py: i64 = if y as i64 + font_size as i64 >= screen_height as i64 {
        y as i64 - font_size as i64
    } else {
        y as i64
    };
    let px = px as i32;
    let py = py as i32;
    ((px + SHADOW, py + SHADOW), (px, py))
}

} // verus!
