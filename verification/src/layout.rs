//! Where the words of a page go in the window, one after the other and line
//! by line.

use vstd::prelude::*;

verus! {

/// A place in the window, in pixels from its left and from its top.
#[derive(Debug, Clone, Copy, PartialEq, Eq, Structural)]
pub struct Cursor {
    pub x: i32,
    pub y: i32,
}

/// Whether a word of width `word_width` that began at `x` would reach the
/// right edge of a window of width `window_width`.
pub open spec fn wraps(x: int, word_width: int, window_width: int) -> bool {
    x + word_width >= window_width
}

/// Where a word goes: at the cursor, or at the start of the next line if it
/// would reach the right edge from there.
pub open spec fn word_place(
    cursor: Cursor,
    word_width: int,
    line_advance: int,
    window_width: int,
) -> (int, int) {
    if wraps(cursor.x as int, word_width, window_width) {
        (0, cursor.y + line_advance)
    } else {
        (cursor.x as int, cursor.y as int)
    }
}

/// Where the cursor stands after a word: on the line of the word, behind the
/// word and one space.
pub open spec fn cursor_after(place: (int, int), word_width: int, space_width: int) -> (int, int) {
    (place.0 + word_width + space_width, place.1)
}

/// The numbers that placing a word adds up fit in an `i32`.
pub open spec fn placing_fits(
    cursor: Cursor,
    word_width: int,
    space_width: int,
    line_advance: int,
    window_width: int,
) -> bool {
    let place = word_place(cursor, word_width, line_advance, window_width);
    &&& i32::MIN <= cursor.x + word_width <= i32::MAX
    &&& i32::MIN <= place.0 + word_width <= i32::MAX
    &&& i32::MIN <= place.0 + word_width + space_width <= i32::MAX
    &&& i32::MIN <= place.1 <= i32::MAX
}

/// Places a word: says where it goes and where the cursor stands after it.
pub fn place_word(
    cursor: Cursor,
    word_width: i32,
    space_width: i32,
    line_advance: i32,
    window_width: i32,
) -> (r: (Cursor, Cursor))
    requires
        placing_fits(
            cursor,
            word_width as int,
            space_width as int,
            line_advance as int,
            window_width as int,
        ),
    ensures
        (r.0.x as int, r.0.y as int) == word_place(
            cursor,
            word_width as int,
            line_advance as int,
            window_width as int,
        ),
        (r.1.x as int, r.1.y as int) == cursor_after(
            (r.0.x as int, r.0.y as int),
            word_width as int,
            space_width as int,
        ),
{
    let place = if cursor.x + word_width >= window_width {
        Cursor { x: 0, y: cursor.y + line_advance }
    } else {
        cursor
    };
    (place, Cursor { x: place.x + word_width + space_width, y: place.y })
}

} // verus!
