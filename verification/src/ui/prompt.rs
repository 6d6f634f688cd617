//! The window that asks for decisions: how many it shows, and where it stands.

use vstd::prelude::*;

verus! {

/// The height of a card, and the gap between two.
pub const CARD_HEIGHT: u32 = 228;

pub const CARD_GAP: u32 = 10;

/// The distance from the edges of the screen.
pub const EDGE_MARGIN: i32 = 18;

/// How many cards are shown at once.
pub const MAX_VISIBLE: usize = 2;

/// The style of a window that is listed among the open ones.
pub const WS_EX_APPWINDOW: u32 = 0x0004_0000;

/// The style of a window that is not listed.
pub const WS_EX_TOOLWINDOW: u32 = 0x0000_0080;

/// How many cards are to be shown.
#[derive(Debug, Clone, Copy, PartialEq, Eq, Structural)]
pub struct PromptState {
    pub count: usize,
}

impl Default for PromptState {
    fn default() -> (r: PromptState)
        ensures
            r.count == 0,
    {
        PromptState { count: 0 }
    }
}

/// What becomes of the window.
#[derive(Debug, Clone, Copy, PartialEq, Eq, Structural)]
pub enum Resize {
    Hide,
    /// It is shown, with so many cards.
    Show(usize),
}

/// How many cards are shown of `count`: one at least, and two at most.
pub open spec fn visible(count: nat) -> nat {
    if count < 1 {
        1
    } else if count > MAX_VISIBLE {
        MAX_VISIBLE as nat
    } else {
        count
    }
}

impl PromptState {
    /// How many cards the window opens with.
    pub fn opening(&self) -> (n: usize)
        ensures
            n == visible(self.count as nat),
    {
        if self.count < 1 {
            1
        } else if self.count > MAX_VISIBLE {
            MAX_VISIBLE
        } else {
            self.count
        }
    }

    /// Sets how many decisions wait.
    pub fn resize_connection_prompts(&mut self, count: usize) -> (r: Resize)
        ensures
            final(self).count == (if count > MAX_VISIBLE {
                MAX_VISIBLE
            } else {
                count
            }),
            r == (if count == 0 {
                Resize::Hide
            } else {
                Resize::Show(final(self).count)
            }),
    {
        if count == 0 {
            self.count = 0;
            return Resize::Hide;
        }
        self.count = if count > MAX_VISIBLE {
            MAX_VISIBLE
        } else {
            count
        };
        Resize::Show(self.count)
    }
}

/// The height of the cards, with the gaps between them.
pub fn stack_height(count: usize) -> (h: u32)
    ensures
        h == visible(count as nat) * CARD_HEIGHT + (visible(count as nat) - 1) * CARD_GAP,
{
    if count > 1 {
        2 * CARD_HEIGHT + CARD_GAP
    } else {
        CARD_HEIGHT
    }
}

/// Where a window starts that ends at the far edge of an area, short of a margin.
pub fn trailing_edge(origin: i32, available: u32, extent: i32, margin: i32) -> (r: i32)
    requires
        available <= i32::MAX,
        origin + available <= i32::MAX,
        i32::MIN <= origin + available - extent <= i32::MAX,
        i32::MIN <= origin + available - extent - margin <= i32::MAX,
    ensures
        r == origin + available - extent - margin,
{
    origin + available as i32 - extent - margin
}

/// A screen.
#[derive(Debug, Clone, Copy, PartialEq, Eq, Structural)]
pub struct Screen {
    pub x: i32,
    pub y: i32,
    pub width: u32,
    pub height: u32,
}

impl Screen {
    /// Whether a point is on a screen.
    pub open spec fn holds(self, x: int, y: int) -> bool {
        self.x <= x < self.x + self.width && self.y <= y < self.y + self.height
    }
}

/// The first screen that holds a point.
pub open spec fn screen_at(screens: Seq<Screen>, x: int, y: int) -> nat
    decreases screens.len(),
{
    if screens.len() == 0 || screens[0].holds(x, y) {
        0
    } else {
        1 + screen_at(screens.drop_first(), x, y)
    }
}

/// The screen that holds the pointer, where it is known and one does. Elsewhere
/// the window goes where the main one is.
pub fn target_monitor(pointer: Option<(i32, i32)>, screens: &Vec<Screen>) -> (r: Option<usize>)
    ensures
        r == match pointer {
            Some((x, y)) => if screen_at(screens@, x as int, y as int) < screens@.len() {
                Some(screen_at(screens@, x as int, y as int) as usize)
            } else {
                None
            },
            None => None,
        },
{
    match pointer {
        None => None,
        Some((x, y)) => {
            let mut i: usize = 0;
            assert(screens@.skip(0) =~= screens@);
            while i < screens.len()
                invariant
                    pointer == Some((x, y)),
                    i <= screens@.len(),
                    screen_at(screens@, x as int, y as int) == i + screen_at(
                        screens@.skip(i as int),
                        x as int,
                        y as int,
                    ),
                decreases screens@.len() - i,
            {
                assert(screens@.skip(i as int).drop_first() =~= screens@.skip(i + 1));
                let s = screens[i];
                if x >= s.x && (x as i64) < s.x as i64 + s.width as i64 && y >= s.y && (y as i64)
                    < s.y as i64 + s.height as i64 {
                    return Some(i);
                }
                i += 1;
            }
            None
        },
    }
}

/// A window's style such that it is not listed among the open ones.
pub fn prompt_extended_style(style: u32) -> (r: u32)
    ensures
        r == (style & !WS_EX_APPWINDOW) | WS_EX_TOOLWINDOW,
        r & WS_EX_APPWINDOW == 0,
        r & WS_EX_TOOLWINDOW == WS_EX_TOOLWINDOW,
{
    assert(((style & !0x0004_0000u32) | 0x0000_0080u32) & 0x0004_0000u32 == 0u32) by (bit_vector);
    assert(((style & !0x0004_0000u32) | 0x0000_0080u32) & 0x0000_0080u32 == 0x0000_0080u32)
        by (bit_vector);
    (style & !WS_EX_APPWINDOW) | WS_EX_TOOLWINDOW
}

/// At least one card shows, and at most two; between these as many as there are.
pub proof fn law_one_or_two_cards_show(count: nat)
    ensures
        1 <= visible(count) <= 2,
        1 <= count <= 2 ==> visible(count) == count,
        count > 2 ==> visible(count) == 2,
{
}

/// The screen that is found is the first that holds the point, with its left and
/// upper edges and without its right and lower ones.
pub proof fn law_the_first_screen_at_the_point(screens: Seq<Screen>, x: int, y: int)
    ensures
        screen_at(screens, x, y) <= screens.len(),
        ({
            let k = screen_at(screens, x, y) as int;
            &&& k < screens.len() ==> screens[k].x <= x < screens[k].x + screens[k].width
                && screens[k].y <= y < screens[k].y + screens[k].height
            &&& forall|i: int|
                0 <= i < k ==> !((#[trigger] screens[i]).x <= x < screens[i].x + screens[i].width
                    && screens[i].y <= y < screens[i].y + screens[i].height)
        }),
    decreases screens.len(),
{
    if screens.len() > 0 && !screens[0].holds(x, y) {
        let rest = screens.drop_first();
        law_the_first_screen_at_the_point(rest, x, y);
        let k = screen_at(screens, x, y) as int;
        assert forall|i: int| 0 <= i < k implies !((#[trigger] screens[i]).x <= x < screens[i].x
            + screens[i].width && screens[i].y <= y < screens[i].y + screens[i].height) by {
            if i > 0 {
                assert(rest[i - 1] == screens[i]);
            }
        }
    }
}

} // verus!
