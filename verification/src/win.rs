//! The main window against the screen's work area.
use vstd::prelude::*;

verus! {

/// The work area's width and height from its `(left, top, right, bottom)`
/// edges, a negative extent read as 0; `None` when it could not be had.
pub fn work_area_size(area: Option<(i32, i32, i32, i32)>) -> (r: Option<(u32, u32)>)
    requires
        area matches Some((l, t, rr, b)) ==> (i32::MIN <= rr - l <= i32::MAX && i32::MIN <= b - t <= i32::MAX),
    ensures
        match area {
            Some((l, t, rr, b)) => r == Some(
                (
                    (if rr - l > 0 {
                        rr - l
                    } else {
                        0
                    }) as u32,
                    (if b - t > 0 {
                        b - t
                    } else {
                        0
                    }) as u32,
                ),
            ),
            None => r is None,
        },
{
    match area {
        Some((l, t, rr, b)) => {
            let w: i32 = rr - l;
            let h: i32 = b - t;
            let w: u32 = if w > 0 {
                w as u32
            } else {
                0
            };
            let h: u32 = if h > 0 {
                h as u32
            } else {
                0
            };
            Some((w, h))
        },
        None => None,
    }
}

/// A size kept within the work area; with no work area known it passes unchanged.
pub fn clamp_to_work_area(size: (u32, u32), work: Option<(u32, u32)>) -> (r: (u32, u32))
    ensures
        match work {
            Some((mw, mh)) => r == (if size.0 < mw {
                size.0
            } else {
                mw
            }, if size.1 < mh {
                size.1
            } else {
                mh
            }),
            None => r == size,
        },
{
    match work {
        Some((mw, mh)) => (if size.0 < mw {
            size.0
        } else {
            mw
        }, if size.1 < mh {
            size.1
        } else {
            mh
        }),
        None => size,
    }
}

/// What the shell's answer to "open this" means: a code above 32 is
/// success, any other is the error reported with its number.
pub fn shell_result(code: usize) -> (r: Result<(), String>)
    ensures
        code > 32 <==> r is Ok,
        r matches Err(m) ==> m@ == "無法啟動：錯誤碼 "@ + crate::text::dec(code as nat),
{
    if code > 32 {
        Ok(())
    } else {
        Err(crate::text::concat("無法啟動：錯誤碼 ", crate::text::decimal(code as u64).as_str()))
    }
}

/// The game client's exact window title. Only a window titled exactly this,
/// once trimmed, counts as the game.
pub const GAME_WINDOW_TITLE: &'static str = "MapleStory";

/// Whether a window title is the game's.
pub fn is_game_title(title: &str) -> (r: bool)
    ensures
        r == (crate::text::trim(title@) == GAME_WINDOW_TITLE@),
{
    crate::text::str_eq(crate::text::str_trim(title).as_str(), GAME_WINDOW_TITLE)
}

/// A clamped size is never larger than the work area, and a size that fits
/// is left alone.
pub proof fn law_clamp_fits(size: (u32, u32), mw: u32, mh: u32, r: (u32, u32))
    requires
        r == (if size.0 < mw {
            size.0
        } else {
            mw
        }, if size.1 < mh {
            size.1
        } else {
            mh
        }),
    ensures
        r.0 <= mw && r.1 <= mh,
        size.0 <= mw && size.1 <= mh ==> r == size,
{
}

} // verus!
