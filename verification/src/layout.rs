//! Where each participant's tile goes in the live 1920x1080 composite.
//!
//! Three layouts, chosen in order: a screenshare takes the left three
//! quarters with every camera stacked on the right; otherwise a dominant
//! speaker fills the frame with small tiles along the top right; otherwise
//! everyone shares an equal grid.

use vstd::prelude::*;

verus! {

pub const SCREEN_W: i32 = 1920;

pub const SCREEN_H: i32 = 1080;

pub const SMALL_TILE_W: i32 = 250;

pub const SMALL_TILE_H: i32 = 250;

/// Width of the screenshare in the screenshare layout: three quarters of the
/// frame.
pub const SHARE_W: i32 = 1440;

/// What a tile currently shows.
#[derive(Debug, Clone, Copy, PartialEq, Eq)]
pub enum TileContent {
    BlackTile,
    Camera,
    Screenshare,
}

/// One tile's position, size and stacking in the composite.
#[derive(Debug)]
pub struct TileRect {
    pub endpoint: String,
    pub xpos: i32,
    pub ypos: i32,
    pub width: i32,
    pub height: i32,
    pub is_highlighted: bool,
    pub is_screenshare: bool,
    pub is_dominant_large: bool,
    pub zorder: u32,
}

/// `r` is the tile for `endpoint` at `(x, y)` of size `w` x `h`, with the
/// given flags and stacking order.
pub open spec fn rect_is(
    r: TileRect,
    endpoint: Seq<char>,
    x: int,
    y: int,
    w: int,
    h: int,
    highlighted: bool,
    screenshare: bool,
    dominant_large: bool,
    zorder: u32,
) -> bool {
    &&& r.endpoint@ == endpoint
    &&& r.xpos == x
    &&& r.ypos == y
    &&& r.width == w
    &&& r.height == h
    &&& r.is_highlighted == highlighted
    &&& r.is_screenshare == screenshare
    &&& r.is_dominant_large == dominant_large
    &&& r.zorder == zorder
}

/// The index of the first tile that is screensharing, if any.
pub open spec fn first_sharer(tiles: Seq<(&String, bool, bool)>) -> Option<int>
    decreases tiles.len(),
{
    if tiles.len() == 0 {
        None
    } else {
        match first_sharer(tiles.drop_last()) {
            Some(i) => Some(i),
            None => if tiles.last().1 {
                Some(tiles.len() - 1)
            } else {
                None
            },
        }
    }
}

/// The smallest `c` with `c * c >= n`, i.e. `ceil(sqrt(n))`.
pub open spec fn is_ceil_sqrt(c: int, n: int) -> bool {
    c >= 0 && c * c >= n && (c == 0 || (c - 1) * (c - 1) < n)
}

/// The layout of the screenshare case: the share at the left, then every
/// tile stacked in the right quarter.
pub open spec fn share_layout(tiles: Seq<(&String, bool, bool)>, s: int, r: Seq<TileRect>) -> bool {
    let n = tiles.len();
    let tile_h = 1080int / (if n == 0 {
        1int
    } else {
        n as int
    });
    &&& r.len() == n + 1
    &&& rect_is(r[0], tiles[s].0@, 0, 0, 1440, 1080, false, true, true, 0)
    &&& forall|i: int|
        0 <= i < n ==> rect_is(
            #[trigger] r[i + 1],
            tiles[i].0@,
            1440,
            i * tile_h,
            480,
            tile_h,
            tiles[i].0@ == tiles[s].0@,
            false,
            false,
            1,
        )
}

/// The layout of the dominant-speaker case: the speaker full frame at the
/// back, every tile small along the top right, in two columns past ten
/// tiles.
pub open spec fn dominant_layout(
    tiles: Seq<(&String, bool, bool)>,
    dom: Seq<char>,
    r: Seq<TileRect>,
) -> bool {
    let n = tiles.len();
    let cols: int = if n > 10 {
        2
    } else {
        1
    };
    &&& r.len() == n + 1
    &&& rect_is(r[0], dom, 0, 0, 1920, 1080, false, false, true, 0)
    &&& forall|i: int|
        0 <= i < n ==> rect_is(
            #[trigger] r[i + 1],
            tiles[i].0@,
            1920 - 250 * cols + (i % cols) * 250,
            (i / cols) * 250,
            250,
            250,
            tiles[i].0@ == dom,
            false,
            false,
            1,
        )
}

/// The layout of the equal grid: `cols = ceil(sqrt(n))` columns and as many
/// rows as it takes, filled row by row.
pub open spec fn grid_layout(tiles: Seq<(&String, bool, bool)>, r: Seq<TileRect>) -> bool {
    let n = tiles.len() as int;
    exists|cols: int|
        #![trigger is_ceil_sqrt(cols, n)]
        is_ceil_sqrt(cols, n) && {
            let rows = (n + cols - 1) / cols;
            let tile_w = 1920int / cols;
            let tile_h = 1080int / rows;
            &&& r.len() == n
            &&& forall|i: int|
                0 <= i < n ==> rect_is(
                    #[trigger] r[i],
                    tiles[i].0@,
                    (i % cols) * tile_w,
                    (i / cols) * tile_h,
                    tile_w,
                    tile_h,
                    false,
                    false,
                    false,
                    0,
                )
        }
}

/// The whole layout, by case.
pub open spec fn layout_of(
    tiles: Seq<(&String, bool, bool)>,
    dominant_id: Option<Seq<char>>,
    r: Seq<TileRect>,
) -> bool {
    match first_sharer(tiles) {
        Some(s) => share_layout(tiles, s, r),
        None => if tiles.len() == 0 {
            r.len() == 0
        } else {
            match dominant_id {
                Some(d) => dominant_layout(tiles, d, r),
                None => grid_layout(tiles, r),
            }
        },
    }
}

proof fn lemma_first_sharer(tiles: Seq<(&String, bool, bool)>, k: int)
    requires
        0 <= k <= tiles.len(),
        forall|j: int| 0 <= j < k ==> !tiles[j].1,
    ensures
        k < tiles.len() && tiles[k].1 ==> first_sharer(tiles) == Some(k),
        k == tiles.len() ==> first_sharer(tiles).is_none(),
    decreases tiles.len(),
{
    if tiles.len() > 0 {
        if k < tiles.len() {
            if k < tiles.len() - 1 {
                lemma_first_sharer(tiles.drop_last(), k);
            } else {
                lemma_first_sharer(tiles.drop_last(), k);
            }
        } else {
            lemma_first_sharer(tiles.drop_last(), k - 1);
        }
    }
}

fn str_view_string(s: &str) -> (r: String)
    ensures
        r@ == s@,
{
    String::from_str(s)
}

pub struct LayoutEngine;

impl LayoutEngine {
    /// Places every tile. `tiles` holds `(endpoint_id, has_screenshare,
    /// is_dominant)` per participant; the first screensharing tile wins.
    pub fn calculate(tiles: &[(&String, bool, bool)], dominant_id: Option<&str>) -> (r: Vec<
        TileRect,
    >)
        requires
            tiles@.len() * 250 <= i32::MAX,
        ensures
            layout_of(
                tiles@,
                match dominant_id {
                    Some(d) => Some(d@),
                    None => None,
                },
                r@,
            ),
    {
        let n = tiles.len();
        let mut rects: Vec<TileRect> = Vec::new();
        // ── Screenshare layout ──
        let mut s: usize = 0;
        while s < n && !tiles[s].1
            invariant
                s <= n,
                n == tiles@.len(),
                forall|j: int| 0 <= j < s ==> !tiles@[j].1,
            decreases n - s,
        {
            s += 1;
        }
        proof {
            lemma_first_sharer(tiles@, s as int);
        }
        if s < n {
            let share_ep = tiles[s].0;
            rects.push(
                TileRect {
                    endpoint: share_ep.clone(),
                    xpos: 0,
                    ypos: 0,
                    width: SHARE_W,
                    height: SCREEN_H,
                    is_screenshare: true,
                    is_dominant_large: true,
                    is_highlighted: false,
                    zorder: 0,
                },
            );
            let count: i32 = n as i32;
            let tile_w = SCREEN_W - SHARE_W;
            let tile_h = SCREEN_H / count;
            let mut i: usize = 0;
            while i < n
                invariant
                    i <= n,
                    n == tiles@.len(),
                    n * 250 <= i32::MAX,
                    s < n,
                    share_ep == tiles@[s as int].0,
                    count == n,
                    tile_w == 480,
                    tile_h == 1080int / (n as int),
                    rects@.len() == i + 1,
                    rect_is(rects@[0], tiles@[s as int].0@, 0, 0, 1440, 1080, false, true, true, 0),
                    forall|j: int|
                        0 <= j < i ==> rect_is(
                            #[trigger] rects@[j + 1],
                            tiles@[j].0@,
                            1440,
                            j * tile_h,
                            480,
                            tile_h as int,
                            tiles@[j].0@ == tiles@[s as int].0@,
                            false,
                            false,
                            1,
                        ),
                decreases n - i,
            {
                let ep = tiles[i].0;
                assert(i * tile_h <= 1080) by (nonlinear_arith)
                    requires
                        i < n,
                        tile_h == 1080int / (n as int),
                        n >= 1,
                ;
                let ypos = i as i32 * tile_h;
                let highlighted = *ep == *share_ep;
                rects.push(
                    TileRect {
                        endpoint: ep.clone(),
                        xpos: SHARE_W,
                        ypos,
                        width: tile_w,
                        height: tile_h,
                        is_screenshare: false,
                        is_dominant_large: false,
                        is_highlighted: highlighted,
                        zorder: 1,
                    },
                );
                i += 1;
            }
            return rects;
        }
        // ── Dominant speaker layout ──
        if n == 0 {
            return rects;
        }
        if let Some(dom_id) = dominant_id {
            let strip_cols: i32 = if n > 10 {
                2
            } else {
                1
            };
            rects.push(
                TileRect {
                    endpoint: str_view_string(dom_id),
                    xpos: 0,
                    ypos: 0,
                    width: SCREEN_W,
                    height: SCREEN_H,
                    is_screenshare: false,
                    is_dominant_large: true,
                    is_highlighted: false,
                    zorder: 0,
                },
            );
            let total_small_w = SCREEN_W - (SMALL_TILE_W * strip_cols);
            let dom_chars = crate::text::chars_of(dom_id);
            let mut i: usize = 0;
            while i < n
                invariant
                    i <= n,
                    n == tiles@.len(),
                    n * 250 <= i32::MAX,
                    strip_cols == (if n > 10 {
                        2int
                    } else {
                        1int
                    }),
                    total_small_w == 1920 - 250 * strip_cols,
                    dom_chars@ == dom_id@,
                    rects@.len() == i + 1,
                    rect_is(rects@[0], dom_id@, 0, 0, 1920, 1080, false, false, true, 0),
                    forall|j: int|
                        0 <= j < i ==> rect_is(
                            #[trigger] rects@[j + 1],
                            tiles@[j].0@,
                            1920 - 250 * strip_cols + (j % (strip_cols as int)) * 250,
                            (j / (strip_cols as int)) * 250,
                            250,
                            250,
                            tiles@[j].0@ == dom_id@,
                            false,
                            false,
                            1,
                        ),
                decreases n - i,
            {
                let ep = tiles[i].0;
                let ii = i as i32;
                let col = ii % strip_cols;
                let row = ii / strip_cols;
                assert(row * 250 <= i32::MAX) by (nonlinear_arith)
                    requires
                        row == (i as int) / (strip_cols as int),
                        strip_cols >= 1,
                        i < n,
                        n * 250 <= i32::MAX,
                ;
                let epc = crate::text::chars_of(ep.as_str());
                let highlighted = crate::text::chars_eq(epc.as_slice(), dom_chars.as_slice());
                rects.push(
                    TileRect {
                        endpoint: ep.clone(),
                        xpos: total_small_w + col * SMALL_TILE_W,
                        ypos: row * SMALL_TILE_H,
                        width: SMALL_TILE_W,
                        height: SMALL_TILE_H,
                        is_screenshare: false,
                        is_dominant_large: false,
                        is_highlighted: highlighted,
                        zorder: 1,
                    },
                );
                i += 1;
            }
            return rects;
        }
        // ── Equal grid (no dominant, no screenshare) ──
        let mut cols: i32 = 0;
        loop
            invariant
                0 <= cols <= n,
                n >= 1,
                n * 250 <= i32::MAX,
                cols == 0 || (cols - 1) * (cols - 1) < n,
            ensures
                is_ceil_sqrt(cols as int, n as int),
            decreases n - cols,
        {
            assert((cols as int) * (cols as int) <= (n as int) * (n as int)) by (nonlinear_arith)
                requires
                    0 <= cols <= n,
            ;
            assert((n as int) * (n as int) <= 0x7fff_ffff_ffff_ffff) by (nonlinear_arith)
                requires
                    n * 250 <= 0x7fff_ffff,
                    n >= 0,
            ;
            if (cols as i64) * (cols as i64) >= n as i64 {
                break;
            }
            assert(cols < n) by (nonlinear_arith)
                requires
                    cols * cols < n,
                    0 <= cols,
                    n >= 1,
            ;
            cols += 1;
        }
        assert(is_ceil_sqrt(cols as int, n as int));
        assert(cols >= 1);
        let count = n as i32;
        let rows = (count + cols - 1) / cols;
        assert(rows >= 1) by (nonlinear_arith)
            requires
                count >= 1,
                cols >= 1,
                rows == (count + cols - 1) as int / (cols as int),
        ;
        let tile_w = SCREEN_W / cols;
        let tile_h = SCREEN_H / rows;
        let mut i: usize = 0;
        while i < n
            invariant
                i <= n,
                n == tiles@.len(),
                n >= 1,
                n * 250 <= i32::MAX,
                is_ceil_sqrt(cols as int, n as int),
                cols >= 1,
                rows == (n + cols - 1) as int / (cols as int),
                rows >= 1,
                tile_w == 1920int / (cols as int),
                tile_h == 1080int / (rows as int),
                rects@.len() == i,
                forall|j: int|
                    0 <= j < i ==> rect_is(
                        #[trigger] rects@[j],
                        tiles@[j].0@,
                        (j % (cols as int)) * tile_w,
                        (j / (cols as int)) * tile_h,
                        tile_w as int,
                        tile_h as int,
                        false,
                        false,
                        false,
                        0,
                    ),
            decreases n - i,
        {
            let ep = tiles[i].0;
            let ii = i as i32;
            let col = ii % cols;
            let row = ii / cols;
            assert(col * tile_w <= 1920) by (nonlinear_arith)
                requires
                    0 <= col < cols,
                    tile_w == 1920int / (cols as int),
                    cols >= 1,
            ;
            assert(0 <= col * tile_w) by (nonlinear_arith)
                requires
                    0 <= col,
                    0 <= tile_w,
            ;
            assert(row < rows) by (nonlinear_arith)
                requires
                    row == (ii as int) / (cols as int),
                    0 <= ii < n,
                    cols >= 1,
                    rows == (n + cols - 1) as int / (cols as int),
            ;
            assert(row * tile_h <= 1080) by (nonlinear_arith)
                requires
                    0 <= row < rows,
                    tile_h == 1080int / (rows as int),
                    rows >= 1,
            ;
            assert(0 <= row * tile_h) by (nonlinear_arith)
                requires
                    0 <= row,
                    0 <= tile_h,
            ;
            rects.push(
                TileRect {
                    endpoint: ep.clone(),
                    xpos: col * tile_w,
                    ypos: row * tile_h,
                    width: tile_w,
                    height: tile_h,
                    is_screenshare: false,
                    is_highlighted: false,
                    is_dominant_large: false,
                    zorder: 0,
                },
            );
            i += 1;
        }
        rects
    }
}

} // verus!
