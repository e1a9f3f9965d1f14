use vstd::prelude::*;

verus! {

/// A fixed arrangement of player cards: a list box of the given size,
/// centered in the captured image, holding `rows` by `cols` cards of the
/// given size from its top left corner on.
#[derive(Clone, Copy, Debug, PartialEq, Eq, Structural)]
pub struct GridLayout {
    pub list_width: u32,
    pub list_height: u32,
    pub rows: u32,
    pub cols: u32,
    pub card_width: u32,
    pub card_height: u32,
}

/// A rectangle in image coordinates.
#[derive(Clone, Copy, Debug, PartialEq, Eq, Structural)]
pub struct Region {
    pub x: u32,
    pub y: u32,
    pub width: u32,
    pub height: u32,
}

/// The captured image is smaller than the list box of the layout.
#[derive(Clone, Copy, Debug, PartialEq, Eq, Structural)]
pub struct LayoutError {
    pub image_width: u32,
    pub image_height: u32,
}

/// Width of the list box of the reference screen.
pub const LIST_WIDTH: u32 = 1200;

/// Height of the list box of the reference screen.
pub const LIST_HEIGHT: u32 = 550;

/// Rows of player cards on the reference screen.
pub const CARD_ROWS: u32 = 3;

/// Columns of player cards on the reference screen.
pub const CARD_COLS: u32 = 2;

/// Width of a player card on the reference screen.
pub const CARD_WIDTH: u32 = 600;

/// Height of a player card on the reference screen.
pub const CARD_HEIGHT: u32 = 180;

impl GridLayout {
    /// The cards fit in the list box.
    pub open spec fn wf(self) -> bool {
        &&& self.cols * self.card_width <= self.list_width
        &&& self.rows * self.card_height <= self.list_height
    }

    /// Number of cards.
    pub open spec fn slots(self) -> int {
        self.rows * self.cols
    }

    /// Whether an image of this size holds the list box.
    pub open spec fn fits(self, width: int, height: int) -> bool {
        width >= self.list_width && height >= self.list_height
    }

    /// Left edge of the list box in an image of the given width.
    pub open spec fn start_x(self, width: int) -> int {
        (width - self.list_width) / 2
    }

    /// Top edge of the list box in an image of the given height.
    pub open spec fn start_y(self, height: int) -> int {
        (height - self.list_height) / 2
    }

    /// Left edge of card `k` (row-major) in an image of the given width.
    pub open spec fn slot_x(self, width: int, k: int) -> int {
        self.start_x(width) + (k % self.cols as int) * self.card_width
    }

    /// Top edge of card `k` (row-major) in an image of the given height.
    pub open spec fn slot_y(self, height: int, k: int) -> int {
        self.start_y(height) + (k / self.cols as int) * self.card_height
    }

    /// The layout of the reference 1920 by 1080 screen: a 1200 by 550 list
    /// box holding three rows of two cards of 600 by 180.
    pub fn reference() -> (r: GridLayout)
        ensures
            r == (GridLayout {
                list_width: 1200,
                list_height: 550,
                rows: 3,
                cols: 2,
                card_width: 600,
                card_height: 180,
            }),
            r.wf(),
    {
        let r = GridLayout {
            list_width: LIST_WIDTH,
            list_height: LIST_HEIGHT,
            rows: CARD_ROWS,
            cols: CARD_COLS,
            card_width: CARD_WIDTH,
            card_height: CARD_HEIGHT,
        };
        assert(r.wf()) by (nonlinear_arith)
            requires r.cols == 2, r.card_width == 600, r.list_width == 1200, r.rows == 3,
                r.card_height == 180, r.list_height == 550;
        r
    }
}

impl Region {
    /// Whether the point lies in this rectangle.
    pub open spec fn contains(self, px: int, py: int) -> bool {
        self.x <= px < self.x + self.width && self.y <= py < self.y + self.height
    }
}

/// The region of card `k` of `layout` in an image of the given size.
pub open spec fn slot_region(layout: GridLayout, width: int, height: int, k: int) -> Region {
    Region {
        x: layout.slot_x(width, k) as u32,
        y: layout.slot_y(height, k) as u32,
        width: layout.card_width,
        height: layout.card_height,
    }
}

proof fn lemma_offset_bound(i: int, n: int, c: int, total: int)
    requires
        0 <= i < n,
        0 <= c,
        n * c <= total,
    ensures
        0 <= i * c,
        i * c + c <= total,
{
    assert(0 <= i * c) by (nonlinear_arith)
        requires 0 <= i, 0 <= c;
    assert(i * c + c <= n * c) by (nonlinear_arith)
        requires 0 <= i < n, 0 <= c;
}

/// What cropping `layout` out of an image of the given size gives: an error
/// exactly when the image is smaller than the list box, else one region per
/// card in row-major order, each inside the list box and so inside the image.
pub open spec fn card_regions_result(
    layout: GridLayout,
    image_width: u32,
    image_height: u32,
    r: Result<Vec<Region>, LayoutError>,
) -> bool {
    &&& r is Err <==> !layout.fits(image_width as int, image_height as int)
    &&& r is Err ==> r->Err_0 == (LayoutError { image_width, image_height })
    &&& r is Ok ==> r->Ok_0@.len() == layout.slots()
    &&& r is Ok ==> forall|k: int|
        0 <= k < layout.slots() ==> #[trigger] r->Ok_0@[k] == slot_region(
            layout,
            image_width as int,
            image_height as int,
            k,
        )
    &&& r is Ok ==> forall|k: int|
        0 <= k < layout.slots() ==> {
            &&& layout.start_x(image_width as int) <= #[trigger] r->Ok_0@[k].x
            &&& r->Ok_0@[k].x + r->Ok_0@[k].width <= layout.start_x(image_width as int)
                + layout.list_width
            &&& layout.start_y(image_height as int) <= r->Ok_0@[k].y
            &&& r->Ok_0@[k].y + r->Ok_0@[k].height <= layout.start_y(image_height as int)
                + layout.list_height
        }
    &&& r is Ok ==> forall|k: int|
        0 <= k < layout.slots() ==> #[trigger] r->Ok_0@[k].x + r->Ok_0@[k].width <= image_width
            && r->Ok_0@[k].y + r->Ok_0@[k].height <= image_height
}

/// Whether `v` holds the first `n` regions of `layout` in an image of the
/// given size, each inside the list box.
spec fn regions_so_far(layout: GridLayout, image_width: u32, image_height: u32, v: Seq<Region>) -> bool {
    &&& forall|k: int|
        0 <= k < v.len() ==> #[trigger] v[k] == slot_region(
            layout,
            image_width as int,
            image_height as int,
            k,
        )
    &&& forall|k: int|
        0 <= k < v.len() ==> {
            &&& layout.start_x(image_width as int) <= #[trigger] v[k].x
            &&& v[k].x + v[k].width <= layout.start_x(image_width as int) + layout.list_width
            &&& layout.start_y(image_height as int) <= v[k].y
            &&& v[k].y + v[k].height <= layout.start_y(image_height as int) + layout.list_height
        }
    &&& forall|k: int|
        0 <= k < v.len() ==> #[trigger] v[k].x + v[k].width <= image_width && v[k].y
            + v[k].height <= image_height
}

/// The regions at which the player cards of `layout` are cropped out of an
/// image of the given size, in row-major order. An image smaller than the
/// list box is refused before any region is formed.
pub fn crop_and_save_player_cards_dynamic(layout: &GridLayout, image_width: u32, image_height: u32) -> (r: Result<
    Vec<Region>,
    LayoutError,
>)
    requires
        layout.wf(),
    ensures
        card_regions_result(*layout, image_width, image_height, r),
{
    if image_width < layout.list_width || image_height < layout.list_height {
        return Err(LayoutError { image_width, image_height });
    }
    let mut out: Vec<Region> = Vec::new();
    if layout.rows == 0 || layout.cols == 0 {
        assert(layout.slots() == 0) by (nonlinear_arith)
            requires layout.rows == 0 || layout.cols == 0, layout.slots() == layout.rows * layout.cols;
        return Ok(out);
    }
    let start_x = (image_width - layout.list_width) / 2;
    let start_y = (image_height - layout.list_height) / 2;
    let card_w = layout.card_width;
    let card_h = layout.card_height;
    let mut row: u32 = 0;
    while row < layout.rows
        invariant
            row <= layout.rows,
            layout.rows > 0,
            layout.cols > 0,
            layout.wf(),
            layout.fits(image_width as int, image_height as int),
            start_x == layout.start_x(image_width as int),
            start_y == layout.start_y(image_height as int),
            card_w == layout.card_width,
            card_h == layout.card_height,
            out.len() == row * layout.cols,
            regions_so_far(*layout, image_width, image_height, out@),
        decreases layout.rows - row,
    {
        let mut col: u32 = 0;
        proof {
            lemma_offset_bound(row as int, layout.rows as int, card_h as int, layout.list_height as int);
        }
        let y = start_y + row * card_h;
        while col < layout.cols
            invariant
                row < layout.rows,
                col <= layout.cols,
                layout.rows > 0,
                layout.cols > 0,
                layout.wf(),
                layout.fits(image_width as int, image_height as int),
                start_x == layout.start_x(image_width as int),
                start_y == layout.start_y(image_height as int),
                card_w == layout.card_width,
                card_h == layout.card_height,
                y == start_y + row * card_h,
                start_y <= y,
                y + card_h <= start_y + layout.list_height,
                out.len() == row * layout.cols + col,
                regions_so_far(*layout, image_width, image_height, out@),
            decreases layout.cols - col,
        {
            proof {
                lemma_offset_bound(col as int, layout.cols as int, card_w as int, layout.list_width as int);
            }
            let x = start_x + col * card_w;
            let ghost k = out.len() as int;
            proof {
                let c = layout.cols as int;
                assert(k == row * c + col);
                assert(k % c == col && k / c == row) by (nonlinear_arith)
                    requires k == row * c + col, 0 <= col < c, 0 <= row;
            }
            out.push(Region { x, y, width: card_w, height: card_h });
            col = col + 1;
        }
        assert(out.len() == (row + 1) * layout.cols) by (nonlinear_arith)
            requires out.len() == row * layout.cols + layout.cols;
        row = row + 1;
    }
    Ok(out)
}

/// The regions of the six player cards of the reference screen, in
/// row-major order, or the error for an image smaller than its list box.
pub fn crop_player_cards_1920_1080(image_width: u32, image_height: u32) -> (r: Result<
    Vec<Region>,
    LayoutError,
>)
    ensures
        card_regions_result(
            GridLayout {
                list_width: 1200,
                list_height: 550,
                rows: 3,
                cols: 2,
                card_width: 600,
                card_height: 180,
            },
            image_width,
            image_height,
            r,
        ),
{
    crop_and_save_player_cards_dynamic(&GridLayout::reference(), image_width, image_height)
}

/// Whether the point lies in the list box of `layout` in an image of the
/// given size.
pub open spec fn in_list_box(layout: GridLayout, width: int, height: int, px: int, py: int) -> bool {
    &&& layout.start_x(width) <= px < layout.start_x(width) + layout.list_width
    &&& layout.start_y(height) <= py < layout.start_y(height) + layout.list_height
}

/// Along one axis: `n` cells of size `c` placed at `i * c` cover
/// `[0, n * c)`, and the cell that holds a point is `p / c`.
proof fn lemma_axis(n: int, c: int, p: int, i: int)
    requires
        n > 0,
        c >= 0,
    ensures
        0 <= p < n * c ==> c > 0 && 0 <= p / c < n && (p / c) * c <= p < (p / c) * c + c,
        0 <= i < n && i * c <= p < i * c + c ==> 0 <= p < n * c && i == p / c,
{
    if 0 <= p < n * c {
        assert(c > 0) by (nonlinear_arith)
            requires 0 <= p < n * c, n > 0, c >= 0;
        let q = p / c;
        assert(q * c <= p < q * c + c) by (nonlinear_arith)
            requires c > 0, q == p / c, p >= 0;
        assert(0 <= q) by (nonlinear_arith)
            requires c > 0, q == p / c, p >= 0;
        assert(q < n) by (nonlinear_arith)
            requires c > 0, q * c <= p, p < n * c;
    }
    if 0 <= i < n && i * c <= p < i * c + c {
        assert(0 <= p < n * c) by (nonlinear_arith)
            requires 0 <= i < n, i * c <= p, p < i * c + c, c >= 0;
        assert(i == p / c) by (nonlinear_arith)
            requires i * c <= p, p < i * c + c, 0 <= i;
    }
}

/// Where the cards fill the list box exactly, they tile it: a point lies in
/// the list box exactly when it lies in some card, and no point lies in two
/// cards.
pub proof fn lemma_cards_tile_list_box(layout: GridLayout, width: u32, height: u32, px: int, py: int)
    requires
        layout.rows > 0,
        layout.cols > 0,
        layout.cols * layout.card_width == layout.list_width,
        layout.rows * layout.card_height == layout.list_height,
        layout.fits(width as int, height as int),
    ensures
        in_list_box(layout, width as int, height as int, px, py) <==> exists|k: int|
            0 <= k < layout.slots() && #[trigger] slot_region(
                layout,
                width as int,
                height as int,
                k,
            ).contains(px, py),
        forall|k1: int, k2: int|
            0 <= k1 < layout.slots() && 0 <= k2 < layout.slots() && #[trigger] slot_region(
                layout,
                width as int,
                height as int,
                k1,
            ).contains(px, py) && #[trigger] slot_region(
                layout,
                width as int,
                height as int,
                k2,
            ).contains(px, py) ==> k1 == k2,
{
    let c = layout.cols as int;
    let r = layout.rows as int;
    let sx = layout.start_x(width as int);
    let sy = layout.start_y(height as int);
    let cw = layout.card_width as int;
    let ch = layout.card_height as int;
    let n = layout.slots();
    assert(n == r * c);
    assert forall|k: int| 0 <= k < n implies {
        &&& #[trigger] slot_region(layout, width as int, height as int, k).x == layout.slot_x(width as int, k)
        &&& slot_region(layout, width as int, height as int, k).y == layout.slot_y(height as int, k)
        &&& 0 <= k % c < c
        &&& 0 <= k / c < r
        &&& k == (k / c) * c + k % c
    } by {
        assert(0 <= k % c < c && k == (k / c) * c + k % c) by (nonlinear_arith)
            requires c > 0;
        assert(0 <= k / c < r) by (nonlinear_arith)
            requires c > 0, 0 <= k < r * c;
        lemma_offset_bound(k % c, c, cw, layout.list_width as int);
        lemma_offset_bound(k / c, r, ch, layout.list_height as int);
    }
    if in_list_box(layout, width as int, height as int, px, py) {
        lemma_axis(c, cw, px - sx, 0);
        lemma_axis(r, ch, py - sy, 0);
        let col = (px - sx) / cw;
        let row = (py - sy) / ch;
        let k = row * c + col;
        assert(0 <= k < n && k % c == col && k / c == row) by (nonlinear_arith)
            requires 0 <= col < c, 0 <= row < r, k == row * c + col, n == r * c;
        assert(slot_region(layout, width as int, height as int, k).contains(px, py));
    }
    assert forall|k: int|
        0 <= k < n && #[trigger] slot_region(layout, width as int, height as int, k).contains(
            px,
            py,
        ) implies in_list_box(layout, width as int, height as int, px, py) && k % c == (px - sx)
        / cw && k / c == (py - sy) / ch by {
        lemma_axis(c, cw, px - sx, k % c);
        lemma_axis(r, ch, py - sy, k / c);
    }
}

} // verus!
