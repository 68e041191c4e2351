//! A rectangular grid of RGBA pixels, stored row by row.
use vstd::prelude::*;

verus! {

/// A `width` by `height` grid of RGBA pixels; row `y` holds the pixels `(0, y) .. (width - 1, y)`.
pub struct PixelGrid {
    width: u32,
    height: u32,
    rows: Vec<Vec<[u8; 4]>>,
}

impl View for PixelGrid {
    type V = Seq<Seq<[u8; 4]>>;

    /// The rows of the grid, top to bottom.
    closed spec fn view(&self) -> Seq<Seq<[u8; 4]>> {
        self.rows@.map_values(|r: Vec<[u8; 4]>| r@)
    }
}

/// True when `cells` has `h` rows of `w` pixels each.
pub open spec fn is_rectangular(cells: Seq<Seq<[u8; 4]>>, w: nat, h: nat) -> bool {
    &&& cells.len() == h
    &&& forall|y: int| 0 <= y < h ==> #[trigger] cells[y].len() == w
}

/// The pixel at `(x, y)` when it lies inside the grid and is fully opaque.
pub open spec fn opaque_at(cells: Seq<Seq<[u8; 4]>>, x: int, y: int) -> Option<[u8; 4]> {
    if 0 <= y < cells.len() && 0 <= x < cells[y].len() && cells[y][x][3] == 255 {
        Some(cells[y][x])
    } else {
        None
    }
}

impl PixelGrid {
    /// The grid's width.
    pub closed spec fn spec_width(&self) -> nat {
        self.width as nat
    }

    /// The grid's height.
    pub closed spec fn spec_height(&self) -> nat {
        self.height as nat
    }

    /// The grid holds `spec_height()` rows of `spec_width()` pixels each.
    pub open spec fn well_formed(&self) -> bool {
        is_rectangular(self@, self.spec_width(), self.spec_height())
    }

    /// A grid of the given rows, all of which must have the same length; `None`
    /// when they do not, or when a dimension does not fit in `u32`.
    pub fn from_rows(rows: Vec<Vec<[u8; 4]>>) -> (r: Option<PixelGrid>)
        ensures
            r is Some <==> (rows@.len() <= u32::MAX && (rows@.len() > 0 ==> rows@[0].len()
                <= u32::MAX) && forall|y: int| 0 <= y < rows@.len() ==> #[trigger] rows@[y].len()
                == rows@[0].len()),
            r matches Some(g) ==> {
                &&& g.well_formed()
                &&& g@ == rows@.map_values(|r: Vec<[u8; 4]>| r@)
                &&& g.spec_height() == rows@.len()
                &&& g.spec_width() == if rows@.len() == 0 { 0 } else { rows@[0].len() }
            },
    {
        let n = rows.len();
        if n > u32::MAX as usize {
            return None;
        }
        let mut width: usize = 0;
        if n > 0 {
            width = rows[0].len();
            if width > u32::MAX as usize {
                return None;
            }
        }
        let mut y: usize = 0;
        while y < n
            invariant
                y <= n,
                n == rows@.len(),
                n > 0 ==> width == rows@[0].len(),
                forall|j: int| 0 <= j < y ==> #[trigger] rows@[j].len() == width,
            decreases n - y,
        {
            if rows[y].len() != width {
                return None;
            }
            y = y + 1;
        }
        let g = PixelGrid { width: width as u32, height: n as u32, rows };
        proof {
            assert forall|j: int| 0 <= j < g@.len() implies #[trigger] g@[j].len() == g.spec_width() by {
                assert(g@[j] == g.rows@[j]@);
                assert(g.rows@[j] == rows@[j]);
                assert(rows@[j].len() == width);
            }
        }
        Some(g)
    }

    /// A `width` by `height` grid read from row-major RGBA bytes, four per pixel; `None` when
    /// `data` holds fewer than `4 * width * height` bytes. Bytes past those are ignored.
    pub fn from_raw(width: u32, height: u32, data: &[u8]) -> (r: Option<PixelGrid>)
        ensures
            r is Some <==> 4 * width * height <= data@.len(),
            r matches Some(g) ==> {
                &&& g.well_formed()
                &&& g.spec_width() == width
                &&& g.spec_height() == height
                &&& forall|x: int, y: int|
                    0 <= x < width && 0 <= y < height ==> (#[trigger] g@[y][x])@ == data@.subrange(
                        4 * (y * width + x),
                        4 * (y * width + x) + 4,
                    )
            },
    {
        proof {
            assert(width as int * height as int <= u32::MAX as int * u32::MAX as int) by (nonlinear_arith);
            assert(4 * width * height == 4 * (width as int * height as int)) by (nonlinear_arith);
        }
        let len: usize = data.len();
        let cells: u64 = width as u64 * height as u64;
        match cells.checked_mul(4) {
            None => {
                assert(4 * cells > u64::MAX);
                assert(len <= u64::MAX);
                return None;
            },
            Some(n) => {
                if n > len as u64 {
                    assert(4 * width * height > data@.len());
                    return None;
                }
            },
        }
        let ghost w = width as int;
        let mut rows: Vec<Vec<[u8; 4]>> = Vec::new();
        let mut i: usize = 0;
        let mut y: u32 = 0;
        while y < height
            invariant
                y <= height,
                w == width,
                4 * width * height <= data@.len(),
                i == 4 * (y * w),
                rows@.len() == y,
                forall|j: int| 0 <= j < y ==> #[trigger] rows@[j]@.len() == width,
                forall|x: int, j: int|
                    0 <= x < width && 0 <= j < y ==> (#[trigger] rows@[j]@[x])@ == data@.subrange(
                        4 * (j * w + x),
                        4 * (j * w + x) + 4,
                    ),
            decreases height - y,
        {
            let mut row: Vec<[u8; 4]> = Vec::new();
            let mut x: u32 = 0;
            while x < width
                invariant
                    x <= width,
                    y < height,
                    w == width,
                    4 * width * height <= data@.len(),
                    i == 4 * (y * w + x),
                    row@.len() == x,
                    forall|k: int|
                        0 <= k < x ==> (#[trigger] row@[k])@ == data@.subrange(
                            4 * (y * w + k),
                            4 * (y * w + k) + 4,
                        ),
                decreases width - x,
            {
                proof {
                    assert(4 * (y * w + x) + 4 <= 4 * width * height) by (nonlinear_arith)
                        requires
                            x < width,
                            y < height,
                            w == width,
                    ;
                }
                let p: [u8; 4] = [data[i], data[i + 1], data[i + 2], data[i + 3]];
                proof {
                    assert(p@ =~= data@.subrange(i as int, i + 4));
                }
                row.push(p);
                i = i + 4;
                x = x + 1;
            }
            proof {
                assert(4 * (y * w + width) == 4 * ((y + 1) * w)) by (nonlinear_arith)
                    requires
                        w == width,
                ;
            }
            rows.push(row);
            y = y + 1;
        }
        let g = PixelGrid { width, height, rows };
        proof {
            assert forall|j: int| 0 <= j < g@.len() implies #[trigger] g@[j].len() == g.spec_width() by {
                assert(g@[j] == g.rows@[j]@);
            }
            assert forall|x: int, j: int| 0 <= x < width && 0 <= j < height implies (
            #[trigger] g@[j][x])@ == data@.subrange(4 * (j * width + x), 4 * (j * width + x) + 4) by {
                assert(g@[j] == g.rows@[j]@);
            }
        }
        Some(g)
    }

    /// The grid's width.
    pub fn width(&self) -> (r: u32)
        ensures
            r as nat == self.spec_width(),
    {
        self.width
    }

    /// The grid's height.
    pub fn height(&self) -> (r: u32)
        ensures
            r as nat == self.spec_height(),
    {
        self.height
    }

    /// The grid's `(width, height)`.
    pub fn dimensions(&self) -> (r: (u32, u32))
        ensures
            r.0 as nat == self.spec_width(),
            r.1 as nat == self.spec_height(),
    {
        (self.width, self.height)
    }

    /// The pixels of row `y`, left to right.
    pub fn row(&self, y: u32) -> (r: &[[u8; 4]])
        requires
            self.well_formed(),
            y < self.spec_height(),
        ensures
            r@ == self@[y as int],
    {
        self.rows[y as usize].as_slice()
    }

    /// The pixel at `(x, y)`.
    pub fn get_pixel(&self, x: u32, y: u32) -> (r: [u8; 4])
        requires
            self.well_formed(),
            x < self.spec_width(),
            y < self.spec_height(),
        ensures
            r == self@[y as int][x as int],
    {
        assert(self@[y as int] == self.rows@[y as int]@);
        self.rows[y as usize][x as usize]
    }
}

} // verus!
