//! A finished tile layer: one tile stack per cell of the area.

use vstd::prelude::*;
use crate::errors::GenError;
use crate::resources::Tile;

verus! {

/// A finished layer: `width * height` tile stacks, the stack for cell
/// `(x, y)` at index `x + y * width`.  By construction every stack's cell
/// lies inside the area: an index below `width * height` decomposes into
/// coordinates `0 <= x < width`, `0 <= y < height`.
pub struct Layer {
    pub id: String,
    width: i32,
    height: i32,
    tiles: Vec<Vec<Tile>>,
}

impl Layer {
    pub closed spec fn spec_id(&self) -> Seq<char> {
        self.id@
    }

    pub closed spec fn spec_width(&self) -> int {
        self.width as int
    }

    pub closed spec fn spec_height(&self) -> int {
        self.height as int
    }

    pub closed spec fn spec_tiles(&self) -> Seq<Seq<Tile>> {
        self.tiles@.map_values(|v: Vec<Tile>| v@)
    }

    pub open spec fn wf(&self) -> bool {
        &&& 0 < self.spec_width()
        &&& 0 < self.spec_height()
        &&& self.spec_width() * self.spec_height() <= i32::MAX as int
        &&& self.spec_tiles().len() == self.spec_width() * self.spec_height()
    }

    /// Wraps assembled tile stacks as a layer.  Fails as `InvalidData`
    /// exactly when the dimensions are unusable or the stack count does not
    /// match them.
    pub fn new(width: i32, height: i32, id: String, tiles: Vec<Vec<Tile>>) -> (r: Result<
        Layer,
        GenError,
    >)
        ensures
            match r {
                Ok(l) => {
                    &&& 0 < width
                    &&& 0 < height
                    &&& width as int * height as int <= i32::MAX as int
                    &&& tiles@.len() == width as int * height as int
                    &&& l.wf()
                    &&& l.spec_id() == id@
                    &&& l.spec_width() == width
                    &&& l.spec_height() == height
                    &&& l.spec_tiles() == tiles@.map_values(|v: Vec<Tile>| v@)
                },
                Err(e) => {
                    &&& e == GenError::InvalidData
                    &&& !(0 < width && 0 < height && width as int * height as int <= i32::MAX
                        as int && tiles@.len() == width as int * height as int)
                },
            },
    {
        if width <= 0 || height <= 0 {
            return Err(GenError::InvalidData);
        }
        proof {
            assert((width as int) * (height as int) < i64::MAX as int) by (nonlinear_arith)
                requires
                    0 < width as int <= i32::MAX as int,
                    0 < height as int <= i32::MAX as int,
            ;
        }
        if (width as i64) * (height as i64) > i32::MAX as i64 {
            proof {
                assert(!(width as int * height as int <= i32::MAX as int)) by (nonlinear_arith)
                    requires
                        (width as i64) * (height as i64) > i32::MAX as i64,
                        width as i64 == width as int,
                        height as i64 == height as int,
                ;
            }
            return Err(GenError::InvalidData);
        }
        let expected: usize = (width as usize) * (height as usize);
        if tiles.len() != expected {
            return Err(GenError::InvalidData);
        }
        Ok(Layer { id, width, height, tiles })
    }

    pub fn id(&self) -> (r: &String)
        ensures
            r@ == self.spec_id(),
    {
        &self.id
    }

    pub fn width(&self) -> (r: i32)
        ensures
            r == self.spec_width(),
    {
        self.width
    }

    pub fn height(&self) -> (r: i32)
        ensures
            r == self.spec_height(),
    {
        self.height
    }

    /// The tile stack at cell `(x, y)`.
    pub open spec fn spec_tiles_at(&self, x: int, y: int) -> Seq<Tile> {
        self.spec_tiles()[x + y * self.spec_width()]
    }

    /// A cell outside the layer counts as occupied; a cell inside is
    /// occupied when its stack is not empty.
    pub open spec fn spec_occupied(&self, x: int, y: int) -> bool {
        if 0 <= x < self.spec_width() && 0 <= y < self.spec_height() {
            self.spec_tiles_at(x, y).len() > 0
        } else {
            true
        }
    }

    /// A cell outside the layer blocks; a cell inside blocks when some tile
    /// of its stack is impassable.
    pub open spec fn spec_impassable_at(&self, x: int, y: int) -> bool {
        if 0 <= x < self.spec_width() && 0 <= y < self.spec_height() {
            exists|t: int|
                0 <= t < self.spec_tiles_at(x, y).len() && (#[trigger] self.spec_tiles_at(x, y)[t]).impass
        } else {
            true
        }
    }

    pub fn is_impassable(&self, x: i32, y: i32) -> (r: bool)
        requires
            self.wf(),
        ensures
            r == self.spec_impassable_at(x as int, y as int),
    {
        if 0 <= x && x < self.width && 0 <= y && y < self.height {
            proof {
                crate::maze::lemma_grid_index(x as int, y as int, self.spec_width(),
                    self.spec_height());
            }
            let idx: usize = (x as usize) + (y as usize) * (self.width as usize);
            let stack = &self.tiles[idx];
            let n: usize = stack.len();
            let mut t: usize = 0;
            while t < n
                invariant
                    n == stack@.len(),
                    0 <= t <= n,
                    stack@ == self.spec_tiles_at(x as int, y as int),
                    forall|q: int| 0 <= q < t ==> !(#[trigger] stack@[q]).impass,
                decreases n - t,
            {
                if stack[t].impass {
                    return true;
                }
                t = t + 1;
            }
            false
        } else {
            true
        }
    }

    pub fn is_occupied(&self, x: i32, y: i32) -> (r: bool)
        requires
            self.wf(),
        ensures
            r == self.spec_occupied(x as int, y as int),
    {
        if 0 <= x && x < self.width && 0 <= y && y < self.height {
            proof {
                crate::maze::lemma_grid_index(x as int, y as int, self.spec_width(),
                    self.spec_height());
            }
            let idx: usize = (x as usize) + (y as usize) * (self.width as usize);
            self.tiles[idx].len() > 0
        } else {
            true
        }
    }

    /// The tile stack at cell `(x, y)`.
    pub fn tiles_at(&self, x: i32, y: i32) -> (r: &Vec<Tile>)
        requires
            self.wf(),
            0 <= x < self.spec_width(),
            0 <= y < self.spec_height(),
        ensures
            r@ == self.spec_tiles_at(x as int, y as int),
    {
        proof {
            crate::maze::lemma_grid_index(x as int, y as int, self.spec_width(),
                self.spec_height());
        }
        let idx: usize = (x as usize) + (y as usize) * (self.width as usize);
        &self.tiles[idx]
    }

    pub fn stack_count(&self) -> (r: usize)
        ensures
            r == self.spec_tiles().len(),
    {
        self.tiles.len()
    }
}

/// Every stack index of a well-formed layer decomposes into in-bounds cell
/// coordinates: no tile stack lies outside the area.
pub proof fn lemma_layer_bounds(l: Layer, i: int)
    requires
        l.wf(),
        0 <= i < l.spec_tiles().len(),
    ensures
        0 <= i % l.spec_width() < l.spec_width(),
        0 <= i / l.spec_width() < l.spec_height(),
        i == (i % l.spec_width()) + (i / l.spec_width()) * l.spec_width(),
{
    let w = l.spec_width();
    let h = l.spec_height();
    assert(0 <= i % w < w && 0 <= i / w < h && i == (i % w) + (i / w) * w) by (nonlinear_arith)
        requires
            0 < w,
            0 < h,
            0 <= i < w * h,
    ;
}

} // verus!
