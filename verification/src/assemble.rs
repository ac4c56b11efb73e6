//! The image: a grid of cells, each filled by exactly one pixel, whatever the
//! order in which the pixels arrive.
use crate::canvas::blank_canvas;
use crate::canvas::canvas_pixels;
use crate::canvas::canvas_size;
use crate::canvas::into_bytes;
use crate::canvas::set_pixel;
use crate::canvas::Canvas;
use crate::error::PipelineError;
use crate::normalize::Color;
use vstd::prelude::*;
use vstd::set_lib::lemma_int_range;
use vstd::set_lib::lemma_len_subset;
use vstd::set_lib::lemma_subset_equality;
use vstd::set_lib::set_int_range;

verus! {

/// The result of one window: the cell that it belongs to, and its colour.
#[derive(Clone, Copy, Debug, PartialEq, Eq)]
pub struct Pixel {
    pub index: usize,
    pub color: Color,
}

/// The column of the cell with the given index. The index counts through
/// the columns `0` to `height - 1` of one row, then goes on in the next row.
pub open spec fn column_of(index: int, height: int) -> int {
    index % height
}

/// The row of the cell with the given index.
pub open spec fn row_of(index: int, height: int) -> int {
    index / height
}

/// The index of the cell in the given column and row.
pub open spec fn index_at(column: int, row: int, height: int) -> int {
    row * height + column
}

/// The indices of the cells that have been written.
pub open spec fn written(cells: Seq<Option<Color>>) -> Set<int> {
    Set::new(|index: int| 0 <= index < cells.len() && cells[index] is Some)
}

/// Whether every cell has been written.
pub open spec fn complete(cells: Seq<Option<Color>>) -> bool {
    forall|index: int| 0 <= index < cells.len() ==> (#[trigger] cells[index]) is Some
}

/// Whether a pixel can be placed: its cell exists and is still empty.
pub open spec fn fits(cells: Seq<Option<Color>>, pixel: Pixel) -> bool {
    pixel.index < cells.len() && cells[pixel.index as int] is None
}

/// The cells after the pixel has been placed.
pub open spec fn place(cells: Seq<Option<Color>>, pixel: Pixel) -> Seq<Option<Color>> {
    cells.update(pixel.index as int, Some(pixel.color))
}

/// Whether the messages fill a grid of `pixel_count` cells, each cell exactly
/// once: there are as many messages as cells, each names a cell of the grid,
/// and no two name the same cell.
pub open spec fn each_cell_once(messages: Seq<Pixel>, pixel_count: int) -> bool {
    &&& messages.len() == pixel_count
    &&& forall|k: int| 0 <= k < messages.len() ==> (#[trigger] messages[k]).index < pixel_count
    &&& forall|j: int, k: int|
        0 <= j < k < messages.len()
            ==> (#[trigger] messages[j]).index != (#[trigger] messages[k]).index
}

/// Whether the cells hold what the messages say: one cell per message, and
/// the colour of each message in the cell that it names.
pub open spec fn assembled(messages: Seq<Pixel>, cells: Seq<Color>) -> bool {
    &&& cells.len() == messages.len()
    &&& forall|k: int|
        0 <= k < messages.len() ==> {
            &&& (#[trigger] messages[k]).index < cells.len()
            &&& cells[messages[k].index as int] == messages[k].color
        }
}

/// Index and coordinates name the same cell: every index has a column below
/// `height` and a row below `width`, and leads back to itself.
pub proof fn lemma_index_to_coordinates(index: int, width: int, height: int)
    requires
        0 <= index < width * height,
        0 <= width,
        0 <= height,
    ensures
        0 <= column_of(index, height) < height,
        0 <= row_of(index, height) < width,
        index_at(column_of(index, height), row_of(index, height), height) == index,
{
    assert(height > 0) by (nonlinear_arith)
        requires
            0 <= index < width * height,
            0 <= width,
            0 <= height,
    ;
    vstd::arithmetic::div_mod::lemma_fundamental_div_mod(index, height);
    let row = index / height;
    let column = index % height;
    assert(height * row == row * height) by (nonlinear_arith);
    assert(0 <= row < width) by (nonlinear_arith)
        requires
            index == row * height + column,
            0 <= column < height,
            0 <= index < width * height,
    ;
}

/// Every pair of a column below `height` and a row below `width` names one
/// cell of the grid, and the cell's index leads back to the pair.
pub proof fn lemma_coordinates_to_index(column: int, row: int, width: int, height: int)
    requires
        0 <= column < height,
        0 <= row < width,
    ensures
        0 <= index_at(column, row, height) < width * height,
        column_of(index_at(column, row, height), height) == column,
        row_of(index_at(column, row, height), height) == row,
{
    let index = row * height + column;
    assert(0 <= index < width * height) by (nonlinear_arith)
        requires
            index == row * height + column,
            0 <= column < height,
            0 <= row < width,
    ;
    vstd::arithmetic::div_mod::lemma_fundamental_div_mod_converse(index, height, row, column);
}

/// The written cells are finitely many, no more than there are cells, and all
/// of them exactly when their number is the number of cells.
pub proof fn lemma_written_count(cells: Seq<Option<Color>>)
    ensures
        written(cells).finite(),
        written(cells).len() <= cells.len(),
        written(cells).len() == cells.len() <==> complete(cells),
{
    let all = set_int_range(0, cells.len() as int);
    lemma_int_range(0, cells.len() as int);
    lemma_len_subset(written(cells), all);
    if written(cells).len() == cells.len() {
        lemma_subset_equality(written(cells), all);
        assert forall|index: int| 0 <= index < cells.len() implies
            (#[trigger] cells[index]) is Some
        by {
            assert(all.contains(index));
        }
    }
    if complete(cells) {
        assert(written(cells) =~= all);
    }
}

/// Placing a pixel that fits writes one more cell.
pub proof fn lemma_place_writes_one(cells: Seq<Option<Color>>, pixel: Pixel)
    requires
        fits(cells, pixel),
    ensures
        written(place(cells, pixel)) == written(cells).insert(pixel.index as int),
        written(place(cells, pixel)).len() == written(cells).len() + 1,
{
    lemma_written_count(cells);
    assert(written(place(cells, pixel)) =~= written(cells).insert(pixel.index as int));
}

/// Messages that fill each cell once leave no cell out: every cell is
/// named by a message.
pub proof fn lemma_each_cell_once_covers(messages: Seq<Pixel>, pixel_count: int, index: int)
    requires
        each_cell_once(messages, pixel_count),
        0 <= index < pixel_count,
    ensures
        exists|k: int| 0 <= k < messages.len() && (#[trigger] messages[k]).index == index,
{
    let named = Seq::new(messages.len(), |k: int| messages[k].index as int);
    assert(named.no_duplicates());
    named.unique_seq_to_set();
    let all = set_int_range(0, pixel_count);
    lemma_int_range(0, pixel_count);
    assert(named.to_set().subset_of(all)) by {
        assert forall|cell: int| named.to_set().contains(cell) implies all.contains(cell) by {
            let k = choose|k: int| 0 <= k < named.len() && named[k] == cell;
            assert(messages[k].index < pixel_count);
        }
    }
    lemma_len_subset(named.to_set(), all);
    lemma_subset_equality(named.to_set(), all);
    assert(all.contains(index));
    assert(named.contains(index));
    let k = choose|k: int| 0 <= k < named.len() && named[k] == index;
    assert(messages[k].index == index);
}

/// The image does not depend on the order in which the pixels arrive: two
/// runs that deliver the same pixels, each filling every cell once, assemble
/// the same cells.
pub proof fn lemma_assembly_ignores_order(
    first: Seq<Pixel>,
    second: Seq<Pixel>,
    first_cells: Seq<Color>,
    second_cells: Seq<Color>,
)
    requires
        each_cell_once(first, first.len() as int),
        each_cell_once(second, first.len() as int),
        forall|j: int| 0 <= j < first.len() ==> second.contains(#[trigger] first[j]),
        assembled(first, first_cells),
        assembled(second, second_cells),
    ensures
        first_cells == second_cells,
{
    assert forall|index: int| 0 <= index < first_cells.len() implies
        first_cells[index] == second_cells[index]
    by {
        lemma_each_cell_once_covers(first, first.len() as int, index);
        let j = choose|j: int| 0 <= j < first.len() && (#[trigger] first[j]).index == index;
        assert(second.contains(first[j]));
        let k = choose|k: int| 0 <= k < second.len() && second[k] == first[j];
        assert(second[k].index == index);
    }
    assert(first_cells =~= second_cells);
}

/// The number of the pixel that holds the cell with the given index, where
/// the pixels of an image of the given size are counted row after row.
pub open spec fn pixel_number(index: int, width: int, height: int) -> int {
    row_of(index, height) * width + column_of(index, height)
}

/// The colour whose three bytes stand at the place of the pixel with the
/// given number.
pub open spec fn color_at(bytes: Seq<u8>, number: int) -> Color {
    (bytes[3 * number], bytes[3 * number + 1], bytes[3 * number + 2])
}

/// Whether an image of the given size can be assembled: the cells of a
/// square image all lie inside it, its sides can be counted in thirty-two
/// bits, and its bytes can be held in memory.
pub open spec fn can_hold(width: int, height: int) -> bool {
    &&& width == height
    &&& 0 <= width <= u32::MAX
    &&& 3 * width * height <= isize::MAX
}

/// Whether an image of the given size can be assembled.
pub fn can_assemble(width: usize, height: usize) -> (possible: bool)
    ensures
        possible == can_hold(width as int, height as int),
{
    if width != height || width > u32::MAX as usize {
        return false;
    }
    let side: u128 = width as u128;
    assert(3 * side * side <= 3 * 0xffff_ffff * 0xffff_ffff) by (nonlinear_arith)
        requires
            0 <= side <= 0xffff_ffff,
    ;
    3 * side * side <= isize::MAX as u128
}

/// In a square image the pixels are counted as the cells are.
pub proof fn lemma_square_numbers_cells(index: int, side: int)
    requires
        0 <= side,
        0 <= index < side * side,
    ensures
        pixel_number(index, side, side) == index,
        0 <= column_of(index, side) < side,
        0 <= row_of(index, side) < side,
{
    lemma_index_to_coordinates(index, side, side);
}

/// The finished image: every cell holds the colour of its pixel. The colour
/// of the pixel with index `i` is the `i`-th of the view.
#[derive(Debug)]
pub struct ImageGrid {
    width: usize,
    height: usize,
    bytes: Vec<u8>,
}

impl View for ImageGrid {
    type V = Seq<Color>;

    closed spec fn view(&self) -> Seq<Color> {
        Seq::new(
            (self.width * self.height) as nat,
            |index: int|
                color_at(self.bytes@, pixel_number(index, self.width as int, self.height as int)),
        )
    }
}

impl ImageGrid {
    /// A grid is square and holds three bytes for each of its cells.
    #[verifier::type_invariant]
    spec fn sized(self) -> bool {
        &&& self.width == self.height
        &&& self.bytes@.len() == 3 * (self.width * self.height)
    }

    /// The width that the image was made with.
    pub closed spec fn spec_width(&self) -> usize {
        self.width
    }

    /// The height that the image was made with.
    pub closed spec fn spec_height(&self) -> usize {
        self.height
    }

    /// The width that the image was made with.
    #[verifier::when_used_as_spec(spec_width)]
    pub fn width(&self) -> (width: usize)
        ensures
            width == self.spec_width(),
    {
        self.width
    }

    /// The height that the image was made with.
    #[verifier::when_used_as_spec(spec_height)]
    pub fn height(&self) -> (height: usize)
        ensures
            height == self.spec_height(),
    {
        self.height
    }

    /// The number of cells.
    pub fn pixel_count(&self) -> (count: usize)
        ensures
            count == self@.len(),
            count == self.width() * self.height(),
    {
        proof {
            use_type_invariant(self);
        }
        self.bytes.len() / 3
    }

    /// The colour of the pixel with the given index.
    pub fn cell(&self, index: usize) -> (color: Color)
        requires
            index < self@.len(),
        ensures
            color == self@[index as int],
    {
        let length: usize = self.bytes.len();
        proof {
            use_type_invariant(self);
            lemma_square_numbers_cells(index as int, self.width as int);
        }
        (self.bytes[3 * index], self.bytes[3 * index + 1], self.bytes[3 * index + 2])
    }

    /// The colour of the cell in the given column and row.
    pub fn get(&self, column: usize, row: usize) -> (color: Color)
        requires
            column < self.height(),
            row < self.width(),
        ensures
            index_at(column as int, row as int, self.height() as int) < self@.len(),
            color == self@[index_at(column as int, row as int, self.height() as int)],
    {
        let length: usize = self.bytes.len();
        proof {
            use_type_invariant(self);
            lemma_coordinates_to_index(
                column as int,
                row as int,
                self.width as int,
                self.height as int,
            );
            assert(0 <= row * self.height) by (nonlinear_arith);
        }
        self.cell(row * self.height + column)
    }

    /// The bytes of the image, as the image library takes them: three for
    /// each pixel, red, green and blue, the pixels row after row.
    pub fn into_raw(self) -> (bytes: Vec<u8>)
        ensures
            bytes@.len() == 3 * self@.len(),
            forall|index: int|
                0 <= index < self@.len() ==> #[trigger] self@[index] == color_at(
                    bytes@,
                    pixel_number(index, self.width() as int, self.height() as int),
                ),
    {
        proof {
            use_type_invariant(&self);
        }
        self.bytes
    }
}

/// The single consumer of the pixels: it places each pixel that arrives into
/// its cell of the image and keeps count, until every cell is written.
#[derive(Debug)]
pub struct ImageAssembler {
    width: usize,
    height: usize,
    canvas: Canvas,
    marks: Vec<bool>,
    received: usize,
}

impl View for ImageAssembler {
    type V = Seq<Option<Color>>;

    closed spec fn view(&self) -> Seq<Option<Color>> {
        Seq::new(
            self.marks@.len(),
            |index: int|
                if self.marks@[index] {
                    Some(
                        canvas_pixels(self.canvas)[pixel_number(
                            index,
                            self.width as int,
                            self.height as int,
                        )],
                    )
                } else {
                    None::<Color>
                },
        )
    }
}

impl ImageAssembler {
    /// The assembler's invariant: a square image with a mark for each of its
    /// cells, and a count of the pixels received that is the number of cells
    /// written.
    pub closed spec fn wf(&self) -> bool {
        &&& can_hold(self.width as int, self.height as int)
        &&& canvas_size(self.canvas) == (self.width as nat, self.height as nat)
        &&& canvas_pixels(self.canvas).len() == self.width * self.height
        &&& self.marks@.len() == self.width * self.height
        &&& self.received == written(self@).len()
    }

    /// The width of the image under assembly.
    pub closed spec fn spec_width(&self) -> usize {
        self.width
    }

    /// The height of the image under assembly.
    pub closed spec fn spec_height(&self) -> usize {
        self.height
    }

    /// The width of the image under assembly.
    #[verifier::when_used_as_spec(spec_width)]
    pub fn width(&self) -> (width: usize)
        ensures
            width == self.spec_width(),
    {
        self.width
    }

    /// The height of the image under assembly.
    #[verifier::when_used_as_spec(spec_height)]
    pub fn height(&self) -> (height: usize)
        ensures
            height == self.spec_height(),
    {
        self.height
    }

    /// An assembler for an image of the given size, with every cell empty.
    pub fn new(width: usize, height: usize) -> (assembler: ImageAssembler)
        requires
            can_hold(width as int, height as int),
        ensures
            assembler.wf(),
            assembler.width() == width,
            assembler.height() == height,
            assembler@ == Seq::new((width * height) as nat, |index: int| None::<Color>),
    {
        assert(width * height <= 3 * width * height) by (nonlinear_arith)
            requires
                0 <= width,
                0 <= height,
        ;
        let count: usize = width * height;
        let canvas = blank_canvas(width as u32, height as u32);
        let mut marks: Vec<bool> = Vec::with_capacity(count);
        let mut made: usize = 0;
        while made < count
            invariant
                made <= count,
                marks@ == Seq::new(made as nat, |index: int| false),
            decreases count - made,
        {
            marks.push(false);
            made += 1;
            assert(marks@ =~= Seq::new(made as nat, |index: int| false));
        }
        let assembler = ImageAssembler { width, height, canvas, marks, received: 0 };
        proof {
            assert(assembler@ =~= Seq::new((width * height) as nat, |index: int| None::<Color>));
            assert(written(assembler@) =~= Set::<int>::empty());
        }
        assembler
    }

    /// The number of pixels placed so far.
    pub fn received(&self) -> (count: usize)
        requires
            self.wf(),
        ensures
            count == written(self@).len(),
            count <= self@.len(),
    {
        proof {
            lemma_written_count(self@);
        }
        self.received
    }

    /// Whether every cell has been written.
    pub fn is_complete(&self) -> (done: bool)
        requires
            self.wf(),
        ensures
            done == complete(self@),
    {
        proof {
            lemma_written_count(self@);
        }
        self.received == self.marks.len()
    }

    /// Places one pixel into its cell.
    ///
    /// A pixel that names no cell of the image, or a cell that is already
    /// written, shows that the pixels of this run cannot fill the image:
    /// it is refused, and nothing changes.
    pub fn accept(&mut self, pixel: Pixel) -> (result: Result<(), PipelineError>)
        requires
            old(self).wf(),
        ensures
            final(self).wf(),
            final(self).width() == old(self).width(),
            final(self).height() == old(self).height(),
            result is Ok <==> fits(old(self)@, pixel),
            result is Ok ==> final(self)@ == place(old(self)@, pixel),
            result is Err ==> final(self)@ == old(self)@ && result->Err_0
                == PipelineError::IncompleteImage,
    {
        if pixel.index >= self.marks.len() {
            return Err(PipelineError::IncompleteImage);
        }
        if self.marks[pixel.index] {
            return Err(PipelineError::IncompleteImage);
        }
        let side: usize = self.height;
        proof {
            lemma_square_numbers_cells(pixel.index as int, side as int);
            lemma_place_writes_one(self@, pixel);
            lemma_written_count(place(self@, pixel));
        }
        let column: usize = pixel.index % side;
        let row: usize = pixel.index / side;
        set_pixel(&mut self.canvas, column as u32, row as u32, pixel.color);
        self.marks.set(pixel.index, true);
        self.received = self.received + 1;
        proof {
            assert forall|index: int| 0 <= index < self.marks@.len() implies
                self@[index] == place(old(self)@, pixel)[index]
            by {
                lemma_square_numbers_cells(index, side as int);
            }
            assert(self@ =~= place(old(self)@, pixel));
            lemma_written_count(self@);
        }
        Ok(())
    }

    /// Hands over the image once every cell is written. Before that the
    /// image is incomplete, and there is none.
    pub fn finish(self) -> (result: Result<ImageGrid, PipelineError>)
        requires
            self.wf(),
        ensures
            result is Ok <==> complete(self@),
            result is Err ==> result->Err_0 == PipelineError::IncompleteImage,
            result is Ok ==> ({
                let grid = result->Ok_0;
                &&& grid.width() == self.width()
                &&& grid.height() == self.height()
                &&& grid@.len() == self@.len()
                &&& forall|index: int|
                    0 <= index < grid@.len() ==> self@[index] == Some(#[trigger] grid@[index])
            }),
    {
        proof {
            lemma_written_count(self@);
        }
        if self.received != self.marks.len() {
            return Err(PipelineError::IncompleteImage);
        }
        let ghost cells = self@;
        let ghost pixels = canvas_pixels(self.canvas);
        let width: usize = self.width;
        let height: usize = self.height;
        let bytes = into_bytes(self.canvas);
        let grid = ImageGrid { width, height, bytes };
        proof {
            assert forall|index: int| 0 <= index < grid@.len() implies
                cells[index] == Some(#[trigger] grid@[index])
            by {
                lemma_square_numbers_cells(index, width as int);
                assert(cells[index] is Some);
                assert(pixels[index] == color_at(grid.bytes@, index));
            }
        }
        Ok(grid)
    }
}

/// Assembles the image from the pixels that the channel delivered, in the
/// order in which they came.
///
/// The first `width * height` messages are placed, each into the cell that
/// it names. The image is complete when they fill every cell exactly once.
/// When the channel closed before that many messages had come, or a message
/// names a cell outside the image or one that is already written, the image
/// is incomplete.
pub fn collect(
    messages: &Vec<Pixel>,
    width: usize,
    height: usize,
) -> (result: Result<ImageGrid, PipelineError>)
    requires
        can_hold(width as int, height as int),
    ensures
        result is Ok <==> messages@.len() >= width * height && each_cell_once(
            messages@.take(width * height),
            width * height,
        ),
        result is Err ==> result->Err_0 == PipelineError::IncompleteImage,
        result is Ok ==> ({
            let grid = result->Ok_0;
            &&& grid.width() == width
            &&& grid.height() == height
            &&& assembled(messages@.take(width * height), grid@)
        }),
{
    assert(width * height <= 3 * width * height) by (nonlinear_arith)
        requires
            0 <= width,
            0 <= height,
    ;
    let count: usize = width * height;
    if messages.len() < count {
        return Err(PipelineError::IncompleteImage);
    }
    let ghost awaited = messages@.take(count as int);
    let mut assembler = ImageAssembler::new(width, height);
    let mut taken: usize = 0;
    proof {
        assert(written(assembler@) =~= Set::<int>::empty());
    }
    while taken < count
        invariant
            taken <= count <= messages@.len(),
            count == width * height,
            awaited == messages@.take(count as int),
            assembler.wf(),
            assembler.width() == width,
            assembler.height() == height,
            assembler@.len() == count,
            written(assembler@).len() == taken,
            forall|k: int|
                0 <= k < taken ==> {
                    &&& (#[trigger] awaited[k]).index < count
                    &&& assembler@[awaited[k].index as int] == Some(awaited[k].color)
                },
            forall|j: int, k: int|
                0 <= j < k < taken
                    ==> (#[trigger] awaited[j]).index != (#[trigger] awaited[k]).index,
            forall|index: int|
                0 <= index < count && (#[trigger] assembler@[index]) is Some
                    ==> exists|k: int| 0 <= k < taken && (#[trigger] awaited[k]).index == index,
        decreases count - taken,
    {
        let pixel: Pixel = messages[taken];
        assert(pixel == awaited[taken as int]);
        let ghost before = assembler@;
        match assembler.accept(pixel) {
            Err(error) => {
                proof {
                    if pixel.index < count {
                        let k = choose|k: int|
                            0 <= k < taken && (#[trigger] awaited[k]).index == pixel.index;
                        assert(awaited[k].index == awaited[taken as int].index);
                    }
                }
                return Err(error);
            },
            Ok(()) => {
                proof {
                    lemma_place_writes_one(before, pixel);
                    assert forall|index: int|
                        0 <= index < count && (#[trigger] assembler@[index]) is Some
                    implies
                        exists|k: int| 0 <= k < taken + 1 && (#[trigger] awaited[k]).index == index
                    by {
                        if index == pixel.index {
                            assert(awaited[taken as int].index == index);
                        } else {
                            assert(before[index] is Some);
                            let k = choose|k: int|
                                0 <= k < taken && (#[trigger] awaited[k]).index == index;
                            assert(awaited[k].index == index);
                        }
                    }
                }
            },
        }
        taken += 1;
    }
    proof {
        lemma_written_count(assembler@);
    }
    match assembler.finish() {
        Ok(grid) => {
            proof {
                assert forall|k: int| 0 <= k < awaited.len() implies {
                    &&& (#[trigger] awaited[k]).index < grid@.len()
                    &&& grid@[awaited[k].index as int] == awaited[k].color
                } by {
                    let index = awaited[k].index as int;
                    assert(assembler@[index] == Some(grid@[index]));
                }
            }
            Ok(grid)
        },
        Err(error) => Err(error),
    }
}

} // verus!
