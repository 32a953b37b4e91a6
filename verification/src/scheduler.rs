//! Work partitioning: the picture is cut into bands of rows, each band is
//! rendered on its own, and the bands are put together again by their
//! indices, in whatever order they were finished.

use crate::camera::Camera;
use crate::hittable::Hittable;
use crate::image::Color;
use crate::render::is_pixel;
use crate::render::render_rows;
use crate::render::Frame;
use rand::rngs::StdRng;
use vstd::prelude::*;

verus! {

/// A rendered band: its index, counted from the top of the picture, and
/// its pixels in row-major order.
#[derive(Debug)]
pub struct Band {
    pub index: u32,
    pub colors: Vec<Color>,
}

/// The row at which the band `index` of `bands` begins, or the number of
/// rows for `index == bands`.  Every band but the last has `rows / bands`
/// rows.
pub open spec fn band_start(rows: u32, bands: u32, index: int) -> int {
    if index >= bands {
        rows as int
    } else {
        index * (rows / bands)
    }
}

/// The row before which the band `index` ends: the start of the next band.
/// The last band ends with the picture and so takes the rows that are left
/// over.
pub open spec fn band_end(rows: u32, bands: u32, index: int) -> int {
    band_start(rows, bands, index + 1)
}

/// The bands cut the rows into contiguous pieces of equal height, but for
/// the last, which takes the rows that are left over: the first band starts
/// at row zero, each band ends where the next starts, the last ends with the
/// picture, and each but the last has `rows / bands` rows.
pub proof fn lemma_band_order(rows: u32, bands: u32, index: int)
    requires
        0 < bands,
        0 <= index < bands,
    ensures
        0 <= band_start(rows, bands, index) <= band_end(rows, bands, index) <= rows,
        band_start(rows, bands, 0) == 0,
        band_end(rows, bands, bands - 1) == rows,
        index + 1 < bands ==> band_end(rows, bands, index) - band_start(rows, bands, index) == rows
            / bands,
        index + 1 == bands ==> band_end(rows, bands, index) - band_start(rows, bands, index)
            >= rows / bands,
{
    let height = (rows / bands) as int;
    assert(height * bands <= rows) by (nonlinear_arith)
        requires
            height == rows as int / bands as int,
            0 < bands,
    ;
    assert(0 <= index * height && (index + 1) * height == index * height + height && (index + 1)
        * height <= bands * height) by (nonlinear_arith)
        requires
            0 <= index < bands,
            0 <= height,
    ;
    assert(bands * height == height * bands) by (nonlinear_arith);
}

/// The rows of one band: the first row and the row after the last.
pub fn band_rows(rows: u32, bands: u32, index: u32) -> (r: (u32, u32))
    requires
        0 < bands,
        index < bands,
    ensures
        r.0 == band_start(rows, bands, index as int),
        r.1 == band_end(rows, bands, index as int),
        r.0 <= r.1 <= rows,
{
    proof {
        lemma_band_order(rows, bands, index as int);
    }
    let height: u32 = rows / bands;
    let start: u32 = index * height;
    let end: u32 = if index + 1 == bands {
        rows
    } else {
        start + height
    };
    (start, end)
}

/// Renders the band `index` of `bands`.
///
/// The band holds `frame.cols` pixels for each of its rows; the pixel in
/// column `i` of the picture's row `j` stands at the place
/// `(j - start) * cols + i`, where `start` is the band's first row.
pub fn render_band(
    frame: Frame,
    camera: &Camera,
    world: &Hittable,
    bands: u32,
    index: u32,
    rng: &mut StdRng,
) -> (band: Band)
    requires
        0 < bands,
        index < bands,
    ensures
        band.index == index,
        is_rendering(band, frame, camera, world, bands),
{
    let (start, end) = band_rows(frame.rows, bands, index);
    let colors = render_rows(frame, camera, world, start, end, rng);
    Band { index, colors }
}

/// The place of the first band with the least index.
pub open spec fn first_least(bands: Seq<Band>) -> int
    decreases bands.len(),
{
    if bands.len() <= 1 {
        0
    } else {
        let among_earlier = first_least(bands.drop_last());
        if bands.last().index < bands[among_earlier].index {
            bands.len() - 1
        } else {
            among_earlier
        }
    }
}

/// The pixels of the bands in the order of their indices; bands of equal
/// index keep the order in which they stand.  The band with the least
/// index comes first, then the rest, merged in the same way.
pub open spec fn merged(bands: Seq<Band>) -> Seq<Color>
    decreases bands.len(),
    via merged_decreases
{
    if bands.len() == 0 {
        Seq::empty()
    } else {
        let least = first_least(bands);
        bands[least].colors@ + merged(bands.remove(least))
    }
}

#[via_fn]
proof fn merged_decreases(bands: Seq<Band>) {
    if bands.len() > 0 {
        lemma_first_least(bands);
    }
}

/// The band at `first_least` has the least index, and no band before it
/// has the same.
pub proof fn lemma_first_least(bands: Seq<Band>)
    requires
        bands.len() > 0,
    ensures
        0 <= first_least(bands) < bands.len(),
        forall|i: int|
            0 <= i < bands.len() ==> bands[first_least(bands)].index <= (#[trigger] bands[i]).index,
        forall|i: int|
            0 <= i < first_least(bands) ==> bands[first_least(bands)].index
                < (#[trigger] bands[i]).index,
    decreases bands.len(),
{
    if bands.len() > 1 {
        let earlier = bands.drop_last();
        lemma_first_least(earlier);
        assert forall|i: int| 0 <= i < bands.len() implies bands[first_least(bands)].index <= (
        #[trigger] bands[i]).index by {
            if i < bands.len() - 1 {
                assert(earlier[i] == bands[i]);
            }
        }
        assert forall|i: int| 0 <= i < first_least(bands) implies bands[first_least(bands)].index
            < (#[trigger] bands[i]).index by {
            assert(earlier[i] == bands[i]);
        }
    }
}

/// Finds the first band with the least index.
fn find_first_least(bands: &Vec<Band>) -> (place: usize)
    requires
        bands@.len() > 0,
    ensures
        place == first_least(bands@),
        place < bands@.len(),
{
    let mut place: usize = 0;
    let mut i: usize = 1;
    proof {
        assert(bands@.take(1).len() == 1);
    }
    while i < bands.len()
        invariant
            1 <= i <= bands@.len(),
            place < i,
            place == first_least(bands@.take(i as int)),
        decreases bands@.len() - i,
    {
        proof {
            let longer = bands@.take(i + 1);
            assert(longer.drop_last() =~= bands@.take(i as int));
            assert(longer.last() == bands@[i as int]);
            assert(longer[place as int] == bands@[place as int]);
        }
        if bands[i].index < bands[place].index {
            place = i;
        }
        i += 1;
    }
    proof {
        assert(bands@.take(i as int) =~= bands@);
    }
    place
}

/// Puts the picture together: the pixels of the bands in the order of
/// their indices, whatever the order in which the bands were posted.
pub fn merge_bands(bands: Vec<Band>) -> (image: Vec<Color>)
    ensures
        image@ == merged(bands@),
{
    let mut rest = bands;
    let mut image: Vec<Color> = Vec::new();
    while rest.len() > 0
        invariant
            image@ + merged(rest@) == merged(bands@),
        decreases rest@.len(),
    {
        let place = find_first_least(&rest);
        let ghost before = rest@;
        let mut band = rest.remove(place);
        assert(rest@ == before.remove(place as int));
        assert(band == before[place as int]);
        let ghost so_far = image@;
        image.append(&mut band.colors);
        assert(image@ + merged(rest@) =~= so_far + merged(before));
    }
    assert(image@ + merged(rest@) =~= image@);
    image
}

/// Whether the band holds the pixels of its rows of `image`, a picture of
/// `rows` by `cols` pixels cut into `count` bands.
pub open spec fn holds_rows_of(band: Band, image: Seq<Color>, rows: u32, cols: u32, count: u32) -> bool {
    band.colors@ == image.subrange(
        band_start(rows, count, band.index as int) * cols,
        band_end(rows, count, band.index as int) * cols,
    )
}

/// Whether some band has the index `index`.
pub open spec fn is_posted(bands: Seq<Band>, index: int) -> bool {
    exists|i: int| 0 <= i < bands.len() && (#[trigger] bands[i]).index == index
}

/// Whether the bands are those with the indices from `from` up to but not
/// including `count`, each once, in any order.
pub open spec fn posted_once(bands: Seq<Band>, from: int, count: u32) -> bool {
    &&& forall|i: int| 0 <= i < bands.len() ==> from <= (#[trigger] bands[i]).index < count
    &&& forall|i: int, j: int|
        0 <= i < bands.len() && 0 <= j < bands.len() && i != j ==> (#[trigger] bands[i]).index != (
        #[trigger] bands[j]).index
    &&& forall|index: int| from <= index < count ==> #[trigger] is_posted(bands, index)
}

/// Of bands posted once from `from` on, the first with the least index is
/// the band `from`, and without it the rest are posted once from `from + 1`
/// on.
proof fn lemma_least_is_next(bands: Seq<Band>, from: int, count: u32)
    requires
        bands.len() > 0,
        posted_once(bands, from, count),
    ensures
        0 <= first_least(bands) < bands.len(),
        from < count,
        bands[first_least(bands)].index == from,
        posted_once(bands.remove(first_least(bands)), from + 1, count),
        forall|i: int|
            0 <= i < bands.remove(first_least(bands)).len() ==> exists|k: int|
                0 <= k < bands.len() && bands[k] == #[trigger] bands.remove(first_least(bands))[i],
{
    lemma_first_least(bands);
    let least = first_least(bands);
    assert(from <= bands[0].index < count);
    assert(is_posted(bands, from));
    let holder = choose|i: int| 0 <= i < bands.len() && (#[trigger] bands[i]).index == from;
    assert(bands[least].index <= bands[holder].index);
    assert(from <= bands[least].index);
    let rest = bands.remove(least);
    assert forall|i: int| 0 <= i < rest.len() implies from + 1 <= (#[trigger] rest[i]).index
        < count && exists|k: int| 0 <= k < bands.len() && bands[k] == rest[i] by {
        let k = if i < least {
            i
        } else {
            i + 1
        };
        assert(rest[i] == bands[k]);
        assert(bands[k].index != bands[least].index);
    }
    assert forall|i: int, j: int|
        0 <= i < rest.len() && 0 <= j < rest.len() && i != j implies (#[trigger] rest[i]).index != (
    #[trigger] rest[j]).index by {
        let ki = if i < least {
            i
        } else {
            i + 1
        };
        let kj = if j < least {
            j
        } else {
            j + 1
        };
        assert(rest[i] == bands[ki]);
        assert(rest[j] == bands[kj]);
    }
    assert forall|index: int| from + 1 <= index < count implies #[trigger] is_posted(
        rest,
        index,
    ) by {
        assert(is_posted(bands, index));
        let k = choose|k: int| 0 <= k < bands.len() && (#[trigger] bands[k]).index == index;
        let i = if k < least {
            k
        } else {
            k - 1
        };
        assert(rest[i] == bands[k]);
    }
}

/// Merging the bands from `from` on gives the picture from the first row
/// of band `from` on.
proof fn lemma_merge_from(
    bands: Seq<Band>,
    image: Seq<Color>,
    rows: u32,
    cols: u32,
    count: u32,
    from: int,
)
    requires
        0 < count,
        0 <= from <= count,
        image.len() == rows * cols,
        posted_once(bands, from, count),
        forall|i: int|
            0 <= i < bands.len() ==> holds_rows_of(#[trigger] bands[i], image, rows, cols, count),
    ensures
        merged(bands) == image.subrange(band_start(rows, count, from) * cols, rows * cols),
    decreases count - from,
{
    if bands.len() == 0 {
        if from < count {
            assert(is_posted(bands, from));
            assert(false);
        }
        assert(merged(bands) =~= image.subrange(rows * cols, rows * cols));
    } else {
        lemma_least_is_next(bands, from, count);
        let least = first_least(bands);
        let rest = bands.remove(least);
        assert forall|i: int| 0 <= i < rest.len() implies holds_rows_of(
            #[trigger] rest[i],
            image,
            rows,
            cols,
            count,
        ) by {
            let k = choose|k: int| 0 <= k < bands.len() && bands[k] == rest[i];
            assert(holds_rows_of(bands[k], image, rows, cols, count));
        }
        lemma_merge_from(rest, image, rows, cols, count, from + 1);
        lemma_band_order(rows, count, from);
        let first = band_start(rows, count, from);
        let next = band_end(rows, count, from);
        assert(0 <= first * cols <= next * cols <= rows * cols) by (nonlinear_arith)
            requires
                0 <= first <= next <= rows,
                0 <= cols,
        ;
        assert(holds_rows_of(bands[least], image, rows, cols, count));
        assert(merged(bands) =~= image.subrange(first * cols, rows * cols));
    }
}

/// Putting the bands together by their indices restores the picture,
/// whatever the order in which the bands were posted.
///
/// If every band index below `count` was posted exactly once, and each band
/// holds the pixels of its rows of the row-major picture `image`, then
/// merging the bands gives `image`: the same as rendering all rows in one
/// piece from the top down.
pub proof fn lemma_merge_restores_image(
    bands: Seq<Band>,
    image: Seq<Color>,
    rows: u32,
    cols: u32,
    count: u32,
)
    requires
        0 < count,
        image.len() == rows * cols,
        posted_once(bands, 0, count),
        forall|i: int|
            0 <= i < bands.len() ==> holds_rows_of(#[trigger] bands[i], image, rows, cols, count),
    ensures
        merged(bands) == image,
{
    lemma_merge_from(bands, image, rows, cols, count, 0);
    lemma_band_order(rows, count, 0);
    assert(band_start(rows, count, 0) * cols == 0) by (nonlinear_arith)
        requires
            band_start(rows, count, 0) == 0,
    ;
    assert(image.subrange(0, rows * cols) =~= image);
}

/// Whether `band` is a rendering of its rows of the picture: it holds
/// `frame.cols` pixels for each of its rows, and the pixel in column `i` of
/// row `j` stands at the place `(j - start) * cols + i`, where `start` is
/// the band's first row.
pub open spec fn is_rendering(
    band: Band,
    frame: Frame,
    camera: &Camera,
    world: &Hittable,
    count: u32,
) -> bool {
    let start = band_start(frame.rows, count, band.index as int);
    let end = band_end(frame.rows, count, band.index as int);
    &&& band.colors@.len() == (end - start) * frame.cols
    &&& forall|j: int, i: int|
        start <= j < end && 0 <= i < frame.cols ==> is_pixel(
            frame,
            camera,
            world,
            i as u32,
            j as u32,
            #[trigger] band.colors@[(j - start) * frame.cols + i],
        )
}

/// Merging renderings of the bands from `from` on gives the pixels of the
/// rows from the first row of band `from` on.
proof fn lemma_merged_rows_from(
    bands: Seq<Band>,
    frame: Frame,
    camera: &Camera,
    world: &Hittable,
    count: u32,
    from: int,
)
    requires
        0 < count,
        0 <= from <= count,
        posted_once(bands, from, count),
        forall|i: int|
            0 <= i < bands.len() ==> is_rendering(#[trigger] bands[i], frame, camera, world, count),
    ensures
        merged(bands).len() == (frame.rows - band_start(frame.rows, count, from)) * frame.cols,
        forall|j: int, i: int|
            band_start(frame.rows, count, from) <= j < frame.rows && 0 <= i < frame.cols
                ==> is_pixel(
                frame,
                camera,
                world,
                i as u32,
                j as u32,
                #[trigger] merged(bands)[(j - band_start(frame.rows, count, from)) * frame.cols + i],
            ),
    decreases count - from,
{
    let cols = frame.cols as int;
    let base = band_start(frame.rows, count, from);
    if bands.len() == 0 {
        if from < count {
            assert(is_posted(bands, from));
            assert(false);
        }
        assert((frame.rows - base) * cols == 0) by (nonlinear_arith)
            requires
                frame.rows - base == 0,
        ;
    } else {
        lemma_least_is_next(bands, from, count);
        let least = first_least(bands);
        let first = bands[least];
        let rest = bands.remove(least);
        assert forall|i: int| 0 <= i < rest.len() implies is_rendering(
            #[trigger] rest[i],
            frame,
            camera,
            world,
            count,
        ) by {
            let k = choose|k: int| 0 <= k < bands.len() && bands[k] == rest[i];
            assert(is_rendering(bands[k], frame, camera, world, count));
        }
        lemma_merged_rows_from(rest, frame, camera, world, count, from + 1);
        lemma_band_order(frame.rows, count, from);
        let next = band_end(frame.rows, count, from);
        assert(is_rendering(first, frame, camera, world, count));
        let head = (next - base) * cols;
        assert(head + (frame.rows - next) * cols == (frame.rows - base) * cols)
            by (nonlinear_arith)
            requires
                head == (next - base) * cols,
        ;
        assert(0 <= head) by (nonlinear_arith)
            requires
                head == (next - base) * cols,
                0 <= next - base,
                0 <= cols,
        ;
        assert forall|j: int, i: int| base <= j < frame.rows && 0 <= i < cols implies is_pixel(
            frame,
            camera,
            world,
            i as u32,
            j as u32,
            #[trigger] merged(bands)[(j - base) * cols + i],
        ) by {
            if j < next {
                lemma_place(j - base, i, next - base, cols);
                assert(merged(bands)[(j - base) * cols + i] == first.colors@[(j - base) * cols
                    + i]);
            } else {
                lemma_place(j - next, i, frame.rows - next, cols);
                assert((j - base) * cols + i == head + ((j - next) * cols + i))
                    by (nonlinear_arith)
                    requires
                        head == (next - base) * cols,
                ;
                assert(merged(bands)[(j - base) * cols + i] == merged(rest)[(j - next) * cols + i]);
            }
        }
    }
}

/// The place `row * cols + col` lies within the first `rows` rows.
proof fn lemma_place(row: int, col: int, rows: int, cols: int)
    requires
        0 <= row < rows,
        0 <= col < cols,
    ensures
        0 <= row * cols + col < rows * cols,
{
    assert(0 <= row * cols + col < rows * cols) by (nonlinear_arith)
        requires
            0 <= row < rows,
            0 <= col < cols,
    ;
}

/// Rendering in bands gives what rendering in one piece gives.
///
/// If every band index below `count` was posted exactly once, in any order,
/// and each band is a rendering of its rows, then the merged picture holds
/// `frame.cols` pixels for each of the `frame.rows` rows, and the pixel in
/// column `i` of row `j` stands at the place `j * cols + i`: the contract of
/// rendering all rows from the top down.
pub proof fn lemma_merged_picture(
    bands: Seq<Band>,
    frame: Frame,
    camera: &Camera,
    world: &Hittable,
    count: u32,
)
    requires
        0 < count,
        posted_once(bands, 0, count),
        forall|i: int|
            0 <= i < bands.len() ==> is_rendering(#[trigger] bands[i], frame, camera, world, count),
    ensures
        merged(bands).len() == frame.rows * frame.cols,
        forall|j: int, i: int|
            0 <= j < frame.rows && 0 <= i < frame.cols ==> is_pixel(
                frame,
                camera,
                world,
                i as u32,
                j as u32,
                #[trigger] merged(bands)[j * frame.cols + i],
            ),
{
    lemma_merged_rows_from(bands, frame, camera, world, count, 0);
    lemma_band_order(frame.rows, count, 0);
    assert forall|j: int, i: int| 0 <= j < frame.rows && 0 <= i < frame.cols implies is_pixel(
        frame,
        camera,
        world,
        i as u32,
        j as u32,
        #[trigger] merged(bands)[j * frame.cols + i],
    ) by {
        assert(merged(bands)[(j - 0) * frame.cols + i] == merged(bands)[j * frame.cols + i]);
    }
}

} // verus!
