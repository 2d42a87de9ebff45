use vstd::prelude::*;

verus! {

/// The pixel `(column, row)` that stands at position `idx` of a rendered image
/// `width` columns wide: images are written row after row, left to right.
pub open spec fn pixel_at(idx: int, width: int) -> (i32, i32) {
    ((idx % width) as i32, (idx / width) as i32)
}

/// The coordinates `(i, j)` of every pixel of an image, in the order in which
/// the image is written: row `j` from 0 to `image_height - 1`, and within a row,
/// column `i` from 0 to `image_width - 1`. Empty where either side is not positive.
pub fn pixel_coordinates(image_width: i32, image_height: i32) -> (r: Vec<(i32, i32)>)
    requires
        image_width > 0 && image_height > 0 ==> image_width * image_height <= i32::MAX,
    ensures
        image_width <= 0 || image_height <= 0 ==> r@.len() == 0,
        image_width > 0 && image_height > 0 ==> r@.len() == image_width * image_height,
        forall|idx: int|
            0 <= idx < r@.len() ==> #[trigger] r@[idx] == pixel_at(idx, image_width as int),
        forall|i: int, j: int|
            0 <= i < image_width && 0 <= j < image_height ==> #[trigger] r@[j * image_width + i]
                == (i as i32, j as i32),
{
    let mut r: Vec<(i32, i32)> = Vec::new();
    if image_width <= 0 || image_height <= 0 {
        return r;
    }
    let mut j: i32 = 0;
    while j < image_height
        invariant
            0 < image_width,
            0 <= j <= image_height,
            image_width * image_height <= i32::MAX,
            r@.len() == j * image_width,
            forall|idx: int|
                0 <= idx < r@.len() ==> #[trigger] r@[idx] == pixel_at(idx, image_width as int),
        decreases image_height - j,
    {
        let mut i: i32 = 0;
        while i < image_width
            invariant
                0 < image_width,
                0 <= j < image_height,
                0 <= i <= image_width,
                image_width * image_height <= i32::MAX,
                r@.len() == j * image_width + i,
                forall|idx: int|
                    0 <= idx < r@.len() ==> #[trigger] r@[idx] == pixel_at(
                        idx,
                        image_width as int,
                    ),
            decreases image_width - i,
        {
            proof {
                let idx: int = j * image_width + i;
                assert(idx / (image_width as int) == j && idx % (image_width as int) == i) by {
                    vstd::arithmetic::div_mod::lemma_fundamental_div_mod_converse(
                        idx,
                        image_width as int,
                        j as int,
                        i as int,
                    );
                }
            }
            r.push((i, j));
            i = i + 1;
        }
        proof {
            assert((j + 1) * image_width == j * image_width + image_width) by (nonlinear_arith);
        }
        j = j + 1;
    }
    assert(image_height * image_width == image_width * image_height) by (nonlinear_arith);
    assert forall|i: int, j: int|
        0 <= i < image_width && 0 <= j < image_height implies #[trigger] r@[j * image_width + i]
            == (i as i32, j as i32) by {
        let idx: int = j * image_width + i;
        assert(0 <= idx < image_width * image_height) by (nonlinear_arith)
            requires
                0 <= i < image_width,
                0 <= j < image_height,
                idx == j * image_width + i,
        ;
        vstd::arithmetic::div_mod::lemma_fundamental_div_mod_converse(
            idx,
            image_width as int,
            j,
            i,
        );
    }
    r
}

} // verus!
