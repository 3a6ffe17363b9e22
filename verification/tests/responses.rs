use keypoint_grid::response::{
    check_same_size, interior_response, Image, ImageSize, Neighborhood, ResponseError,
};

fn size(width: usize, height: usize) -> ImageSize {
    ImageSize { width, height }
}

/// Determinant of the Hessian from central second differences.
fn hessian_det(n: Neighborhood<f32>) -> f32 {
    let dxx = n.west - 2.0 * n.center + n.east;
    let dyy = n.north - 2.0 * n.center + n.south;
    let dxy = 0.25 * (n.south_east - n.south_west - n.north_east + n.north_west);
    dxx * dyy - dxy * dxy
}

fn ring_image() -> Vec<f32> {
    vec![
        0.0, 0.0, 0.0, 0.0, 0.0,
        0.0, 1.0, 1.0, 1.0, 0.0,
        0.0, 1.0, 0.0, 1.0, 0.0,
        0.0, 1.0, 1.0, 1.0, 0.0,
        0.0, 0.0, 0.0, 0.0, 0.0,
    ]
}

#[test]
fn test_hessian_response() {
    let src = Image::new(size(5, 5), ring_image()).unwrap();
    let mut dst = Image::from_size_val(size(5, 5), 0.0f32).unwrap();
    assert_eq!(interior_response(&src, &mut dst, hessian_det), Ok(()));

    assert_eq!(
        dst.as_raw().as_slice(),
        &[
            0.0, 0.0, 0.0, 0.0, 0.0,
            0.0, 1.0, 0.0, 1.0, 0.0,
            0.0, 0.0, 4.0, 0.0, 0.0,
            0.0, 1.0, 0.0, 1.0, 0.0,
            0.0, 0.0, 0.0, 0.0, 0.0,
        ]
    );
}

#[test]
fn interior_response_leaves_the_outer_ring_as_it_was() {
    let src = Image::new(size(5, 5), ring_image()).unwrap();
    let mut dst = Image::from_size_val(size(5, 5), 7.5f32).unwrap();
    assert_eq!(interior_response(&src, &mut dst, hessian_det), Ok(()));
    for y in 0..5 {
        for x in 0..5 {
            let border = x == 0 || y == 0 || x == 4 || y == 4;
            if border {
                assert_eq!(dst.get_pixel(x, y), 7.5);
            } else {
                assert_eq!(dst.get_pixel(x, y), hessian_det(src.neighborhood(x, y)));
            }
        }
    }
}

#[test]
fn interior_response_reads_only_the_window_around_a_pixel() {
    let mut changed = ring_image();
    // (4, 4) and (0, 3) are outside the window around (2, 2); (3, 3) is in it.
    changed[4 * 5 + 4] = 50.0;
    changed[3 * 5 + 0] = -9.0;
    let first = Image::new(size(5, 5), ring_image()).unwrap();
    let second = Image::new(size(5, 5), changed).unwrap();
    let mut out_first = Image::from_size_val(size(5, 5), 0.0f32).unwrap();
    let mut out_second = Image::from_size_val(size(5, 5), 0.0f32).unwrap();
    interior_response(&first, &mut out_first, hessian_det).unwrap();
    interior_response(&second, &mut out_second, hessian_det).unwrap();
    assert_eq!(out_first.get_pixel(2, 2), out_second.get_pixel(2, 2));
    assert_eq!(out_first.get_pixel(2, 1), out_second.get_pixel(2, 1));
    assert_ne!(out_first.get_pixel(1, 3), out_second.get_pixel(1, 3));
}

#[test]
fn interior_response_hands_each_neighbour_over_under_its_name() {
    let data: Vec<u32> = (0..12).collect();
    let src = Image::new(size(4, 3), data).unwrap();
    let mut dst = Image::from_size_val(size(4, 3), 0u32).unwrap();
    let pack = |n: Neighborhood<u32>| {
        assert_eq!(
            [n.north_west, n.north, n.north_east, n.west, n.east, n.south_west, n.south, n.south_east],
            [
                n.center - 5,
                n.center - 4,
                n.center - 3,
                n.center - 1,
                n.center + 1,
                n.center + 3,
                n.center + 4,
                n.center + 5
            ]
        );
        100 + n.center
    };
    assert_eq!(interior_response(&src, &mut dst, pack), Ok(()));
    assert_eq!(dst.as_raw(), &vec![0, 0, 0, 0, 0, 105, 106, 0, 0, 0, 0, 0]);
}

#[test]
fn interior_response_refuses_images_of_different_shape() {
    let src = Image::new(size(5, 5), ring_image()).unwrap();
    let mut dst = Image::from_size_val(size(4, 6), 3.0f32).unwrap();
    assert_eq!(
        interior_response(&src, &mut dst, hessian_det),
        Err(ResponseError::ShapeMismatch { src_cols: 5, src_rows: 5, dst_cols: 4, dst_rows: 6 })
    );
    assert_eq!(dst.as_raw(), &vec![3.0f32; 24]);
}

#[test]
fn interior_response_on_images_without_interior_changes_nothing() {
    for (w, h) in [(0, 0), (1, 1), (2, 5), (5, 2), (0, 4)] {
        let src = Image::from_size_val(size(w, h), 1.0f32).unwrap();
        let mut dst = Image::from_size_val(size(w, h), 2.0f32).unwrap();
        assert_eq!(interior_response(&src, &mut dst, hessian_det), Ok(()));
        assert_eq!(dst.as_raw(), &vec![2.0f32; w * h]);
    }
}

#[test]
fn interior_response_twice_gives_the_same_bits() {
    let data: Vec<f32> = (0..63).map(|k| ((k * 37 % 101) as f32) * 0.173 - 5.0).collect();
    let src = Image::new(size(9, 7), data).unwrap();
    let mut first = Image::from_size_val(size(9, 7), 0.0f32).unwrap();
    let mut second = Image::from_size_val(size(9, 7), 0.0f32).unwrap();
    interior_response(&src, &mut first, hessian_det).unwrap();
    interior_response(&src, &mut second, hessian_det).unwrap();
    let bits = |image: &Image<f32>| image.as_raw().iter().map(|v| v.to_bits()).collect::<Vec<u32>>();
    assert_eq!(bits(&first), bits(&second));
}

#[test]
fn check_same_size_reports_both_shapes() {
    assert_eq!(check_same_size(size(9, 9), size(9, 9)), Ok(()));
    assert_eq!(check_same_size(size(0, 0), size(0, 0)), Ok(()));
    assert_eq!(
        check_same_size(size(9, 8), size(8, 9)),
        Err(ResponseError::ShapeMismatch { src_cols: 9, src_rows: 8, dst_cols: 8, dst_rows: 9 })
    );
    assert_eq!(
        check_same_size(size(3, 4), size(3, 5)),
        Err(ResponseError::ShapeMismatch { src_cols: 3, src_rows: 4, dst_cols: 3, dst_rows: 5 })
    );
}

#[test]
fn image_new_wants_one_value_per_pixel() {
    assert!(Image::new(size(3, 2), vec![0u8; 6]).is_some());
    assert!(Image::new(size(3, 2), vec![0u8; 5]).is_none());
    assert!(Image::new(size(usize::MAX, 2), vec![0u8; 6]).is_none());
    assert!(Image::from_size_val(size(usize::MAX, 2), 0u8).is_none());
    let image = Image::new(size(3, 2), vec![1u8, 2, 3, 4, 5, 6]).unwrap();
    assert_eq!(image.size(), size(3, 2));
    assert_eq!(image.get_pixel(1, 1), 5);
    assert_eq!(image.into_raw(), vec![1u8, 2, 3, 4, 5, 6]);
}

#[test]
fn put_pixel_changes_one_pixel() {
    let mut image = Image::from_size_val(size(3, 3), 0u8).unwrap();
    image.put_pixel(2, 1, 9);
    assert_eq!(image.as_raw(), &vec![0, 0, 0, 0, 0, 9, 0, 0, 0]);
}

#[test]
fn pointwise_response_combines_pixel_by_pixel() {
    let wide = Image::new(size(3, 2), vec![1.0f32, 2.0, 3.0, 4.0, 5.0, 6.0]).unwrap();
    let narrow = Image::new(size(3, 2), vec![0.5f32, 0.5, 4.0, 4.0, 0.0, 7.0]).unwrap();
    let mut dst = Image::from_size_val(size(3, 2), 0.0f32).unwrap();
    assert_eq!(
        keypoint_grid::response::pointwise_response(&wide, &narrow, &mut dst, |a: f32, b: f32| a - b),
        Ok(())
    );
    assert_eq!(dst.as_raw(), &vec![0.5f32, 1.5, -1.0, 0.0, 5.0, -1.0]);
}

#[test]
fn pointwise_response_refuses_images_of_different_shape() {
    let a = Image::from_size_val(size(3, 2), 1u8).unwrap();
    let b = Image::from_size_val(size(2, 3), 1u8).unwrap();
    let mut dst = Image::from_size_val(size(3, 2), 9u8).unwrap();
    let sum = |x: u8, y: u8| x + y;
    assert_eq!(
        keypoint_grid::response::pointwise_response(&a, &b, &mut dst, sum),
        Err(ResponseError::ShapeMismatch { src_cols: 2, src_rows: 3, dst_cols: 3, dst_rows: 2 })
    );
    assert_eq!(dst.as_raw(), &vec![9u8; 6]);
    assert_eq!(
        keypoint_grid::response::pointwise_response(&b, &a, &mut dst, sum),
        Err(ResponseError::ShapeMismatch { src_cols: 2, src_rows: 3, dst_cols: 3, dst_rows: 2 })
    );
    let mut other = Image::from_size_val(size(2, 3), 9u8).unwrap();
    assert_eq!(
        keypoint_grid::response::pointwise_response(&a, &a, &mut other, sum),
        Err(ResponseError::ShapeMismatch { src_cols: 3, src_rows: 2, dst_cols: 2, dst_rows: 3 })
    );
    assert_eq!(keypoint_grid::response::pointwise_response(&a, &a, &mut dst, sum), Ok(()));
    assert_eq!(dst.as_raw(), &vec![2u8; 6]);
}
