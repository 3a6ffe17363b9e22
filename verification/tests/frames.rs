use keypoint_grid::frame::{inbound, sample_window, window_in_bounds, GrayFrame};
use keypoint_grid::keypoint::{point_in_bound, Keypoint};

fn ramp(width: u32, height: u32) -> GrayFrame {
    let data: Vec<u8> = (0..width * height).map(|k| (k % 251) as u8).collect();
    GrayFrame::from_raw(width, height, data).unwrap()
}

#[test]
fn from_raw_wants_one_value_per_pixel() {
    assert!(GrayFrame::from_raw(3, 2, vec![0; 6]).is_some());
    assert!(GrayFrame::from_raw(3, 2, vec![0; 5]).is_none());
    assert!(GrayFrame::from_raw(3, 2, vec![0; 7]).is_none());
    assert!(GrayFrame::from_raw(0, 5, Vec::new()).is_some());
    assert!(GrayFrame::from_raw(u32::MAX, u32::MAX, vec![0; 4]).is_none());
}

#[test]
fn get_pixel_reads_row_major() {
    let frame = GrayFrame::from_raw(3, 2, vec![1, 2, 3, 4, 5, 6]).unwrap();
    assert_eq!(frame.width(), 3);
    assert_eq!(frame.height(), 2);
    assert_eq!(frame.get_pixel(0, 0), 1);
    assert_eq!(frame.get_pixel(2, 0), 3);
    assert_eq!(frame.get_pixel(0, 1), 4);
    assert_eq!(frame.get_pixel(2, 1), 6);
    assert_eq!(frame.as_raw(), &vec![1, 2, 3, 4, 5, 6]);
}

#[test]
fn crop_copies_the_rectangle() {
    let frame = ramp(7, 5);
    let cropped = frame.crop(2, 1, 3, 4);
    assert_eq!(cropped.width(), 3);
    assert_eq!(cropped.height(), 4);
    for r in 0..4 {
        for c in 0..3 {
            assert_eq!(cropped.get_pixel(c, r), frame.get_pixel(2 + c, 1 + r));
        }
    }
    let whole = frame.crop(0, 0, 7, 5);
    assert_eq!(whole.as_raw(), frame.as_raw());
    let empty = frame.crop(7, 5, 0, 0);
    assert!(empty.as_raw().is_empty());
}

#[test]
fn point_in_bound_counts_the_far_edge_in() {
    let at = |x, y| Keypoint::new(x, y, 0);
    assert!(point_in_bound(&at(19, 19), 100, 100, 19));
    assert!(point_in_bound(&at(81, 81), 100, 100, 19));
    assert!(!point_in_bound(&at(18, 50), 100, 100, 19));
    assert!(!point_in_bound(&at(50, 18), 100, 100, 19));
    assert!(!point_in_bound(&at(82, 50), 100, 100, 19));
    assert!(!point_in_bound(&at(50, 82), 100, 100, 19));
    assert!(point_in_bound(&at(0, 0), 0, 0, 0));
    assert!(point_in_bound(&at(5, 3), 3, 5, 0));
    assert!(!point_in_bound(&at(6, 3), 3, 5, 0));
}

#[test]
fn point_in_bound_is_false_when_the_margin_exceeds_the_frame() {
    let at = |x, y| Keypoint::new(x, y, 0);
    assert!(!point_in_bound(&at(5, 5), 10, 10, 19));
    assert!(!point_in_bound(&at(19, 19), 30, 30, 19));
    assert!(point_in_bound(&at(19, 19), 38, 38, 19));
    assert!(!point_in_bound(&at(u32::MAX, u32::MAX), 10, 10, u32::MAX));
}

#[test]
fn inbound_leaves_the_far_edge_out() {
    let frame = ramp(100, 80);
    assert!(inbound(&frame, 19, 19, 19));
    assert!(inbound(&frame, 80, 60, 19));
    assert!(!inbound(&frame, 81, 60, 19));
    assert!(!inbound(&frame, 80, 61, 19));
    assert!(!inbound(&frame, 18, 19, 19));
    assert!(!inbound(&frame, 19, 18, 19));
    assert!(inbound(&frame, 99, 79, 0));
    assert!(!inbound(&frame, 100, 79, 0));
    assert!(!inbound(&frame, 50, 40, 100));
    assert!(!inbound(&frame, u32::MAX, 40, 1));
}

#[test]
fn inbound_takes_the_pixel_nearest_to_a_coordinate() {
    let frame = ramp(100, 80);
    let near = |x: f32, y: f32, radius: u32| inbound(&frame, x.round() as u32, y.round() as u32, radius);
    assert!(near(80.4, 60.4, 19));
    assert!(!near(80.5, 60.4, 19));
    assert!(near(18.5, 19.0, 19));
    assert!(!near(18.4, 19.0, 19));
    assert!(!near(-3.0, 19.0, 1));
}

#[test]
fn sample_window_holds_the_sixteen_pixels_around() {
    let frame = ramp(9, 8);
    assert!(window_in_bounds(&frame, 1, 1));
    assert!(window_in_bounds(&frame, 6, 5));
    assert!(!window_in_bounds(&frame, 0, 3));
    assert!(!window_in_bounds(&frame, 3, 0));
    assert!(!window_in_bounds(&frame, 7, 3));
    assert!(!window_in_bounds(&frame, 3, 6));
    assert!(!window_in_bounds(&ramp(2, 2), 1, 1));

    let window = sample_window(&frame, 4, 3);
    assert_eq!(window.width(), 4);
    assert_eq!(window.height(), 4);
    for dy in 0..4 {
        for dx in 0..4 {
            assert_eq!(window.get_pixel(dx, dy), frame.get_pixel(3 + dx, 2 + dy));
        }
    }
}

#[test]
fn inbound_with_radius_two_guards_the_sampling_window() {
    let frame = ramp(12, 9);
    for y in 0..9 {
        for x in 0..12 {
            if inbound(&frame, x, y, 2) {
                assert!(window_in_bounds(&frame, x, y));
            }
        }
    }
}
