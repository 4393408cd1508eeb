use mrc_workout_creator::visualization::layout::compute_starting_dimensions_x;
use mrc_workout_creator::visualization::layout::compute_starting_dimensions_y;
use mrc_workout_creator::visualization::layout::compute_starting_points_of_efforts;
use mrc_workout_creator::visualization::layout::duplicate_element_in_iterator;
use mrc_workout_creator::visualization::layout::DrawPoint;
use mrc_workout_creator::visualization::layout::FrameSize;
use mrc_workout_creator::visualization::layout::RectangleToDraw;
use mrc_workout_creator::visualization::layout::RectangleXDimensions;
use mrc_workout_creator::visualization::layout::RectangleYDimensions;

#[test]
fn visualization_test_get_starting_coordinates_x() {
    assert_eq!(
        compute_starting_dimensions_x(10000, vec![1000, 2000, 4000, 1000], 10),
        vec![
            RectangleXDimensions::new(10, 1245),
            RectangleXDimensions::new(1265, 2490),
            RectangleXDimensions::new(3765, 4980),
            RectangleXDimensions::new(8755, 1245)
        ]
    );
}

#[test]
fn core_test_get_starting_coordinates_x() {
    assert_eq!(
        compute_starting_dimensions_x(10000, vec![1000, 2000, 4000, 1000], 10),
        vec![
            RectangleXDimensions::new(10, 1245),
            RectangleXDimensions::new(1265, 2490),
            RectangleXDimensions::new(3765, 4980),
            RectangleXDimensions::new(8755, 1245)
        ]
    );
}

#[test]
fn visualization_test_compute_starting_points_of_efforts() {
    assert_eq!(
        compute_starting_points_of_efforts(&vec![1000, 2000, 4000, 1000], 10, 10000),
        vec![10, 1265, 3765, 8755, 10010]
    );
}

#[test]
fn core_test_compute_starting_points_of_efforts() {
    assert_eq!(
        compute_starting_points_of_efforts(&vec![1000, 2000, 4000, 1000], 10, 10000),
        vec![10, 1265, 3765, 8755, 10010]
    );
}

#[test]
fn starting_coordinates_y_scale_against_the_maximum() {
    assert_eq!(
        compute_starting_dimensions_y(30000, vec![10000, 20000, 25000, 10000], 100, 25000),
        vec![
            RectangleYDimensions::new(100, 10760),
            RectangleYDimensions::new(100, 21520),
            RectangleYDimensions::new(100, 26900),
            RectangleYDimensions::new(100, 10760)
        ]
    );
}

#[test]
fn visualization_test_rectangle_to_draw() {
    assert_eq!(
        RectangleToDraw::new(
            RectangleXDimensions { starting_point: 10, width: 1000 },
            RectangleYDimensions { starting_point: 10, height: 3000 },
            FrameSize { width: 10000, height: 30000 }
        ),
        RectangleToDraw {
            top_left: DrawPoint { x: 10, y: 26990 },
            size: FrameSize { width: 1000, height: 3000 }
        }
    );
}

#[test]
fn core_test_rectangle_to_draw() {
    assert_eq!(
        RectangleToDraw::new(
            RectangleXDimensions { starting_point: 10, width: 1000 },
            RectangleYDimensions { starting_point: 10, height: 3000 },
            FrameSize { width: 10000, height: 30000 }
        ),
        RectangleToDraw {
            top_left: DrawPoint { x: 10, y: 26990 },
            size: FrameSize { width: 1000, height: 3000 }
        }
    );
}

#[test]
fn duplicate_element_in_iterator_doubles_each() {
    assert_eq!(duplicate_element_in_iterator(&vec![1u64, 2, 3]), vec![1, 1, 2, 2, 3, 3]);
}

#[test]
fn widths_and_gaps_fill_the_frame() {
    let dims = compute_starting_dimensions_x(10000, vec![1000, 2000, 4000, 1000], 10);
    let widths: u64 = dims.iter().map(|d| d.width).sum();
    assert_eq!(widths + 4 * 10, 10000);
}

#[test]
fn widths_and_gaps_fill_the_frame_with_truncating_ratio() {
    let dims = compute_starting_dimensions_x(10000, vec![700, 1100, 1300], 15);
    let widths: u64 = dims.iter().map(|d| d.width).sum();
    assert_eq!(widths + 3 * 15, 10000);
}
