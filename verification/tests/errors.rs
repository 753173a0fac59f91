use simple_graphics::errors::Axis;
use simple_graphics::errors::DrawOutOfBoundsError;
use simple_graphics::errors::RasterError;

#[test]
fn out_of_bounds_message_names_the_axis_and_the_value() {
    assert_eq!(DrawOutOfBoundsError::X(12).to_string(), "Tried drawing out of bound at x = 12");
    assert_eq!(DrawOutOfBoundsError::Y(0).to_string(), "Tried drawing out of bound at y = 0");
    assert_eq!(DrawOutOfBoundsError::Y(907).to_string(), "Tried drawing out of bound at y = 907");
    assert_eq!(
        DrawOutOfBoundsError::X(usize::MAX).to_string(),
        format!("Tried drawing out of bound at x = {}", usize::MAX)
    );
}

#[test]
fn pixel_errors_wrap_into_raster_errors() {
    assert_eq!(
        RasterError::from(DrawOutOfBoundsError::X(9)),
        RasterError::OutOfBounds { axis: Axis::X, value: 9 }
    );
    assert_eq!(
        RasterError::from(DrawOutOfBoundsError::Y(4)),
        RasterError::OutOfBounds { axis: Axis::Y, value: 4 }
    );
}
