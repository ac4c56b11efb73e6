use bugglers::assemble::can_assemble;
use bugglers::assemble::collect;
use bugglers::assemble::ImageAssembler;
use bugglers::assemble::Pixel;
use bugglers::error::PipelineError;
use image::RgbImage;

fn pixel(index: usize) -> Pixel {
    let level = index as u8;
    Pixel { index, color: (level, level.wrapping_mul(3), 255 - level) }
}

#[test]
fn pixels_in_order_fill_the_grid() {
    let messages: Vec<Pixel> = (0..9).map(pixel).collect();
    let grid = collect(&messages, 3, 3).unwrap();
    assert_eq!(grid.width(), 3);
    assert_eq!(grid.height(), 3);
    assert_eq!(grid.pixel_count(), 9);
    for index in 0..9 {
        assert_eq!(grid.cell(index), pixel(index).color);
    }
}

#[test]
fn arrival_order_does_not_change_the_image() {
    let in_order: Vec<Pixel> = (0..16).map(pixel).collect();
    let shuffled: Vec<Pixel> = [7, 0, 11, 3, 15, 4, 10, 13, 1, 9, 2, 14, 8, 6, 12, 5]
        .iter()
        .map(|i| pixel(*i))
        .collect();
    let reversed: Vec<Pixel> = (0..16).rev().map(pixel).collect();
    let first = collect(&in_order, 4, 4).unwrap();
    let second = collect(&shuffled, 4, 4).unwrap();
    let third = collect(&reversed, 4, 4).unwrap();
    for index in 0..16 {
        assert_eq!(first.cell(index), second.cell(index));
        assert_eq!(first.cell(index), third.cell(index));
        assert_eq!(first.cell(index), pixel(index).color);
    }
    let bytes = first.into_raw();
    assert_eq!(bytes, second.into_raw());
    assert_eq!(bytes, third.into_raw());
}

#[test]
fn index_runs_through_the_columns_first() {
    let messages: Vec<Pixel> = (0..9).map(pixel).collect();
    let grid = collect(&messages, 3, 3).unwrap();
    for index in 0..9 {
        assert_eq!(grid.get(index % 3, index / 3), pixel(index).color);
    }
    assert_eq!(grid.get(1, 0), pixel(1).color);
    assert_eq!(grid.get(0, 1), pixel(3).color);
    assert_eq!(grid.get(2, 2), pixel(8).color);
}

#[test]
fn bytes_are_what_the_image_library_takes() {
    let side = 5usize;
    let messages: Vec<Pixel> = (0..side * side).rev().map(pixel).collect();
    let grid = collect(&messages, side, side).unwrap();
    let bytes = grid.into_raw();
    assert_eq!(bytes.len(), 3 * side * side);
    let image = RgbImage::from_raw(side as u32, side as u32, bytes).unwrap();
    for index in 0..side * side {
        let (red, green, blue) = pixel(index).color;
        let seen = image.get_pixel((index % side) as u32, (index / side) as u32);
        assert_eq!(seen.0, [red, green, blue]);
    }
}

#[test]
fn bytes_of_a_small_image() {
    let messages = vec![
        Pixel { index: 3, color: (10, 11, 12) },
        Pixel { index: 0, color: (1, 2, 3) },
        Pixel { index: 2, color: (7, 8, 9) },
        Pixel { index: 1, color: (4, 5, 6) },
    ];
    let grid = collect(&messages, 2, 2).unwrap();
    assert_eq!(grid.into_raw(), vec![1, 2, 3, 4, 5, 6, 7, 8, 9, 10, 11, 12]);
}

#[test]
fn closed_channel_leaves_the_image_incomplete() {
    let messages: Vec<Pixel> = (0..8).map(pixel).collect();
    assert_eq!(collect(&messages, 3, 3).unwrap_err(), PipelineError::IncompleteImage);
    assert_eq!(collect(&Vec::new(), 1, 1).unwrap_err(), PipelineError::IncompleteImage);
}

#[test]
fn pixel_that_comes_twice_leaves_the_image_incomplete() {
    let messages = vec![pixel(0), pixel(1), pixel(1), pixel(3)];
    assert_eq!(collect(&messages, 2, 2).unwrap_err(), PipelineError::IncompleteImage);
}

#[test]
fn pixel_outside_the_image_leaves_it_incomplete() {
    let messages = vec![pixel(0), pixel(1), pixel(4), pixel(3)];
    assert_eq!(collect(&messages, 2, 2).unwrap_err(), PipelineError::IncompleteImage);
}

#[test]
fn messages_behind_the_last_pixel_are_not_received() {
    let messages = vec![pixel(2), pixel(0), pixel(3), pixel(1), pixel(0), pixel(9)];
    let grid = collect(&messages, 2, 2).unwrap();
    for index in 0..4 {
        assert_eq!(grid.cell(index), pixel(index).color);
    }
}

#[test]
fn image_without_pixels_is_complete_at_once() {
    let grid = collect(&Vec::new(), 0, 0).unwrap();
    assert_eq!(grid.pixel_count(), 0);
    assert_eq!(grid.width(), 0);
    assert_eq!(grid.height(), 0);
    assert_eq!(grid.into_raw(), Vec::<u8>::new());
    let assembler = ImageAssembler::new(0, 0);
    assert!(assembler.is_complete());
    assert!(assembler.finish().is_ok());
}

#[test]
fn assembler_counts_what_it_places() {
    let mut assembler = ImageAssembler::new(2, 2);
    assert_eq!(assembler.width(), 2);
    assert_eq!(assembler.height(), 2);
    assert_eq!(assembler.received(), 0);
    assert!(!assembler.is_complete());
    assert_eq!(assembler.accept(pixel(3)), Ok(()));
    assert_eq!(assembler.received(), 1);
    assert_eq!(assembler.accept(pixel(0)), Ok(()));
    assert_eq!(assembler.accept(pixel(2)), Ok(()));
    assert_eq!(assembler.received(), 3);
    assert!(!assembler.is_complete());
    assert_eq!(assembler.accept(pixel(1)), Ok(()));
    assert_eq!(assembler.received(), 4);
    assert!(assembler.is_complete());
    let grid = assembler.finish().unwrap();
    for index in 0..4 {
        assert_eq!(grid.cell(index), pixel(index).color);
    }
}

#[test]
fn refused_pixel_changes_nothing() {
    let mut assembler = ImageAssembler::new(1, 1);
    let other = Pixel { index: 0, color: (9, 9, 9) };
    assert_eq!(assembler.accept(pixel(1)), Err(PipelineError::IncompleteImage));
    assert_eq!(assembler.received(), 0);
    assert_eq!(assembler.accept(other), Ok(()));
    assert_eq!(assembler.accept(pixel(0)), Err(PipelineError::IncompleteImage));
    assert_eq!(assembler.received(), 1);
    let grid = assembler.finish().unwrap();
    assert_eq!(grid.cell(0), (9, 9, 9));
}

#[test]
fn unfinished_image_is_not_handed_over() {
    let mut assembler = ImageAssembler::new(2, 2);
    assert_eq!(assembler.accept(pixel(0)), Ok(()));
    assert_eq!(assembler.accept(pixel(1)), Ok(()));
    assert_eq!(assembler.accept(pixel(2)), Ok(()));
    assert_eq!(assembler.finish().unwrap_err(), PipelineError::IncompleteImage);
}

#[test]
fn complete_assembler_takes_no_more_pixels() {
    let mut assembler = ImageAssembler::new(1, 1);
    assert_eq!(assembler.accept(pixel(0)), Ok(()));
    assert!(assembler.is_complete());
    assert_eq!(assembler.accept(pixel(0)), Err(PipelineError::IncompleteImage));
    assert!(assembler.is_complete());
}

#[test]
fn default_resolution_is_assembled() {
    let side = 480usize;
    let messages: Vec<Pixel> = (0..side * side).map(pixel).collect();
    let grid = collect(&messages, side, side).unwrap();
    assert_eq!(grid.pixel_count(), 230_400);
    assert_eq!(grid.get(479, 479), pixel(230_399).color);
    assert_eq!(grid.get(1, 2), pixel(961).color);
}

#[test]
fn only_square_images_can_be_assembled() {
    assert!(can_assemble(0, 0));
    assert!(can_assemble(1, 1));
    assert!(can_assemble(480, 480));
    assert!(!can_assemble(480, 481));
    assert!(!can_assemble(2, 1));
    assert!(!can_assemble(0, 1));
    assert!(can_assemble(1_753_413_056, 1_753_413_056));
    assert!(!can_assemble(1_753_413_057, 1_753_413_057));
    assert!(!can_assemble(u32::MAX as usize, u32::MAX as usize));
    assert!(!can_assemble(usize::MAX, usize::MAX));
}
