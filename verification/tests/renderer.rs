use pathtracer::{clamp_i32, ensure_idx_exists, ImageBlockIterator, RenderSettings};

#[test]
fn clamp_keeps_positives_and_flattens_negatives() {
    assert_eq!(clamp_i32(7), 7);
    assert_eq!(clamp_i32(0), 0);
    assert_eq!(clamp_i32(-5), 0);
    assert_eq!(clamp_i32(i32::MAX), i32::MAX as u32);
    assert_eq!(clamp_i32(i32::MIN), 0);
}

#[test]
fn image_blocks_tile_the_whole_image() {
    let settings = RenderSettings { resolution_width: 10, resolution_height: 5 };
    let width = clamp_i32(settings.resolution_width);
    let height = clamp_i32(settings.resolution_height);
    let mut blocks = ImageBlockIterator::new(width, height, 8, 8);

    let mut covered = vec![vec![0u32; width as usize]; height as usize];
    while let Some(block) = blocks.next_block() {
        assert!(block.end_x() <= width && block.end_y() <= height);
        for x in block.start_x()..block.end_x() {
            for y in block.start_y()..block.end_y() {
                covered[y as usize][x as usize] += 1;
            }
        }
    }
    for row in covered {
        for count in row {
            assert_eq!(count, 1);
        }
    }
}

#[test]
fn image_blocks_for_a_small_image_come_in_order() {
    let mut blocks = ImageBlockIterator::new(10, 5, 8, 8);
    let first = blocks.next_block().unwrap();
    assert_eq!((first.start_x(), first.start_y(), first.end_x(), first.end_y()), (0, 0, 8, 5));
    let second = blocks.next_block().unwrap();
    assert_eq!((second.start_x(), second.start_y(), second.end_x(), second.end_y()), (8, 0, 10, 5));
    assert!(blocks.next_block().is_none());
}

#[test]
fn empty_image_yields_no_blocks() {
    let mut blocks = ImageBlockIterator::new(0, 8, 8, 8);
    assert!(blocks.next_block().is_none());
    let mut blocks = ImageBlockIterator::new(8, 0, 8, 8);
    assert!(blocks.next_block().is_none());
}

#[test]
fn ensure_idx_exists_grows_to_the_index() {
    let mut v = vec![1u32, 2];
    ensure_idx_exists(&mut v, 4, 9);
    assert_eq!(v, vec![1, 2, 9, 9, 9]);
    ensure_idx_exists(&mut v, 1, 7);
    assert_eq!(v, vec![1, 2, 9, 9, 9]);
}
