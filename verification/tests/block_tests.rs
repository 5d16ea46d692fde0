use disco::{BackingStore, BlockManager, Geometry, VfsError, BLOCK_SIZE, TOTAL_BLOCKS};

fn small() -> Geometry {
    Geometry::new(4, 16).unwrap()
}

#[test]
fn geometry_rejects_empty_blocks_and_overlong_stores() {
    assert!(Geometry::new(4, 0).is_none());
    assert!(Geometry::new(usize::MAX, 2).is_none());
    assert!(Geometry::new(usize::MAX, 1).is_none());
    assert!(Geometry::new(usize::MAX - 3, 1).is_none());
    assert!(Geometry::new(0, 1).is_some());
    let g = Geometry::new(4, 4096).unwrap();
    assert_eq!(g.total_blocks, 4);
    assert_eq!(g.block_size, 4096);
}

#[test]
fn standard_geometry_is_1024_blocks_of_4096_bytes() {
    let g = Geometry::standard();
    assert_eq!(g.total_blocks, TOTAL_BLOCKS);
    assert_eq!(g.block_size, BLOCK_SIZE);
    assert_eq!(g.total_blocks, 1024);
    assert_eq!(g.block_size, 4096);
    assert_eq!(g.total_len(), 4 + 1024 + 1024 * 4096);
}

#[test]
fn layout_offsets_are_exact() {
    let g = Geometry::new(4, 4096).unwrap();
    assert_eq!(g.total_len(), 16392);
    assert_eq!(g.first_block_offset(), 8);
    assert_eq!(g.offset_of_block(0), 8);
    assert_eq!(g.offset_of_block(1), 4104);
    assert_eq!(g.offset_of_block(3), 8 + 3 * 4096);
}

#[test]
fn new_store_has_signature_free_bitmap_and_zero_blocks() {
    let manager = BlockManager::initialize(small(), None).unwrap();
    let image = manager.image();
    assert_eq!(image.len(), 4 + 4 + 4 * 16);
    assert_eq!(&image[0..4], &[0xEF, 0xBE, 0xAD, 0xDE]);
    assert_eq!(&image[0..4], &0xDEADBEEFu32.to_le_bytes());
    assert_eq!(&image[4..8], &[1, 1, 1, 1]);
    assert!(image[8..].iter().all(|b| *b == 0));
    assert_eq!(manager.free_blocks(), &vec![true, true, true, true]);
    assert_eq!(manager.geometry(), small());
}

#[test]
fn allocation_writes_zero_for_occupied_and_one_for_free() {
    let mut manager = BlockManager::initialize(small(), None).unwrap();
    assert_eq!(manager.allocate_block(), Ok(0));
    assert_eq!(manager.allocate_block(), Ok(1));
    assert_eq!(&manager.image()[4..8], &[0, 0, 1, 1]);
    assert_eq!(manager.free_blocks(), &vec![false, false, true, true]);
    assert_eq!(manager.free_block(0), Ok(()));
    assert_eq!(&manager.image()[4..8], &[1, 0, 1, 1]);
    assert_eq!(&manager.image()[0..4], &[0xEF, 0xBE, 0xAD, 0xDE]);
}

#[test]
fn allocation_reuses_the_block_just_freed() {
    let mut manager = BlockManager::initialize(small(), None).unwrap();
    assert_eq!(manager.allocate_block(), Ok(0));
    assert_eq!(manager.allocate_block(), Ok(1));
    let third = manager.allocate_block().unwrap();
    assert_eq!(third, 2);
    manager.free_block(third).unwrap();
    assert_eq!(manager.allocate_block(), Ok(third));
}

#[test]
fn allocation_takes_the_lowest_free_block() {
    let mut manager = BlockManager::initialize(small(), None).unwrap();
    for expected in 0..4 {
        assert_eq!(manager.allocate_block(), Ok(expected));
    }
    manager.free_block(3).unwrap();
    manager.free_block(1).unwrap();
    assert_eq!(manager.allocate_block(), Ok(1));
    assert_eq!(manager.allocate_block(), Ok(3));
}

#[test]
fn freeing_a_free_block_is_no_error() {
    let mut manager = BlockManager::initialize(small(), None).unwrap();
    let before = manager.image().clone();
    assert_eq!(manager.free_block(2), Ok(()));
    assert_eq!(manager.image(), &before);
    assert_eq!(manager.allocate_block(), Ok(0));
}

#[test]
fn occupancy_survives_closing_and_reopening() {
    let mut manager = BlockManager::initialize(small(), None).unwrap();
    manager.allocate_block().unwrap();
    manager.allocate_block().unwrap();
    manager.allocate_block().unwrap();
    manager.free_block(1).unwrap();
    let flags = manager.free_blocks().clone();
    assert_eq!(flags, vec![false, true, false, true]);
    let image = manager.into_image();

    let reopened = BlockManager::initialize(small(), Some(image.clone())).unwrap();
    assert_eq!(reopened.free_blocks(), &flags);
    assert_eq!(reopened.image(), &image);
}

#[test]
fn reopening_does_not_reformat() {
    let mut manager = BlockManager::initialize(small(), None).unwrap();
    manager.allocate_block().unwrap();
    manager.write_block(0, b"abc").unwrap();
    let image = manager.into_image();
    let mut reopened = BlockManager::initialize(small(), Some(image)).unwrap();
    assert_eq!(&reopened.read_block(0).unwrap()[..3], b"abc");
    assert_eq!(reopened.allocate_block(), Ok(1));
}

#[test]
fn any_bitmap_byte_but_one_means_occupied() {
    let mut image = BlockManager::initialize(small(), None).unwrap().into_image();
    image[4] = 0;
    image[5] = 2;
    image[6] = 255;
    let mut manager = BlockManager::initialize(small(), Some(image)).unwrap();
    assert_eq!(manager.free_blocks(), &vec![false, false, false, true]);
    assert_eq!(manager.allocate_block(), Ok(3));
    assert_eq!(&manager.image()[4..8], &[0, 0, 0, 0]);
}

#[test]
fn images_of_wrong_length_or_signature_are_corrupt() {
    let good = BlockManager::initialize(small(), None).unwrap().into_image();

    let mut short = good.clone();
    short.pop();
    assert_eq!(
        BlockManager::initialize(small(), Some(short)).err(),
        Some(VfsError::CorruptStore)
    );

    let mut long = good.clone();
    long.push(0);
    assert_eq!(
        BlockManager::initialize(small(), Some(long)).err(),
        Some(VfsError::CorruptStore)
    );

    assert_eq!(
        BlockManager::initialize(small(), Some(Vec::new())).err(),
        Some(VfsError::CorruptStore)
    );

    let mut bad = good.clone();
    bad[3] = 0xDF;
    assert_eq!(
        BlockManager::initialize(small(), Some(bad)).err(),
        Some(VfsError::CorruptStore)
    );

    let zeros = vec![0u8; good.len()];
    assert_eq!(
        BlockManager::initialize(small(), Some(zeros)).err(),
        Some(VfsError::CorruptStore)
    );

    assert!(BlockManager::initialize(small(), Some(good)).is_ok());
}

#[test]
fn out_of_range_indices_are_refused_and_change_nothing() {
    let mut manager = BlockManager::initialize(small(), None).unwrap();
    manager.allocate_block().unwrap();
    manager.write_block(0, b"payload").unwrap();
    let image = manager.image().clone();
    let flags = manager.free_blocks().clone();

    for index in [4usize, 5, 1024, usize::MAX] {
        assert_eq!(manager.write_block(index, b"x"), Err(VfsError::InvalidBlockIndex));
        assert_eq!(manager.read_block(index), Err(VfsError::InvalidBlockIndex));
        assert_eq!(manager.free_block(index), Err(VfsError::InvalidBlockIndex));
        assert_eq!(manager.image(), &image);
        assert_eq!(manager.free_blocks(), &flags);
    }
}

#[test]
fn standard_store_refuses_index_1024() {
    let mut manager = BlockManager::initialize(Geometry::standard(), None).unwrap();
    assert_eq!(manager.write_block(1024, b"x"), Err(VfsError::InvalidBlockIndex));
    assert_eq!(manager.read_block(1024), Err(VfsError::InvalidBlockIndex));
    assert_eq!(manager.free_block(1024), Err(VfsError::InvalidBlockIndex));
    assert_eq!(manager.write_block(1023, b"x"), Ok(()));
    assert_eq!(manager.read_block(1023).unwrap().len(), 4096);
    assert_eq!(manager.image().len(), 4 + 1024 + 1024 * 4096);
}

#[test]
fn oversized_data_is_refused_and_changes_nothing() {
    let mut manager = BlockManager::initialize(small(), None).unwrap();
    let image = manager.image().clone();
    assert_eq!(manager.write_block(1, &[7u8; 17]), Err(VfsError::DataTooLarge));
    assert_eq!(manager.image(), &image);
    assert_eq!(manager.write_block(1, &[7u8; 16]), Ok(()));
    assert_eq!(manager.read_block(1).unwrap(), vec![7u8; 16]);
    assert_eq!(manager.read_block(0).unwrap(), vec![0u8; 16]);
    assert_eq!(manager.read_block(2).unwrap(), vec![0u8; 16]);
}

#[test]
fn index_is_checked_before_length() {
    let mut manager = BlockManager::initialize(small(), None).unwrap();
    assert_eq!(manager.write_block(4, &[7u8; 17]), Err(VfsError::InvalidBlockIndex));
}

#[test]
fn exhaustion_and_one_free() {
    let mut manager = BlockManager::initialize(small(), None).unwrap();
    for expected in 0..4 {
        assert_eq!(manager.allocate_block(), Ok(expected));
    }
    let image = manager.image().clone();
    assert_eq!(manager.allocate_block(), Err(VfsError::NoFreeBlocks));
    assert_eq!(manager.image(), &image);
    manager.free_block(2).unwrap();
    assert_eq!(manager.allocate_block(), Ok(2));
    assert_eq!(manager.allocate_block(), Err(VfsError::NoFreeBlocks));
}

#[test]
fn exhaustion_of_the_standard_store() {
    let mut manager = BlockManager::initialize(Geometry::standard(), None).unwrap();
    for expected in 0..1024 {
        assert_eq!(manager.allocate_block(), Ok(expected));
    }
    assert_eq!(manager.allocate_block(), Err(VfsError::NoFreeBlocks));
}

#[test]
fn hello_is_read_back() {
    let mut manager = BlockManager::initialize(Geometry::standard(), None).unwrap();
    let i = manager.allocate_block().unwrap();
    manager.write_block(i, b"Hello").unwrap();
    let block = manager.read_block(i).unwrap();
    assert_eq!(block.len(), 4096);
    assert_eq!(&block[..5], b"Hello");
}

#[test]
fn short_write_keeps_the_tail_of_the_block() {
    let mut manager = BlockManager::initialize(small(), None).unwrap();
    manager.write_block(2, b"0123456789abcdef").unwrap();
    manager.write_block(2, b"XY").unwrap();
    assert_eq!(manager.read_block(2).unwrap(), b"XY23456789abcdef".to_vec());
    assert_eq!(&manager.image()[8 + 32..8 + 48], b"XY23456789abcdef");
}

#[test]
fn writing_does_not_allocate() {
    let mut manager = BlockManager::initialize(small(), None).unwrap();
    manager.write_block(0, b"data").unwrap();
    assert_eq!(manager.free_blocks(), &vec![true, true, true, true]);
    assert_eq!(manager.allocate_block(), Ok(0));
    assert_eq!(&manager.read_block(0).unwrap()[..4], b"data");
}

#[test]
fn scenario_with_four_blocks() {
    let geometry = Geometry::new(4, 4096).unwrap();
    let mut manager = BlockManager::initialize(geometry, None).unwrap();
    assert_eq!(manager.allocate_block(), Ok(0));
    assert_eq!(manager.allocate_block(), Ok(1));
    assert_eq!(manager.allocate_block(), Ok(2));
    assert_eq!(manager.free_block(1), Ok(()));
    assert_eq!(manager.allocate_block(), Ok(1));
    assert_eq!(manager.allocate_block(), Ok(3));
    assert_eq!(manager.allocate_block(), Err(VfsError::NoFreeBlocks));
}

#[test]
fn formatting_twice_is_formatting_once_and_keeps_the_blocks() {
    let geometry = small();
    let mut store = BackingStore::blank(geometry);
    store.write_at(8, b"block zero bytes");
    store.write_at(4, &[0, 0, 0, 0]);
    BlockManager::format(&mut store);
    let once = store.as_bytes().clone();
    assert_eq!(&once[0..4], &[0xEF, 0xBE, 0xAD, 0xDE]);
    assert_eq!(&once[4..8], &[1, 1, 1, 1]);
    assert_eq!(&once[8..24], b"block zero bytes");
    BlockManager::format(&mut store);
    assert_eq!(store.as_bytes(), &once);
}

#[test]
fn bitmap_is_saved_and_loaded_with_one_for_free() {
    let geometry = small();
    let mut store = BackingStore::blank(geometry);
    BlockManager::save_free_blocks(&mut store, &[true, false, false, true]);
    assert_eq!(&store.as_bytes()[4..8], &[1, 0, 0, 1]);
    assert_eq!(
        BlockManager::load_free_blocks(&store),
        vec![true, false, false, true]
    );
    assert_eq!(store.get_geometry(), geometry);
    assert_eq!(store.read_at(4, 4), vec![1, 0, 0, 1]);
}

#[test]
fn backing_store_takes_only_bytes_of_its_length() {
    let geometry = small();
    assert_eq!(
        BackingStore::from_bytes(geometry, vec![0u8; 71]).err(),
        Some(VfsError::CorruptStore)
    );
    let store = BackingStore::from_bytes(geometry, vec![9u8; 72]).unwrap();
    assert_eq!(store.into_bytes(), vec![9u8; 72]);
}
