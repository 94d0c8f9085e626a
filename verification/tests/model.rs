use vinter::image::{MemoryImage, PmemError};
use vinter::model::PersistentMemoryModel;
use vinter::pmem::{LineGranularity, LineState};

fn cache_line_model(len: usize) -> PersistentMemoryModel {
    PersistentMemoryModel::new(MemoryImage::new(len), LineGranularity::CacheLine).unwrap()
}

fn states(model: &PersistentMemoryModel) -> Vec<LineState> {
    (0..model.line_count()).map(|l| model.line_state(l).unwrap()).collect()
}

#[test]
fn granularity_sizes() {
    assert_eq!(LineGranularity::Word.line_size(), 8);
    assert_eq!(LineGranularity::CacheLine.line_size(), 64);
}

#[test]
fn image_starts_zeroed() {
    let image = MemoryImage::new(5);
    assert_eq!(image.len(), 5);
    assert_eq!(image.as_slice(), &[0u8; 5]);
}

#[test]
fn image_read_and_write() {
    let mut image = MemoryImage::from_bytes(vec![1, 2, 3, 4, 5]);
    assert_eq!(image.read(1, 3), Ok(vec![2, 3, 4]));
    assert_eq!(image.read(5, 0), Ok(vec![]));
    assert_eq!(image.read(3, 3), Err(PmemError::OutOfRange));
    assert_eq!(image.read(usize::MAX, 2), Err(PmemError::OutOfRange));
    assert_eq!(image.write(3, &[9, 8]), Ok(()));
    assert_eq!(image.as_slice(), &[1, 2, 3, 9, 8]);
    assert_eq!(image.write(4, &[7, 7]), Err(PmemError::OutOfRange));
    assert_eq!(image.as_slice(), &[1, 2, 3, 9, 8]);
    assert_eq!(image.into_bytes(), vec![1, 2, 3, 9, 8]);
}

#[test]
fn new_rejects_empty_image() {
    let result = PersistentMemoryModel::new(MemoryImage::new(0), LineGranularity::Word);
    assert_eq!(result.unwrap_err(), PmemError::InvalidLength);
}

#[test]
fn new_rejects_partial_line() {
    let result = PersistentMemoryModel::new(MemoryImage::new(100), LineGranularity::CacheLine);
    assert_eq!(result.unwrap_err(), PmemError::InvalidLength);
    let result = PersistentMemoryModel::new(MemoryImage::new(12), LineGranularity::Word);
    assert_eq!(result.unwrap_err(), PmemError::InvalidLength);
}

#[test]
fn new_model_is_clean() {
    let model = PersistentMemoryModel::new(
        MemoryImage::from_bytes((0..128).collect()),
        LineGranularity::CacheLine,
    )
    .unwrap();
    assert_eq!(model.len(), 128);
    assert_eq!(model.line_count(), 2);
    assert_eq!(model.granularity(), LineGranularity::CacheLine);
    assert_eq!(states(&model), vec![LineState::Clean, LineState::Clean]);
    assert_eq!(model.line_state(2), None);
    assert_eq!(model.content(), (0..128).collect::<Vec<u8>>().as_slice());
    assert_eq!(model.latest_content(), model.content());
    assert!(model.unpersisted_lines().is_empty());
}

#[test]
fn word_granularity_counts_words() {
    let model = PersistentMemoryModel::new(MemoryImage::new(64), LineGranularity::Word).unwrap();
    assert_eq!(model.line_count(), 8);
}

#[test]
fn write_marks_covered_lines_dirty() {
    let mut model = cache_line_model(256);
    assert_eq!(model.write(60, &[1, 2, 3, 4, 5, 6, 7, 8]), Ok(()));
    assert_eq!(
        states(&model),
        vec![LineState::Dirty, LineState::Dirty, LineState::Clean, LineState::Clean]
    );
    assert_eq!(&model.latest_content()[60..68], &[1, 2, 3, 4, 5, 6, 7, 8]);
    assert_eq!(model.content(), &[0u8; 256]);
    assert_eq!(model.unpersisted_lines(), vec![0, 1]);
}

#[test]
fn write_out_of_range_changes_nothing() {
    let mut model = cache_line_model(128);
    assert_eq!(model.write(125, &[1, 2, 3, 4]), Err(PmemError::OutOfRange));
    assert_eq!(model.write(129, &[]), Err(PmemError::OutOfRange));
    assert_eq!(model.write(usize::MAX, &[1, 2]), Err(PmemError::OutOfRange));
    assert_eq!(states(&model), vec![LineState::Clean, LineState::Clean]);
    assert_eq!(model.latest_content(), &[0u8; 128]);
}

#[test]
fn empty_write_touches_no_line() {
    let mut model = cache_line_model(128);
    assert_eq!(model.write(64, &[]), Ok(()));
    assert_eq!(model.write(128, &[]), Ok(()));
    assert_eq!(states(&model), vec![LineState::Clean, LineState::Clean]);
}

#[test]
fn write_up_to_the_last_byte() {
    let mut model = cache_line_model(128);
    assert_eq!(model.write(127, &[9]), Ok(()));
    assert_eq!(states(&model), vec![LineState::Clean, LineState::Dirty]);
    assert_eq!(model.latest_content()[127], 9);
}

#[test]
fn flush_moves_dirty_to_flushed_only() {
    let mut model = cache_line_model(256);
    model.write(0, &[1]).unwrap();
    model.write(128, &[2]).unwrap();
    assert_eq!(model.flush(0, 128), Ok(()));
    assert_eq!(
        states(&model),
        vec![LineState::Flushed, LineState::Clean, LineState::Dirty, LineState::Clean]
    );
    assert_eq!(model.flush(0, 256), Ok(()));
    assert_eq!(
        states(&model),
        vec![LineState::Flushed, LineState::Clean, LineState::Flushed, LineState::Clean]
    );
    assert_eq!(model.content(), &[0u8; 256]);
}

#[test]
fn empty_flush_touches_no_line() {
    let mut model = cache_line_model(128);
    model.write(0, &[1; 128]).unwrap();
    assert_eq!(model.flush(64, 0), Ok(()));
    assert_eq!(model.flush(128, 0), Ok(()));
    assert_eq!(states(&model), vec![LineState::Dirty, LineState::Dirty]);
}

#[test]
fn flush_covers_every_line_of_its_range() {
    let mut model =
        PersistentMemoryModel::new(MemoryImage::new(32), LineGranularity::Word).unwrap();
    model.write(0, &[1; 32]).unwrap();
    assert_eq!(model.flush(7, 10), Ok(()));
    assert_eq!(
        states(&model),
        vec![LineState::Flushed, LineState::Flushed, LineState::Flushed, LineState::Dirty]
    );
    assert_eq!(model.fence(), vec![0, 1, 2, 3]);
    assert_eq!(&model.content()[..24], &[1; 24]);
    assert_eq!(&model.content()[24..], &[0; 8]);
}

#[test]
fn flush_out_of_range_changes_nothing() {
    let mut model = cache_line_model(128);
    model.write(0, &[1]).unwrap();
    assert_eq!(model.flush(64, 65), Err(PmemError::OutOfRange));
    assert_eq!(model.flush(200, 1), Err(PmemError::OutOfRange));
    assert_eq!(states(&model), vec![LineState::Dirty, LineState::Clean]);
}

#[test]
fn flush_leaves_persisted_lines_alone() {
    let mut model = cache_line_model(128);
    model.write(0, &[1]).unwrap();
    model.flush(0, 1).unwrap();
    model.fence();
    assert_eq!(model.flush(0, 64), Ok(()));
    assert_eq!(states(&model), vec![LineState::Persisted, LineState::Clean]);
}

#[test]
fn fence_persists_flushed_and_leaves_dirty() {
    let mut model = cache_line_model(256);
    model.write(0, &[1, 1]).unwrap();
    model.write(64, &[2, 2]).unwrap();
    model.write(192, &[3, 3]).unwrap();
    model.flush(0, 2).unwrap();
    model.flush(192, 2).unwrap();
    let before = model.unpersisted_lines();
    let record = model.fence();
    assert_eq!(record, vec![0, 1, 3]);
    assert_eq!(record, before);
    assert_eq!(
        states(&model),
        vec![LineState::Persisted, LineState::Dirty, LineState::Clean, LineState::Persisted]
    );
    let mut expected = vec![0u8; 256];
    expected[0] = 1;
    expected[1] = 1;
    expected[192] = 3;
    expected[193] = 3;
    assert_eq!(model.content(), expected.as_slice());
    assert_eq!(&model.latest_content()[64..66], &[2, 2]);
    assert_eq!(model.unpersisted_lines(), vec![1]);
}

#[test]
fn fence_without_pending_lines_is_empty() {
    let mut model = cache_line_model(128);
    assert!(model.fence().is_empty());
    assert_eq!(states(&model), vec![LineState::Clean, LineState::Clean]);
}

#[test]
fn write_resets_any_state_to_dirty() {
    let mut model = cache_line_model(256);
    model.write(0, &[1]).unwrap();
    model.write(64, &[1]).unwrap();
    model.write(128, &[1]).unwrap();
    model.flush(64, 128).unwrap();
    model.fence();
    model.write(128, &[2]).unwrap();
    model.flush(128, 1).unwrap();
    assert_eq!(
        states(&model),
        vec![LineState::Dirty, LineState::Persisted, LineState::Flushed, LineState::Clean]
    );
    model.write(0, &[3; 256]).unwrap();
    assert_eq!(states(&model), vec![LineState::Dirty; 4]);
}

#[test]
fn unpersisted_lines_does_not_change_the_model() {
    let mut model = cache_line_model(128);
    model.write(70, &[5]).unwrap();
    assert_eq!(model.unpersisted_lines(), vec![1]);
    assert_eq!(model.unpersisted_lines(), vec![1]);
    assert_eq!(states(&model), vec![LineState::Clean, LineState::Dirty]);
    assert_eq!(model.content(), &[0u8; 128]);
}

#[test]
fn persist_all_makes_everything_durable() {
    let mut model = cache_line_model(192);
    model.write(0, &[1]).unwrap();
    model.write(64, &[2]).unwrap();
    model.flush(64, 1).unwrap();
    model.persist_all();
    assert_eq!(states(&model), vec![LineState::Persisted; 3]);
    assert!(model.unpersisted_lines().is_empty());
    let mut expected = vec![0u8; 192];
    expected[0] = 1;
    expected[64] = 2;
    assert_eq!(model.content(), expected.as_slice());
    assert_eq!(model.into_image().into_bytes(), expected);
}

#[test]
fn write_flush_fence_of_one_line() {
    let mut model = cache_line_model(256);
    let data: Vec<u8> = (1..=64).collect();
    model.write(64, &data).unwrap();
    model.flush(64, 64).unwrap();
    let record = model.fence();
    assert_eq!(record, vec![1]);
    assert!(model.unpersisted_lines().is_empty());
    assert_eq!(&model.content()[64..128], data.as_slice());
    assert_eq!(&model.content()[..64], &[0u8; 64]);
    assert_eq!(&model.content()[128..], &[0u8; 128]);
}

#[test]
fn partial_line_write_persists_whole_line() {
    let mut model = PersistentMemoryModel::new(
        MemoryImage::from_bytes(vec![7; 16]),
        LineGranularity::Word,
    )
    .unwrap();
    model.write(9, &[1, 2]).unwrap();
    model.flush(9, 2).unwrap();
    model.fence();
    assert_eq!(model.content(), &[7, 7, 7, 7, 7, 7, 7, 7, 7, 1, 2, 7, 7, 7, 7, 7]);
}

#[test]
fn crash_image_round_trip_in_memory() {
    let mut model = cache_line_model(128);
    model.write(3, &[4, 5, 6]).unwrap();
    model.persist_all();
    let snapshot = model.content().to_vec();
    let restored = MemoryImage::from_bytes(snapshot.clone());
    assert_eq!(restored.as_slice(), snapshot.as_slice());
    assert_eq!(restored.read(0, 128), Ok(snapshot));
}
