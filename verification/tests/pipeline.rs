use vinter::crash::ImageKind;
use vinter::generator::{
    process_trace, CoverageStep, GeneratorError, HeuristicCrashImageGenerator, PmemDump, Stage,
};
use vinter::image::PmemError;
use vinter::pmem::LineGranularity;
use vinter::replay::ReplayError;
use vinter::semantic::{bytes_equal, ImageId, SemanticStates};
use vinter::trace::DecodeError;

fn record(kind: u8, addr: u64, len: u64, payload: &[u8]) -> Vec<u8> {
    let mut out = vec![kind];
    out.extend_from_slice(&addr.to_le_bytes());
    out.extend_from_slice(&len.to_le_bytes());
    out.extend_from_slice(payload);
    out
}

fn two_fence_trace() -> Vec<u8> {
    let mut trace = record(0, 0, 8, &[0x11; 8]);
    trace.extend(record(1, 0, 8, &[]));
    trace.extend(record(0, 64, 8, &[0x22; 8]));
    trace.extend(record(2, 0, 0, &[]));
    trace.extend(record(0, 128, 8, &[0x33; 8]));
    trace.extend(record(1, 128, 8, &[]));
    trace.extend(record(2, 0, 0, &[]));
    trace
}

fn replayed() -> HeuristicCrashImageGenerator {
    let mut generator = HeuristicCrashImageGenerator::new(256, LineGranularity::CacheLine).unwrap();
    let trace = two_fence_trace();
    generator.trace_pre_failure(Some(trace.len())).unwrap();
    assert_eq!(generator.replay(trace), Ok(2));
    generator
}

#[test]
fn bytes_equal_compares_content() {
    assert!(bytes_equal(&[], &[]));
    assert!(bytes_equal(&[1, 2, 3], &[1, 2, 3]));
    assert!(!bytes_equal(&[1, 2, 3], &[1, 2, 4]));
    assert!(!bytes_equal(&[1, 2], &[1, 2, 3]));
}

#[test]
fn equal_fingerprints_collapse_into_one_state() {
    let mut states = SemanticStates::new();
    let a = ImageId { fence_id: 0, image: 0 };
    let b = ImageId { fence_id: 0, image: 2 };
    states.fold(b"{\"/\":\"D\"}", a);
    states.fold(b"{\"/\":\"D\"}", b);
    assert_eq!(states.len(), 1);
    let state = states.get(0).unwrap();
    assert_eq!(state.fingerprint(), b"{\"/\":\"D\"}");
    assert_eq!(state.representative(), a);
    assert_eq!(state.contributors(), &[a, b]);
    assert!(state.contributors().len() >= 2);
    assert!(states.get(1).is_none());
}

#[test]
fn different_fingerprints_stay_apart() {
    let mut states = SemanticStates::new();
    assert_eq!(states.len(), 0);
    let ids: Vec<ImageId> = (0..4).map(|i| ImageId { fence_id: 1, image: i }).collect();
    states.fold(b"x", ids[0]);
    states.fold(b"y", ids[1]);
    states.fold(b"x", ids[2]);
    states.fold(b"", ids[3]);
    assert_eq!(states.len(), 3);
    assert_eq!(states.get(0).unwrap().contributors(), &[ids[0], ids[2]]);
    assert_eq!(states.get(1).unwrap().contributors(), &[ids[1]]);
    assert_eq!(states.get(1).unwrap().representative(), ids[1]);
    assert_eq!(states.get(2).unwrap().fingerprint(), b"");
}

#[test]
fn generator_rejects_bad_region() {
    assert_eq!(
        HeuristicCrashImageGenerator::new(0, LineGranularity::Word).unwrap_err(),
        GeneratorError::Config(PmemError::InvalidLength)
    );
    assert_eq!(
        HeuristicCrashImageGenerator::new(100, LineGranularity::CacheLine).unwrap_err(),
        GeneratorError::Config(PmemError::InvalidLength)
    );
}

#[test]
fn generator_starts_created() {
    let generator = HeuristicCrashImageGenerator::new(128, LineGranularity::Word).unwrap();
    assert_eq!(generator.stage(), Stage::Created);
    assert!(generator.crash_images().is_empty());
    assert_eq!(generator.semantic_states().len(), 0);
}

#[test]
fn stages_run_in_order_only() {
    let mut generator = HeuristicCrashImageGenerator::new(64, LineGranularity::CacheLine).unwrap();
    assert_eq!(
        generator.replay(vec![2; 17]),
        Err(GeneratorError::WrongStage { found: Stage::Created })
    );
    assert_eq!(
        generator.extract_semantic_states(vec![]),
        Err(GeneratorError::WrongStage { found: Stage::Created })
    );
    assert_eq!(generator.stage(), Stage::Created);
    assert_eq!(generator.trace_pre_failure(Some(17)), Ok(()));
    assert_eq!(generator.stage(), Stage::Traced);
    assert_eq!(
        generator.trace_pre_failure(Some(17)),
        Err(GeneratorError::WrongStage { found: Stage::Traced })
    );
    assert_eq!(
        generator.extract_semantic_states(vec![]),
        Err(GeneratorError::WrongStage { found: Stage::Traced })
    );
    assert_eq!(generator.replay(record(2, 0, 0, &[])), Ok(0));
    assert_eq!(generator.stage(), Stage::Replayed);
    assert_eq!(
        generator.replay(vec![]),
        Err(GeneratorError::WrongStage { found: Stage::Replayed })
    );
    assert_eq!(generator.extract_semantic_states(vec![]), Ok(0));
    assert_eq!(generator.stage(), Stage::StatesExtracted);
    assert_eq!(
        generator.extract_semantic_states(vec![]),
        Err(GeneratorError::WrongStage { found: Stage::StatesExtracted })
    );
}

#[test]
fn tracing_without_a_trace_fails_the_test() {
    let mut generator = HeuristicCrashImageGenerator::new(64, LineGranularity::CacheLine).unwrap();
    assert_eq!(generator.trace_pre_failure(Some(0)), Err(GeneratorError::NoTrace));
    assert_eq!(generator.stage(), Stage::Failed);
    let mut generator = HeuristicCrashImageGenerator::new(64, LineGranularity::CacheLine).unwrap();
    assert_eq!(generator.trace_pre_failure(None), Err(GeneratorError::TracerFailed));
    assert_eq!(generator.stage(), Stage::Failed);
    assert_eq!(
        generator.replay(vec![]),
        Err(GeneratorError::WrongStage { found: Stage::Failed })
    );
}

#[test]
fn missing_coverage_file_is_no_error() {
    let generator = replayed();
    assert_eq!(generator.merge_cov_files(true), CoverageStep::Merge);
    assert_eq!(generator.merge_cov_files(false), CoverageStep::Nothing);
}

#[test]
fn fail_marks_the_test_failed() {
    let mut generator = replayed();
    generator.fail();
    assert_eq!(generator.stage(), Stage::Failed);
    assert_eq!(generator.crash_images().len(), 8);
}

#[test]
fn replay_counts_fences_with_writes_and_keeps_images() {
    let generator = replayed();
    assert_eq!(generator.stage(), Stage::Replayed);
    let images = generator.crash_images();
    assert_eq!(images.len(), 8);
    let fences: Vec<usize> = images.iter().map(|i| i.fence_id()).collect();
    assert_eq!(fences, vec![0, 0, 0, 0, 1, 1, 1, 1]);
    assert_eq!(images[4].kind(), ImageKind::NothingPersisted);
    assert_eq!(images[5].kind(), ImageKind::AllPersisted);
    assert_eq!(images[6].kind(), ImageKind::Withheld { line: 1 });
    assert_eq!(images[7].kind(), ImageKind::Withheld { line: 2 });
    assert_eq!(&images[4].bytes()[..8], &[0x11; 8]);
    assert_eq!(&images[4].bytes()[64..72], &[0; 8]);
    assert_eq!(&images[4].bytes()[128..136], &[0; 8]);
    assert_eq!(&images[6].bytes()[64..72], &[0; 8]);
    assert_eq!(&images[6].bytes()[128..136], &[0x33; 8]);
    assert_eq!(&images[7].bytes()[64..72], &[0x22; 8]);
    assert_eq!(&images[7].bytes()[128..136], &[0; 8]);
}

#[test]
fn replay_of_fences_without_writes_keeps_no_image() {
    let mut generator = HeuristicCrashImageGenerator::new(64, LineGranularity::CacheLine).unwrap();
    let mut trace = record(2, 0, 0, &[]);
    trace.extend(record(1, 0, 64, &[]));
    trace.extend(record(2, 0, 0, &[]));
    generator.trace_pre_failure(Some(trace.len())).unwrap();
    assert_eq!(generator.replay(trace), Ok(0));
    assert!(generator.crash_images().is_empty());
}

#[test]
fn replay_fails_on_first_bad_record() {
    let mut generator = HeuristicCrashImageGenerator::new(64, LineGranularity::CacheLine).unwrap();
    let mut trace = record(0, 0, 1, &[7]);
    trace.extend(record(2, 0, 0, &[]));
    trace.extend(record(0, 64, 1, &[7]));
    trace.extend(record(5, 0, 0, &[]));
    generator.trace_pre_failure(Some(trace.len())).unwrap();
    assert_eq!(
        generator.replay(trace),
        Err(GeneratorError::Replay(ReplayError::OutOfBounds { offset: 35, addr: 64, len: 1 }))
    );
    assert_eq!(generator.stage(), Stage::Failed);
    assert!(generator.crash_images().is_empty());
}

#[test]
fn replay_fails_on_truncated_trace() {
    let mut generator = HeuristicCrashImageGenerator::new(64, LineGranularity::CacheLine).unwrap();
    generator.trace_pre_failure(Some(3)).unwrap();
    assert_eq!(
        generator.replay(vec![0, 1, 2]),
        Err(GeneratorError::Replay(ReplayError::Decode(DecodeError::Truncated { offset: 0 })))
    );
    assert_eq!(generator.stage(), Stage::Failed);
}

#[test]
fn extraction_groups_images_by_fingerprint() {
    let mut generator = replayed();
    let outcomes: Vec<Option<Vec<u8>>> = vec![
        Some(b"empty".to_vec()),
        Some(b"both".to_vec()),
        Some(b"second".to_vec()),
        Some(b"first".to_vec()),
        Some(b"first".to_vec()),
        Some(b"all".to_vec()),
        Some(b"third".to_vec()),
        Some(b"both".to_vec()),
    ];
    assert_eq!(generator.extract_semantic_states(outcomes), Ok(6));
    assert_eq!(generator.stage(), Stage::StatesExtracted);
    let states = generator.semantic_states();
    assert_eq!(states.len(), 6);
    let both = states.get(1).unwrap();
    assert_eq!(both.fingerprint(), b"both");
    assert_eq!(both.representative(), ImageId { fence_id: 0, image: 1 });
    assert_eq!(
        both.contributors(),
        &[ImageId { fence_id: 0, image: 1 }, ImageId { fence_id: 1, image: 7 }]
    );
    let first = states.get(3).unwrap();
    assert_eq!(
        first.contributors(),
        &[ImageId { fence_id: 0, image: 3 }, ImageId { fence_id: 1, image: 4 }]
    );
}

#[test]
fn extraction_reports_failures_after_folding_the_rest() {
    let mut generator = replayed();
    let outcomes: Vec<Option<Vec<u8>>> = vec![
        Some(b"a".to_vec()),
        Some(b"a".to_vec()),
        None,
        Some(b"b".to_vec()),
        None,
        Some(b"a".to_vec()),
        None,
        Some(b"c".to_vec()),
    ];
    assert_eq!(
        generator.extract_semantic_states(outcomes),
        Err(GeneratorError::Extraction { failed: 3, first: 2 })
    );
    assert_eq!(generator.stage(), Stage::Failed);
    assert_eq!(generator.semantic_states().len(), 3);
    assert_eq!(generator.semantic_states().get(0).unwrap().contributors().len(), 3);
}

#[test]
fn extraction_wants_one_outcome_per_image() {
    let mut generator = replayed();
    assert_eq!(
        generator.extract_semantic_states(vec![None; 7]),
        Err(GeneratorError::OutcomeCount { expected: 8, given: 7 })
    );
    assert_eq!(generator.stage(), Stage::Replayed);
    assert_eq!(generator.semantic_states().len(), 0);
}

#[test]
fn process_trace_dumps_durable_bytes_only() {
    let mut durable = vec![0u8; 256];
    durable[..8].copy_from_slice(&[0x11; 8]);
    durable[128..136].copy_from_slice(&[0x33; 8]);
    assert_eq!(
        process_trace(256, LineGranularity::CacheLine, false, two_fence_trace()),
        Ok(PmemDump { content: durable, unpersisted: vec![1] })
    );
}

#[test]
fn process_trace_can_include_unpersisted_lines() {
    let mut all = vec![0u8; 256];
    all[..8].copy_from_slice(&[0x11; 8]);
    all[64..72].copy_from_slice(&[0x22; 8]);
    all[128..136].copy_from_slice(&[0x33; 8]);
    assert_eq!(
        process_trace(256, LineGranularity::Word, true, two_fence_trace()),
        Ok(PmemDump { content: all, unpersisted: vec![8] })
    );
}

#[test]
fn process_trace_of_nothing_dumps_zeros() {
    assert_eq!(
        process_trace(16, LineGranularity::Word, false, Vec::new()),
        Ok(PmemDump { content: vec![0; 16], unpersisted: vec![] })
    );
}

#[test]
fn process_trace_reports_bad_region_and_bad_record() {
    assert_eq!(
        process_trace(12, LineGranularity::Word, false, Vec::new()),
        Err(GeneratorError::Config(PmemError::InvalidLength))
    );
    assert_eq!(
        process_trace(16, LineGranularity::Word, true, record(0, 10, 8, &[1; 8])),
        Err(GeneratorError::Replay(ReplayError::OutOfBounds { offset: 0, addr: 10, len: 8 }))
    );
    assert_eq!(
        process_trace(16, LineGranularity::Word, true, vec![3; 17]),
        Err(GeneratorError::Replay(ReplayError::Decode(DecodeError::UnknownKind {
            offset: 0,
            kind: 3
        })))
    );
}
