use p2p_fileshare::chunk::{Chunk, FileChunks};
use p2p_fileshare::download::DownloadState;
use p2p_fileshare::Error;

fn sample_data(len: usize) -> Vec<u8> {
    (0..len).map(|i| (i % 251) as u8).collect()
}

#[test]
fn metadata_of_uneven_file() {
    let data = sample_data(150000);
    let store = FileChunks::new(data, 65536);
    let meta = store.metadata(String::from("big.bin"));
    assert_eq!(meta.filename, "big.bin");
    assert_eq!(meta.chunk_size, 65536);
    assert_eq!(meta.total_length, 150000);
    assert_eq!(meta.total_chunks, 3);
}

#[test]
fn final_partial_chunk_length() {
    let data = sample_data(150000);
    let store = FileChunks::new(data, 65536);
    let c2 = store.read_chunk(2).unwrap();
    assert_eq!(c2.index, 2);
    assert_eq!(c2.data.len(), 150000 - 2 * 65536);
    assert_eq!(c2.data.len(), 18928);
    let c0 = store.read_chunk(0).unwrap();
    assert_eq!(c0.data.len(), 65536);
}

#[test]
fn read_chunk_out_of_range() {
    let data = sample_data(100);
    let store = FileChunks::new(data, 40);
    assert_eq!(store.total_chunks(), 3);
    assert!(matches!(store.read_chunk(3), Err(Error::OutOfRange)));
    assert!(matches!(store.read_chunk(u64::MAX), Err(Error::OutOfRange)));
    assert!(store.read_chunk(2).is_ok());
}

#[test]
fn iterator_walks_all_chunks_in_order() {
    let data = sample_data(10);
    let mut store = FileChunks::new(data.clone(), 4);
    let mut seen: Vec<u8> = Vec::new();
    let mut expect_index = 0u64;
    while let Some(chunk) = store.next() {
        assert_eq!(chunk.index, expect_index);
        expect_index += 1;
        seen.extend_from_slice(&chunk.data);
    }
    assert_eq!(expect_index, 3);
    assert_eq!(seen, data);
}

#[test]
fn round_trip_out_of_order() {
    let data = sample_data(150000);
    let store = FileChunks::new(data.clone(), 65536);
    let mut state = DownloadState::new(3, 65536, 150000);
    for idx in [2u64, 0, 1] {
        let chunk = store.read_chunk(idx).unwrap();
        state.write_chunk(chunk);
    }
    assert!(state.is_complete());
    let out = state.finalize();
    assert_eq!(out.len(), 150000);
    assert_eq!(out, data);
}

#[test]
fn round_trip_chunk_size_one() {
    let data = vec![9u8, 8, 7, 6, 5];
    let store = FileChunks::new(data.clone(), 1);
    let mut state = DownloadState::new(5, 1, 5);
    for idx in [4u64, 2, 0, 3, 1] {
        state.write_chunk(store.read_chunk(idx).unwrap());
    }
    assert_eq!(state.finalize(), data);
}

#[test]
fn round_trip_exact_multiple() {
    let data = sample_data(8);
    let store = FileChunks::new(data.clone(), 4);
    assert_eq!(store.total_chunks(), 2);
    let c1 = store.read_chunk(1).unwrap();
    assert_eq!(c1.data.len(), 4);
    let mut state = DownloadState::new(2, 4, 8);
    state.write_chunk(store.read_chunk(0).unwrap());
    state.write_chunk(c1);
    assert_eq!(state.finalize(), data);
}

#[test]
fn empty_file_is_immediately_complete() {
    let store = FileChunks::new(Vec::new(), 65536);
    assert_eq!(store.total_chunks(), 0);
    let state = DownloadState::new(0, 65536, 0);
    assert!(state.is_complete());
    assert_eq!(state.next_missing(), None);
    assert_eq!(state.finalize(), Vec::<u8>::new());
}

#[test]
fn next_missing_is_strictly_increasing() {
    let store = FileChunks::new(sample_data(100), 40);
    let mut state = DownloadState::new(3, 40, 100);
    assert_eq!(state.next_missing(), Some(0));
    assert!(!state.is_complete());
    state.write_chunk(store.read_chunk(0).unwrap());
    assert_eq!(state.next_missing(), Some(1));
    state.write_chunk(store.read_chunk(2).unwrap());
    assert_eq!(state.next_missing(), Some(1));
    state.write_chunk(store.read_chunk(1).unwrap());
    assert_eq!(state.next_missing(), None);
    assert!(state.is_complete());
}

#[test]
fn writing_same_chunk_twice_is_idempotent() {
    let store = FileChunks::new(sample_data(100), 40);
    let mut once = DownloadState::new(3, 40, 100);
    let mut twice = DownloadState::new(3, 40, 100);
    for idx in 0..3u64 {
        once.write_chunk(store.read_chunk(idx).unwrap());
        twice.write_chunk(store.read_chunk(idx).unwrap());
    }
    twice.write_chunk(store.read_chunk(1).unwrap());
    assert!(once.is_complete());
    assert!(twice.is_complete());
    assert_eq!(once.finalize(), twice.finalize());
}

#[test]
fn concurrent_style_writes_do_not_corrupt_neighbours() {
    let data = sample_data(100);
    let store = FileChunks::new(data.clone(), 40);
    let mut state = DownloadState::new(3, 40, 100);
    // Three fetch tasks answer in an arbitrary interleaving.
    state.write_chunk(store.read_chunk(1).unwrap());
    state.write_chunk(store.read_chunk(2).unwrap());
    state.write_chunk(store.read_chunk(0).unwrap());
    let out = state.finalize();
    let sum = |bytes: &[u8]| bytes.iter().map(|b| *b as u64).sum::<u64>();
    assert_eq!(sum(&out[0..40]), sum(&data[0..40]));
    assert_eq!(sum(&out[40..80]), sum(&data[40..80]));
    assert_eq!(sum(&out[80..100]), sum(&data[80..100]));
    assert_eq!(out, data);
}

#[test]
fn oversized_write_rejected_by_chunk_guard() {
    // A chunk whose data is shorter than the geometry demands never
    // reaches the output: the orchestrator's guard refuses it.
    let state = DownloadState::new(3, 40, 100);
    let bogus = Chunk { index: 0, data: vec![1u8; 7] };
    assert!(!p2p_fileshare::orchestrator::chunk_acceptable(&state, 0, &bogus));
}
