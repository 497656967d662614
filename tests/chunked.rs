use vortex_core::chunked::{coalesce_chunks, find_chunks, plan_take_rows, ChunkIndices, ChunkedArrayReader};
use vortex_core::chunked_array::ChunkedArray;
use vortex_core::compute::take;
use vortex_core::dtype::{DType, Nullability, PType};
use vortex_core::error::VortexError;

fn ten_chunks() -> ChunkedArray<i32> {
    let chunk: Vec<i32> = (0i32..1000).collect();
    ChunkedArray::try_new(vec![chunk; 10]).unwrap()
}

#[test]
fn test_take_rows() {
    let c = ten_chunks();
    let result = c.take_rows(&[0u64, 10, 10_000 - 1]).unwrap();
    assert_eq!(result.len(), 3);
    assert_eq!(result.flatten(), vec![0, 10, 999]);
}

#[test]
fn take_rows_matches_take_on_flattened() {
    let c = ChunkedArray::try_new(vec![vec![5i32, 6], vec![], vec![7, 8, 9], vec![10]]).unwrap();
    let idx = [0u64, 2, 3, 4, 5];
    let rows = c.take_rows(&idx).unwrap().flatten();
    assert_eq!(rows, take(&c.flatten(), &idx).unwrap());
    assert_eq!(rows, vec![5, 7, 8, 9, 10]);
}

#[test]
fn take_rows_errors() {
    let c = ten_chunks();
    assert!(matches!(c.take_rows(&[5, 3]), Err(VortexError::NotImplemented(_, _))));
    assert!(matches!(c.take_rows(&[5, 10_000]), Err(VortexError::OutOfBounds(10_000, 10_000))));
    assert_eq!(c.take_rows(&[]).unwrap().len(), 0);
}

#[test]
fn row_offsets_are_prefix_sums() {
    let c = ChunkedArray::try_new(vec![vec![1i32, 2], vec![3], vec![4, 5, 6]]).unwrap();
    assert_eq!(c.row_offsets(), &vec![0u64, 2, 3, 6]);
    assert_eq!(c.len(), 6);
    assert_eq!(c.find_chunk_idx(0), 0);
    assert_eq!(c.find_chunk_idx(2), 1);
    assert_eq!(c.find_chunk_idx(5), 2);
    assert_eq!(c.chunks().len(), 3);
    assert_eq!(c.flatten(), vec![1, 2, 3, 4, 5, 6]);
    assert_eq!(c.value_at(3), 4);
}

#[test]
fn find_chunks_groups_positions() {
    let offsets = [0u64, 1000, 2000, 3000];
    let groups = find_chunks(&offsets, &[0, 10, 1500, 2999]).unwrap();
    assert_eq!(
        groups,
        vec![
            ChunkIndices { chunk_idx: 0, indices_start: 0, indices_stop: 2 },
            ChunkIndices { chunk_idx: 1, indices_start: 2, indices_stop: 3 },
            ChunkIndices { chunk_idx: 2, indices_start: 3, indices_stop: 4 },
        ]
    );
    assert!(matches!(find_chunks(&offsets, &[3000]), Err(VortexError::OutOfBounds(3000, 3000))));
    assert!(find_chunks(&offsets, &[]).unwrap().is_empty());
}

#[test]
fn coalesce_keeps_each_chunk_apart() {
    let g = vec![
        ChunkIndices { chunk_idx: 0, indices_start: 0, indices_stop: 1 },
        ChunkIndices { chunk_idx: 3, indices_start: 1, indices_stop: 2 },
    ];
    let c = coalesce_chunks(&g);
    assert_eq!(c, vec![vec![g[0]], vec![g[1]]]);
}

#[test]
fn plan_reads_byte_ranges_and_relativizes() {
    let rows = [0u64, 1000, 2000, 3000];
    let bytes = [100u64, 180, 260, 300];
    let plan = plan_take_rows(&rows, &bytes, &[0, 10, 2500]).unwrap();
    assert_eq!(plan.len(), 2);
    assert_eq!((plan[0].start_byte, plan[0].stop_byte), (100, 180));
    assert_eq!(plan[0].relative_indices, vec![0, 10]);
    assert_eq!((plan[1].start_chunk, plan[1].stop_chunk), (2, 3));
    assert_eq!((plan[1].start_row, plan[1].stop_row), (2000, 3000));
    assert_eq!((plan[1].start_byte, plan[1].stop_byte), (260, 300));
    assert_eq!(plan[1].relative_indices, vec![500]);
}

#[test]
fn plan_keeps_a_row_on_a_chunk_boundary_in_its_chunk() {
    let rows = [0u64, 1000, 2000];
    let bytes = [0u64, 10, 20];
    let plan = plan_take_rows(&rows, &bytes, &[999, 1000]).unwrap();
    assert_eq!(plan[0].relative_indices, vec![999]);
    assert_eq!(plan[1].relative_indices, vec![0]);
}

#[test]
fn reader_requires_its_options() {
    let dt = DType::Primitive(PType::I32, Nullability::NonNullable);
    assert!(matches!(
        ChunkedArrayReader::try_new(None, Some(vec![0]), Some(dt.clone())),
        Err(VortexError::MissingOption(_))
    ));
    assert!(matches!(
        ChunkedArrayReader::try_new(Some(vec![0]), None, Some(dt.clone())),
        Err(VortexError::MissingOption(_))
    ));
    assert!(matches!(
        ChunkedArrayReader::try_new(Some(vec![0]), Some(vec![0]), None),
        Err(VortexError::MissingOption(_))
    ));
    assert!(matches!(
        ChunkedArrayReader::try_new(Some(vec![1, 2]), Some(vec![0, 5]), Some(dt.clone())),
        Err(VortexError::InvalidEncoding(_))
    ));
    let r = ChunkedArrayReader::try_new(Some(vec![0, 4, 8]), Some(vec![0, 50, 90]), Some(dt)).unwrap();
    let plan = r.plan_take_rows(&[1, 5]).unwrap();
    assert_eq!(plan.len(), 2);
    assert_eq!(plan[1].relative_indices, vec![1]);
}

#[test]
fn plan_reads_only_chunks_with_rows() {
    let rows = [0u64, 10, 20, 30, 40];
    let bytes = [0u64, 5, 9, 14, 20];
    let plan = plan_take_rows(&rows, &bytes, &[3, 35]).unwrap();
    let chunks: Vec<(usize, usize)> = plan.iter().map(|r| (r.start_chunk, r.stop_chunk)).collect();
    assert_eq!(chunks, vec![(0, 1), (3, 4)]);
    assert!(matches!(
        plan_take_rows(&rows, &bytes, &[3, 41]),
        Err(VortexError::OutOfBounds(41, 40))
    ));
}

#[test]
fn chunked_array_values_are_its_chunks_in_order() {
    let c = ChunkedArray::try_new(vec![vec![7i32], vec![8, 9]]).unwrap();
    assert_eq!(c.flatten(), vec![7, 8, 9]);
    assert_eq!(c.take_rows(&[2]).unwrap().flatten(), vec![9]);
}
