use flate2::write::ZlibEncoder;
use flate2::Compression;
use lethe::sanitization::Stage;
use std::io::Write;

const TEST_SIZE: u64 = 10245;
const TEST_BLOCK: usize = 256;

#[test]
fn test_stage_fill_behaves() {
    let mut data1 = create_test_vec();
    let mut stage = Stage::Fill { value: 0x33 };

    fill(&mut data1, &mut stage);
    assert!(data1.iter().find(|x| **x != 0x33).is_none());

    let mut data2 = create_test_vec();
    fill(&mut data2, &mut stage);

    assert_eq!(data1, data2);
}

#[test]
fn test_stage_random_behaves() {
    let mut data1 = create_test_vec();
    let mut stage = Stage::random_with_seed(666);

    fill(&mut data1, &mut stage);

    assert_ne!(data1, create_test_vec());

    let unchanged = data1
        .iter()
        .zip(create_test_vec().iter())
        .filter(|t| t.0 == t.1)
        .count() as u64;

    assert!(unchanged < TEST_SIZE / 100); // allows for some edge cases

    let mut data2 = create_test_vec();
    fill(&mut data2, &mut stage);

    assert_eq!(data1, data2);

    let mut stage3 = Stage::random_with_seed(333);
    let mut data3 = create_test_vec();
    fill(&mut data3, &mut stage3);

    assert_ne!(data3, data2);
}

#[test]
fn test_stage_random_entropy() {
    let mut data = create_test_vec();
    let mut stage = Stage::random_with_seed(666);
    fill(&mut data, &mut stage);

    let source_entropy = calculate_entropy(create_test_vec().as_ref());
    let stage_entropy = calculate_entropy(data.as_ref());

    assert!(stage_entropy > source_entropy);
    assert!(stage_entropy > 0.9);
}

fn create_test_vec() -> Vec<u8> {
    (0..TEST_SIZE).map(|x| (x % 256) as u8).collect()
}

fn fill(v: &mut Vec<u8>, stage: &mut Stage) -> () {
    let mut stream = stage.stream(TEST_SIZE, TEST_BLOCK);

    let mut position: usize = 0;
    while let Some(chunk) = stream.next() {
        let chunk_size = chunk.len();
        v[position..position + chunk_size].clone_from_slice(chunk);
        position += chunk_size;
    }
}

fn calculate_entropy(v: &[u8]) -> f64 {
    let mut e = ZlibEncoder::new(Vec::new(), Compression::best());
    e.write_all(v).unwrap();
    let compressed_bytes = e.finish();
    compressed_bytes.unwrap().len() as f64 / v.len() as f64
}
