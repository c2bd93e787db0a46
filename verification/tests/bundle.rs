use unshroud::buffer::{MetricPoint, RingBuffer};
use unshroud::bundle::{assemble_bundle, bundle_file_names, encode_payload, BundleBuilder, BundleError};

fn u32_at(b: &[u8], at: usize) -> u32 {
    u32::from_le_bytes([b[at], b[at + 1], b[at + 2], b[at + 3]])
}

#[test]
fn test_dump_creates_file() {
    let builder = BundleBuilder::new("/tmp/unshroud_test_bundle");
    assert_eq!(builder.output_dir, "/tmp/unshroud_test_bundle");
    let bundle = builder.prepare(&[], &[], 1_700_000_000).ok().unwrap();

    assert!(bundle.final_name.ends_with(".zst"));
    assert_eq!(bundle.final_name, "bundle.1700000000.zst");
    assert_eq!(bundle.temp_name, ".bundle.1700000000.tmp");
    let decoded = zstd::decode_all(bundle.compressed.as_slice()).unwrap();
    assert_eq!(decoded, vec![0u8; 8]);
}

#[test]
fn test_dump_integrity() {
    let mut rb = RingBuffer::new(16);
    rb.push(MetricPoint::new_float(0, 123, 42.5f64.to_bits()));
    let metrics = rb.drain();
    let events = vec!["log1", "log2"];

    let builder = BundleBuilder::new("/tmp");
    let bundle = builder.prepare(&metrics, &events, 7).ok().unwrap();
    let decoded = zstd::decode_all(bundle.compressed.as_slice()).unwrap();

    let m_count = u32_at(&decoded, 0) as usize;
    assert_eq!(m_count, 1);

    let pt = &decoded[4..28];
    assert_eq!(u32_at(pt, 4), 123);
    assert_eq!(pt[8], 0);
    let value = f64::from_bits(u64::from_le_bytes(pt[12..20].try_into().unwrap()));
    assert_eq!(value, 42.5);

    let e_count = u32_at(&decoded, 28) as usize;
    assert_eq!(e_count, 2);

    let mut at = 32;
    for expected in &events {
        let len = u32_at(&decoded, at) as usize;
        at += 4;
        let text = String::from_utf8(decoded[at..at + len].to_vec()).unwrap();
        assert_eq!(text, *expected);
        at += len;
    }
    assert_eq!(at, decoded.len());
}

#[test]
fn test_zstd_compression_ratio() {
    let mut metrics = Vec::with_capacity(1000);
    for i in 0..1000 {
        metrics.push(MetricPoint::new_float(i as u32, 100, 0.5f64.to_bits()));
    }
    let events = vec!["event_repeated_pattern"; 1000];

    let metric_data_size = metrics.len() * std::mem::size_of::<MetricPoint>();
    let event_data_size = events.iter().map(|e| 4 + e.len()).sum::<usize>();
    let raw_payload_size = 4 + metric_data_size + 4 + event_data_size;

    let builder = BundleBuilder::new("/tmp");
    let bundle = builder.prepare(&metrics, &events, 1).ok().unwrap();
    let compressed_size = bundle.compressed.len();

    assert!(compressed_size < raw_payload_size);
    assert!(compressed_size < raw_payload_size / 2);

    let decoded = zstd::decode_all(bundle.compressed.as_slice()).unwrap();
    assert_eq!(decoded.len(), raw_payload_size);
    assert_eq!(decoded, encode_payload(&metrics, &events));
}

#[test]
fn payload_layout_of_a_point() {
    let p = MetricPoint::new_int(0x01020304, 0x0a0b0c0d, 0x1122334455667788);
    let raw = encode_payload(&[p], &["é"]);
    assert_eq!(
        raw,
        vec![
            1, 0, 0, 0, // one point
            4, 3, 2, 1, 0x0d, 0x0c, 0x0b, 0x0a, 1, 0, 0, 0, // timestamp, id, kind, padding
            0x88, 0x77, 0x66, 0x55, 0x44, 0x33, 0x22, 0x11, 0, 0, 0, 0, // value, padding
            1, 0, 0, 0, // one event
            2, 0, 0, 0, 0xc3, 0xa9, // its UTF-8 length and bytes
        ]
    );
}

#[test]
fn bundle_names_carry_the_timestamp() {
    assert_eq!(bundle_file_names(0), (".bundle.0.tmp".to_string(), "bundle.0.zst".to_string()));
    assert_eq!(
        bundle_file_names(u64::MAX),
        (".bundle.18446744073709551615.tmp".to_string(), "bundle.18446744073709551615.zst".to_string())
    );
}

#[test]
fn compressed_content_differs_from_the_payload() {
    let events = vec!["aaaaaaaaaaaaaaaaaaaaaaaaaaaaaaaa"; 10];
    let payload = encode_payload(&[], &events);
    let bundle = BundleBuilder::new("/").prepare(&[], &events, 3).ok().unwrap();
    assert_ne!(bundle.compressed, payload);
    assert_eq!(zstd::decode_all(bundle.compressed.as_slice()).unwrap(), payload);
}

#[test]
fn assembled_bundle_keeps_the_compressor_result() {
    let b = assemble_bundle(12, Ok(vec![1, 2, 3])).ok().unwrap();
    assert_eq!(b.final_name, "bundle.12.zst");
    assert_eq!(b.temp_name, ".bundle.12.tmp");
    assert_eq!(b.compressed, vec![1, 2, 3]);
    let err = std::io::Error::new(std::io::ErrorKind::OutOfMemory, "no memory");
    match assemble_bundle(12, Err(err)) {
        Err(BundleError::Compress(e)) => assert_eq!(e.kind(), std::io::ErrorKind::OutOfMemory),
        Ok(_) => panic!("a failed compression gives no bundle"),
    }
}
