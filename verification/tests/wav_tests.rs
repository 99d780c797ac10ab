use autotype::wav::recording_wav;

#[test]
fn empty_recording_is_refused() {
    assert_eq!(recording_wav(&[]), Err("没有音频数据".to_string()));
}

#[test]
fn two_samples_make_a_48_byte_file() {
    let bytes = recording_wav(&[1, -2]).unwrap();
    let mut expected: Vec<u8> = Vec::new();
    expected.extend_from_slice(b"RIFF");
    expected.extend_from_slice(&40u32.to_le_bytes());
    expected.extend_from_slice(b"WAVE");
    expected.extend_from_slice(b"fmt ");
    expected.extend_from_slice(&16u32.to_le_bytes());
    expected.extend_from_slice(&1u16.to_le_bytes());
    expected.extend_from_slice(&1u16.to_le_bytes());
    expected.extend_from_slice(&16000u32.to_le_bytes());
    expected.extend_from_slice(&32000u32.to_le_bytes());
    expected.extend_from_slice(&2u16.to_le_bytes());
    expected.extend_from_slice(&16u16.to_le_bytes());
    expected.extend_from_slice(b"data");
    expected.extend_from_slice(&4u32.to_le_bytes());
    expected.extend_from_slice(&[0x01, 0x00, 0xfe, 0xff]);
    assert_eq!(bytes, expected);
}

#[test]
fn file_length_is_header_plus_two_bytes_per_sample() {
    let data: Vec<i16> = (0..1000).map(|i| (i * 37 - 18000) as i16).collect();
    let bytes = recording_wav(&data).unwrap();
    assert_eq!(bytes.len(), 44 + 2 * data.len());
    for (i, s) in data.iter().enumerate() {
        let word = i16::from_le_bytes([bytes[44 + 2 * i], bytes[45 + 2 * i]]);
        assert_eq!(word, *s);
    }
}

#[test]
fn file_reads_back_with_hound() {
    let data: Vec<i16> = vec![0, 1, -1, i16::MAX, i16::MIN, 1234];
    let bytes = recording_wav(&data).unwrap();
    let reader = hound::WavReader::new(std::io::Cursor::new(bytes)).unwrap();
    let spec = reader.spec();
    assert_eq!(spec.channels, 1);
    assert_eq!(spec.sample_rate, 16000);
    assert_eq!(spec.bits_per_sample, 16);
    assert_eq!(spec.sample_format, hound::SampleFormat::Int);
    let back: Vec<i16> = reader.into_samples::<i16>().map(|s| s.unwrap()).collect();
    assert_eq!(back, data);
}
