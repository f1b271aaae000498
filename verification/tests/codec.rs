use kps9566_rs::{CodecError, Kps9566Codec, Kps9566Decoder, Kps9566Encoder};

/// A small table for these tests: the syllables that the texts below use,
/// under sample codes from the two-byte range.
fn sample_pairs() -> Vec<(u16, char)> {
    vec![
        (0x8141, '갂'),
        (0xB0A1, '안'),
        (0xB0A2, '녕'),
        (0xB0A3, '하'),
        (0xB0A4, '십'),
        (0xB0A5, '니'),
        (0xB0A6, '까'),
        (0xB0A7, '공'),
        (0xB0A8, '격'),
        (0xB0A9, '전'),
        (0xB0AA, '이'),
        (0xB0AB, '다'),
        (0xB1FD, '세'),
        (0xB1FE, '계'),
    ]
}

#[test]
fn test_ascii_decode() {
    let decoder = Kps9566Decoder::new(&sample_pairs()).unwrap();
    let ascii_bytes = b"Hello, World!";
    let result = decoder.decode(ascii_bytes).unwrap();
    assert_eq!(result, "Hello, World!");
}

#[test]
fn test_ascii_encode() {
    let encoder = Kps9566Encoder::new(&sample_pairs()).unwrap();
    let result = encoder.encode("Hello, World!");
    assert_eq!(result, b"Hello, World!");
}

#[test]
fn test_mixed_content() {
    let decoder = Kps9566Decoder::new(&sample_pairs()).unwrap();

    // ASCII followed by one two-byte unit
    let test_bytes = vec![0x48, 0x65, 0x6C, 0x6C, 0x6F, 0x81, 0x41]; // "Hello" + 0x8141
    let result = decoder.decode(&test_bytes).unwrap();

    // the first five characters are ASCII
    assert_eq!(&result[..5], "Hello");

    // the last character is the unit's
    if decoder.lookup(0x8141).is_some() {
        assert_eq!(result.chars().count(), 6);
    }
}

#[test]
fn test_codec_roundtrip() {
    let codec = Kps9566Codec::new(&sample_pairs()).unwrap();
    let original_text = "Hello, World!";

    // encode, then decode
    let encoded = codec.encode(original_text);
    let decoded = codec.decode(&encoded).unwrap();
    assert_eq!(original_text, decoded);
}

#[test]
fn test_codec_mixed_content() {
    let codec = Kps9566Codec::new(&sample_pairs()).unwrap();

    // ASCII followed by one two-byte unit
    let test_bytes = vec![0x48, 0x65, 0x6C, 0x6C, 0x6F, 0x81, 0x41]; // "Hello" + 0x8141
    let result = codec.decode(&test_bytes).unwrap();

    // the first five characters are ASCII
    assert_eq!(&result[..5], "Hello");
    assert_eq!(result.chars().count(), 6);
}

#[test]
fn test_korean_encoding() {
    let codec = Kps9566Codec::new(&sample_pairs()).unwrap();

    let korean_text = "안녕";
    println!("시험본문: {}", korean_text);

    let encoded = codec.encode(korean_text);
    println!("부호화성공: {:02X?}", encoded);

    let decoded = codec.decode(&encoded).unwrap();
    println!("복호화결과: {}", decoded);
    assert_eq!(korean_text, decoded);
}

#[test]
fn test_mixed_korean_ascii() {
    let codec = Kps9566Codec::new(&sample_pairs()).unwrap();

    // ASCII and two-byte units side by side
    let mixed_text = "Hello 세계";

    let encoded = codec.encode(mixed_text);
    let decoded = codec.decode(&encoded).unwrap();
    assert_eq!(mixed_text, decoded);
}

#[test]
fn test_long_korean_text() {
    let codec = Kps9566Codec::new(&sample_pairs()).unwrap();

    let long_text = "안녕하십니까? 공격전이다";
    println!("시험본문: {}", long_text);

    // say for each character whether the table has it
    for (i, ch) in long_text.chars().enumerate() {
        let code_point = ch as u32;
        if code_point <= 0x7F {
            println!("  [{}] '{}' - ASCII (0x{:02X})", i, ch, code_point);
        } else {
            let found = codec.encoder().lookup(ch).is_some();
            println!("  [{}] '{}' - 조선어 (U+{:04X}) - 존재: {}", i, ch, code_point, found);
        }
    }

    let encoded = codec.encode(long_text);
    println!("전체본문부호화성공!");
    println!("부호화된 바이트수: {}", encoded.len());

    let decoded = codec.decode(&encoded).unwrap();
    println!("복호화결과: {}", decoded);
    assert_eq!(long_text, decoded);
}

#[test]
fn test_unsupported_characters() {
    let codec = Kps9566Codec::new(&sample_pairs()).unwrap();

    // the star is in no table
    let text_with_unsupported = "Hello 🌟 World";

    let encoded = codec.encode(text_with_unsupported);
    let decoded = codec.decode(&encoded).unwrap();

    // the star has become a placeholder
    assert!(decoded.contains("Hello"));
    assert!(decoded.contains("World"));
    println!("원천본문: {}", text_with_unsupported);
    println!("복호화결과: {}", decoded);
}

#[test]
fn mixed_content_with_the_unit_in_the_table() {
    let codec = Kps9566Codec::new(&[(0x8141, '갂')]).unwrap();
    let text = codec.decode(&[0x48, 0x65, 0x6C, 0x6C, 0x6F, 0x81, 0x41]).unwrap();
    assert_eq!(text, "Hello갂");
    assert_eq!(text.chars().count(), 6);
}

#[test]
fn mixed_content_with_the_unit_not_in_the_table() {
    let codec = Kps9566Codec::new(&[(0x8142, '갂')]).unwrap();
    let text = codec.decode(&[0x48, 0x65, 0x6C, 0x6C, 0x6F, 0x81, 0x41]).unwrap();
    assert_eq!(text, "Hello\u{FFFD}");
    assert_eq!(text.chars().count(), 6);
}

#[test]
fn codec_is_built_from_an_empty_table() {
    let codec = Kps9566Codec::new(&[]).unwrap();
    assert_eq!(codec.decode(b"abc").unwrap(), "abc");
    assert_eq!(codec.encode("abc"), b"abc");
    assert_eq!(codec.decoder().lookup(0x8141), None);
    assert_eq!(codec.encoder().lookup('안'), None);
}

#[test]
fn codec_refuses_a_code_listed_twice() {
    let pairs = [(0xB0A1, '안'), (0xB0A2, '녕'), (0xB0A1, '하')];
    assert_eq!(Kps9566Codec::new(&pairs).err(), Some(CodecError::InitializationError));
    assert_eq!(Kps9566Decoder::new(&pairs).err(), Some(CodecError::InitializationError));
    assert_eq!(Kps9566Encoder::new(&pairs).err(), Some(CodecError::InitializationError));
}

#[test]
fn codec_refuses_the_same_pair_listed_twice() {
    let pairs = [(0xB0A1, '안'), (0xB0A1, '안')];
    assert_eq!(Kps9566Codec::new(&pairs).err(), Some(CodecError::InitializationError));
}

#[test]
fn codec_refuses_a_code_below_the_two_byte_range() {
    for code in [0x0000u16, 0x0041, 0x7F41, 0x7FFF] {
        let pairs = [(0xB0A1, '안'), (code, '녕')];
        assert_eq!(Kps9566Codec::new(&pairs).err(), Some(CodecError::InitializationError));
        assert_eq!(Kps9566Decoder::new(&pairs).err(), Some(CodecError::InitializationError));
        assert_eq!(Kps9566Encoder::new(&pairs).err(), Some(CodecError::InitializationError));
    }
}

#[test]
fn codec_takes_the_lowest_and_the_highest_two_byte_code() {
    let codec = Kps9566Codec::new(&[(0x8000, '안'), (0xFFFF, '녕')]).unwrap();
    assert_eq!(codec.encode("안녕"), [0x80, 0x00, 0xFF, 0xFF]);
    assert_eq!(codec.decode(&[0xFF, 0xFF, 0x80, 0x00]).unwrap(), "녕안");
}

#[test]
fn codec_halves_agree_with_the_codec() {
    let codec = Kps9566Codec::new(&sample_pairs()).unwrap();
    let text = "Hello 세계, 안녕! 🌟";
    assert_eq!(codec.encode(text), codec.encoder().encode(text));
    let bytes = codec.encode(text);
    assert_eq!(codec.decode(&bytes), codec.decoder().decode(&bytes));
}

#[test]
fn codec_round_trip_keeps_table_and_ascii_characters() {
    let codec = Kps9566Codec::new(&sample_pairs()).unwrap();
    let text = "안녕하십니까? Hello, 세계!\n\t\u{0}\u{7F}";
    assert_eq!(codec.decode(&codec.encode(text)).unwrap(), text);
}

#[test]
fn codec_round_trip_puts_one_placeholder_for_each_unsupported_character() {
    // no code for the replacement character: the placeholder is `?`
    let codec = Kps9566Codec::new(&sample_pairs()).unwrap();
    let bytes = codec.encode("Hello 🌟 World");
    assert_eq!(bytes, b"Hello ? World");
    assert_eq!(codec.decode(&bytes).unwrap(), "Hello ? World");

    // a code for the replacement character: the placeholder is that character
    let mut pairs = sample_pairs();
    pairs.push((0xA1A1, '\u{FFFD}'));
    let codec = Kps9566Codec::new(&pairs).unwrap();
    let bytes = codec.encode("Hello 🌟 World");
    assert_eq!(bytes, [0x48, 0x65, 0x6C, 0x6C, 0x6F, 0x20, 0xA1, 0xA1, 0x20, 0x57, 0x6F, 0x72, 0x6C, 0x64]);
    let back = codec.decode(&bytes).unwrap();
    assert_eq!(back, "Hello \u{FFFD} World");
    assert_eq!(back.chars().count(), "Hello 🌟 World".chars().count());
}

#[test]
fn codec_round_trip_a_second_time_changes_nothing() {
    let codec = Kps9566Codec::new(&sample_pairs()).unwrap();
    let once = codec.decode(&codec.encode("안녕 🌟 ü 세계")).unwrap();
    assert_eq!(once, "안녕 ? ? 세계");
    let twice = codec.decode(&codec.encode(&once)).unwrap();
    assert_eq!(twice, once);
}

#[test]
fn decoding_the_same_bytes_twice_gives_the_same_text() {
    let codec = Kps9566Codec::new(&sample_pairs()).unwrap();
    // a unit without a mapping, a listed unit, and a lone byte at the end
    let bytes = [0x41, 0x90, 0x90, 0xB0, 0xA1, 0xFF];
    let first = codec.decode(&bytes).unwrap();
    let second = codec.decode(&bytes).unwrap();
    assert_eq!(first, "A\u{FFFD}안\u{FFFD}");
    assert_eq!(first, second);
}
