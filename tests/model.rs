use utouch::model::BuildReader;
use utouch::model::BuildReaderRes;
use utouch::model::Reader;

const FLOOD: u8 = 0x5A;

/// Feeds `bytes` as a capture loop does; returns each completed line.
fn lines_of(bytes: &[u8]) -> (Vec<BuildReaderRes>, Vec<(u16, Vec<u8>, u8)>) {
    let mut builder = BuildReader::empty();
    let mut results = Vec::new();
    let mut lines = Vec::new();
    for a in bytes.iter() {
        let result = builder.write(*a);
        results.push(result);
        if result.is_end_line() {
            let (address, line, endb) = builder.get_line();
            lines.push((address, line.to_vec(), endb));
            builder.clear();
        }
    }
    (results, lines)
}

#[test]
fn check_model1() {
    let inarray = [
        // EMPTY STR
        0xA5, 0x11, 0x0, 0x0, // 0
        0xA5, 0x11, 8, 0x0, 0x0, 16, 0x4, 0x31, 0x4, 0xC, 0x40, 0x0, 0x5A, 0x5A, 0x5A, 0x5A, 0x5A,
        0x5A, 0x5A, 0x5A, 0x5A, 0x5A, 0x5A, 0x5A, 0x5A, 0x5A, 0x5A, 0x5A, 0x5A, 0x5A, 0x5A, 0x5A,
        0x5A, 0x5A, 0x5A, 0x5A, 0x5A, 0x5A, 0x5A, 0x5A, 0x5A, 0x5A, // 1
        0xA5, 0x11, 15, 0x0, 0x0, 16, 0x4, 0x31, 0x4, 0x10, 0x50, 0x0, 0x11, 0x51, 0xF2, 0x1C, 0x8,
        0x80, 0x0, 0x5A, 0x5A, 0x5A, 0x5A, 0x5A, 0x5A, 0x5A, 0x5A, 0x5A, 0x5A, 0x5A, 0x5A, 0x5A,
        0x5A, 0x5A, 0x5A, 0x5A, 0x5A, 0x5A, 0x5A, 0x5A, 0x5A, 0x5A, // 2
        0xA5, 0x11, 15, 0x0, 0x0, 16, 0xFF, 0x30, 0x4, 0x10, 0x50, 0x0, 0x11, 0x51, 0xF2, 0x1C,
        0x8, 0x90, 0x0, 0x5A, 0x5A, 0x5A, 0x5A, 0x5A, 0x5A, 0x5A, 0x5A, 0x5A, 0x5A, 0x5A, 0x5A,
        0x5A, 0x5A, 0x5A, 0x5A, 0x5A, 0x5A, 0x5A, 0x5A, 0x5A, 0x5A, 0x5A, // 3
        0xA5, 0x11, 22, 0x0, 0x0, 16, 0xF9, 0x30, 0x4, 0x10, 0x50, 0x0, 0x11, 0x51, 0xF2, 0x1C,
        0x8, 0x90, 0x0, 0x12, 0x50, 0xF2, 0x33, 0x8, 0x80, 0x0, 0x5A, 0x5A, 0x5A, 0x5A, 0x5A, 0x5A,
        0x5A, 0x5A, 0x5A, 0x5A, 0x5A, 0x5A, 0x5A, 0x5A, 0x5A, 0x5A, // EMPTY STR
        0xA5, 0x11, 0x0, 0x0, // 4
        0xA5, 0x11, 29, 0x0, 0x0, 16, 0xF6, 0x30, 0x4, 0x10, 0x50, 0x0, 0x11, 0x51, 0xF2, 0x1C,
        0x9, 0x90, 0x0, 0x12, 0x50, 0xF2, 0x33, 0x9, 0x90, 0x0, 0x13, 0x97, 0xF1, 0x3E, 0x8, 0x90,
        0x0, 0x5A, 0x5A, 0x5A, 0x5A, 0x5A, 0x5A, 0x5A, 0x5A, 0x5A, // 5
        0xA5, 0x11, 36, 0x0, 0x0, 16, 0xF7, 0x30, 0x4, 0x10, 0x50, 0x0, 0x11, 0x51, 0xF2, 0x1C,
        0x9, 0x90, 0x0, 0x12, 0x50, 0xF2, 0x33, 0x9, 0x90, 0x0, 0x13, 0x97, 0xF1, 0x3E, 0x8, 0x90,
        0x0, 0x14, 0x40, 0x72, 0x3F, 0x3, 0x80, 0x0, 0x5A, 0x5A,
    ];

    let mut builder = BuildReader::empty();
    for a in inarray.into_iter() {
        let result = builder.write(a);
        if result.is_end_line() {
            let (address, line, endb) = builder.get_line();

            println!("#line {:?}", line);
            println!("#endbyte {:?}", endb);
            for data in Reader::search(line).iter() {
                println!("{:#01x}: {:?}", address, data);
            }

            builder.clear();
            continue;
        }
        if result.is_ignore() {
            continue;
        }
        if result.is_ignore_and_skipdata() {
            break;
        }
    }
}

#[test]
fn check_model2() {
    let inarray = [
        0xA5, 16, 24, 0x0, 0x1, 0b1, 0x73, 0x33, 0x39, 0x30, 0x38, 45, 0x31, 0x35, 0x2E, 0x30,
        0x2E, 48, 0, 0, 0, 0, 0xB2, 69, 52, 0, 0, 4, 90, 90, 90, 90, 90, 90,
    ];

    let mut builder = BuildReader::empty();
    for a in inarray.into_iter() {
        let result = builder.write(a);
        if result.is_end_line() {
            let (address, line, endb) = builder.get_line();

            println!("#line {:?}", line);
            println!("#endbyte {:?}", endb);
            for data in Reader::search(line).iter() {
                println!("{:#01x}: {:?}", address, data);
            }

            builder.clear();
            continue;
        }
        if result.is_ignore() {
            continue;
        }
        if result.is_ignore_and_skipdata() {
            break;
        }
    }
}

#[test]
fn frame_with_payload_is_reported() {
    let (results, lines) = lines_of(&[0xA5, 0x11, 3, 7, 8, 9, 0x42]);
    assert_eq!(
        results,
        vec![
            BuildReaderRes::Continue,
            BuildReaderRes::Continue,
            BuildReaderRes::Continue,
            BuildReaderRes::Continue,
            BuildReaderRes::Continue,
            BuildReaderRes::Continue,
            BuildReaderRes::EndLine,
        ]
    );
    assert_eq!(lines, vec![(0x11A5, vec![7, 8, 9], 0x42)]);
}

#[test]
fn empty_frame_goes_straight_to_end_marker() {
    let (results, lines) = lines_of(&[0xA5, 0x11, 0, 1]);
    assert_eq!(results[3], BuildReaderRes::EndLine);
    assert_eq!(lines, vec![(0x11A5, vec![], 1)]);
}

#[test]
fn end_line_count_matches_frames_in_model_stream() {
    let stream = [
        0x5A, 0x5A, 0xA5, 0x5A, 0x11, 0, 0, // empty frame, padded
        0xA5, 0x11, 8, 0x0, 0x0, 16, 0x4, 0x31, 0x4, 0xC, 0x40, 0x0, // one record
        0x5A, 0x5A, 0x01, 0x02, 2, 0x5A, 0x5A, 9, // padding inside the payload is data
        0xA5, 0x11, 5, 1, 2, // unfinished
    ];
    let (results, lines) = lines_of(&stream);
    let ends = results.iter().filter(|r| r.is_end_line()).count();
    assert_eq!(ends, 3);
    assert_eq!(lines.len(), 3);
    assert_eq!(lines[0], (0x11A5, vec![], 0));
    assert_eq!(lines[1], (0x11A5, vec![0, 0, 16, 0x4, 0x31, 0x4, 0xC, 0x40], 0));
    assert_eq!(lines[2], (0x0201, vec![0x5A, 0x5A], 9));
}

#[test]
fn second_end_marker_is_ignored_until_clear() {
    let mut builder = BuildReader::empty();
    for a in [0xA5u8, 0x11, 0] {
        assert!(builder.write(a).is_continue());
    }
    assert!(builder.is_maybe_write());
    assert!(builder.write(0).is_end_line());
    assert!(!builder.is_maybe_write());
    assert!(builder.write(0x33).is_ignore());
    assert_eq!(builder.get_line(), (0x11A5, &[][..], 0));
    builder.clear();
    assert!(builder.is_maybe_write());
    assert!(builder.write(0x33).is_continue());
}

#[test]
fn padding_flood_skips_once_per_two_hundred() {
    let mut builder = BuildReader::with_capacity(16);
    let mut skips = 0;
    for i in 0..200 {
        let r = builder.write(FLOOD);
        if i < 199 {
            assert_eq!(r, BuildReaderRes::Ignore);
        }
        if r.is_ignore_and_skipdata() {
            skips += 1;
        }
    }
    assert_eq!(skips, 1);
    let mut more = 0;
    for _ in 0..200 {
        if builder.write(FLOOD).is_ignore_and_skipdata() {
            more += 1;
        }
    }
    assert_eq!(more, 1);
}

#[test]
fn address_byte_resets_padding_run() {
    let mut builder = BuildReader::empty();
    for _ in 0..150 {
        assert!(builder.write(FLOOD).is_ignore());
    }
    assert!(builder.write(0xA5).is_continue());
    for _ in 0..150 {
        assert!(builder.write(FLOOD).is_ignore());
    }
    assert!(builder.write(0x11).is_continue());
    assert!(builder.write(FLOOD).is_continue());
}

#[test]
fn clear_and_replay_gives_same_results() {
    let stream = [0x5A, 0xA5, 0x11, 2, 0x5A, 3, 4, 0xA5, 0x11, 0, 0];
    let mut builder = BuildReader::empty();
    for a in [0xA5u8, 0x11, 9, 1] {
        builder.write(a);
    }
    builder.clear();
    let first: Vec<BuildReaderRes> = stream.iter().map(|a| builder.write(*a)).collect();
    let first_line = builder.get_line().1.to_vec();
    builder.clear();
    let second: Vec<BuildReaderRes> = stream.iter().map(|a| builder.write(*a)).collect();
    assert_eq!(first, second);
    assert_eq!(first_line, builder.get_line().1.to_vec());
    assert_eq!(first_line, vec![0x5A, 3]);
}

#[test]
fn payload_without_sentinel_has_no_records() {
    assert!(Reader::search(&[1, 2, 3, 4, 5, 6, 7, 8]).is_empty());
    assert!(Reader::search(&[]).is_empty());
    assert!(Reader::search(&[0]).is_empty());
}

#[test]
fn payload_is_cut_into_seven_byte_windows() {
    let mut payload = vec![0u8];
    payload.extend(1..=14u8);
    let records = Reader::search(&payload);
    assert_eq!(records, vec![[1, 2, 3, 4, 5, 6, 7], [8, 9, 10, 11, 12, 13, 14]]);
    payload.extend([15u8, 16, 17]);
    let records = Reader::search(&payload);
    assert_eq!(records, vec![[1, 2, 3, 4, 5, 6, 7], [8, 9, 10, 11, 12, 13, 14]]);
    assert!(Reader::search(&[0, 1, 2, 3, 4, 5, 6]).is_empty());
}
