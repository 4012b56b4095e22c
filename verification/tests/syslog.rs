use tremor_runtime::preprocessor::syslog::{FrameError, SyslogTLS};

#[test]
fn handle_empty_data() {
    let mut ingest_ns = 0;
    let mut preprocessor = SyslogTLS::new();
    let data: Vec<u8> = vec![];
    let res = preprocessor.process(&mut ingest_ns, data.as_slice());
    assert_eq!(Ok(vec![]), res);
}

#[test]
fn error_on_garbage_length() {
    let mut ingest_ns = 0;
    let mut preprocessor = SyslogTLS::new();
    let data: Vec<u8> = vec![b'a', b'b', b'c', b' '];
    let res = preprocessor.process(&mut ingest_ns, data.as_slice());
    assert!(res.is_err());
}

#[test]
fn garbage_length_names_the_byte() {
    let mut ingest_ns = 7;
    let mut preprocessor = SyslogTLS::new();
    let res = preprocessor.process(&mut ingest_ns, b"abc ");
    assert_eq!(res, Err(FrameError::InvalidFrameSize(b'a')));
    assert_eq!(ingest_ns, 7);
}

#[test]
fn one_whole_frame() {
    let mut ingest_ns = 0;
    let mut preprocessor = SyslogTLS::new();
    let res = preprocessor.process(&mut ingest_ns, b"5 hello");
    assert_eq!(res, Ok(vec![b"hello".to_vec()]));
}

#[test]
fn two_frames_in_one_chunk() {
    let mut ingest_ns = 0;
    let mut preprocessor = SyslogTLS::new();
    let res = preprocessor.process(&mut ingest_ns, b"3 abc2 de");
    assert_eq!(res, Ok(vec![b"abc".to_vec(), b"de".to_vec()]));
}

#[test]
fn frame_cut_inside_the_body() {
    let mut ingest_ns = 0;
    let mut preprocessor = SyslogTLS::new();
    assert_eq!(preprocessor.process(&mut ingest_ns, b"11 hello"), Ok(vec![]));
    assert_eq!(
        preprocessor.process(&mut ingest_ns, b" world3 abc"),
        Ok(vec![b"hello world".to_vec(), b"abc".to_vec()])
    );
}

#[test]
fn frame_cut_inside_the_length() {
    let mut ingest_ns = 0;
    let mut preprocessor = SyslogTLS::new();
    assert_eq!(preprocessor.process(&mut ingest_ns, b"1"), Ok(vec![]));
    assert_eq!(preprocessor.process(&mut ingest_ns, b"0 0123"), Ok(vec![]));
    assert_eq!(
        preprocessor.process(&mut ingest_ns, b"456789"),
        Ok(vec![b"0123456789".to_vec()])
    );
}

#[test]
fn body_may_hold_spaces_and_digits() {
    let mut ingest_ns = 0;
    let mut preprocessor = SyslogTLS::new();
    let res = preprocessor.process(&mut ingest_ns, b"7 1 2 3 41 x");
    assert_eq!(res, Ok(vec![b"1 2 3 4".to_vec(), b"x".to_vec()]));
}

#[test]
fn zero_length_frame() {
    let mut ingest_ns = 0;
    let mut preprocessor = SyslogTLS::new();
    let res = preprocessor.process(&mut ingest_ns, b"0 1 a");
    assert_eq!(res, Ok(vec![vec![], b"a".to_vec()]));
}

#[test]
fn space_without_length_is_an_error() {
    let mut ingest_ns = 0;
    let mut preprocessor = SyslogTLS::new();
    let res = preprocessor.process(&mut ingest_ns, b" abc");
    assert_eq!(res, Err(FrameError::EmptyFrameSize));
}

#[test]
fn oversized_length_is_an_error() {
    let mut ingest_ns = 0;
    let mut preprocessor = SyslogTLS::new();
    let res = preprocessor.process(&mut ingest_ns, b"99999999999999999999999999 x");
    assert_eq!(res, Err(FrameError::FrameSizeOverflow));
}

#[test]
fn parse_keeps_frames_completed_before_an_error() {
    let mut preprocessor = SyslogTLS::new();
    let mut acc: Vec<Vec<u8>> = vec![b"old".to_vec()];
    let res = preprocessor.parse(b"2 okx", &mut acc);
    assert_eq!(res, Err(FrameError::InvalidFrameSize(b'x')));
    assert_eq!(acc, vec![b"old".to_vec(), b"ok".to_vec()]);
}

#[test]
fn decoder_starts_over_after_an_error() {
    let mut ingest_ns = 0;
    let mut preprocessor = SyslogTLS::new();
    assert!(preprocessor.process(&mut ingest_ns, b"12x").is_err());
    assert_eq!(
        preprocessor.process(&mut ingest_ns, b"2 hi"),
        Ok(vec![b"hi".to_vec()])
    );
}

#[test]
fn any_cut_of_a_stream_gives_the_same_frames() {
    let stream = b"5 hello3 abc0 2 hi12 hello world!";
    let want: Vec<Vec<u8>> = vec![
        b"hello".to_vec(),
        b"abc".to_vec(),
        vec![],
        b"hi".to_vec(),
        b"hello world!".to_vec(),
    ];
    for cut in 0..=stream.len() {
        for second in cut..=stream.len() {
            let mut ingest_ns = 0;
            let mut preprocessor = SyslogTLS::new();
            let mut got = preprocessor.process(&mut ingest_ns, &stream[..cut]).unwrap();
            got.extend(preprocessor.process(&mut ingest_ns, &stream[cut..second]).unwrap());
            got.extend(preprocessor.process(&mut ingest_ns, &stream[second..]).unwrap());
            assert_eq!(got, want, "cut at {} and {}", cut, second);
        }
    }
}

#[test]
fn leading_zeros_count_as_digits() {
    let mut ingest_ns = 0;
    let mut preprocessor = SyslogTLS::new();
    assert_eq!(preprocessor.process(&mut ingest_ns, b"003 abc"), Ok(vec![b"abc".to_vec()]));
}
