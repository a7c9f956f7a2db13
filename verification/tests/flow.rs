use sf::args::{parse, Mode, ParseOutcome, PathPrefix, ServerAddress};
use sf::manifest::{decode_manifest, encode_manifest, FileEntry};
use sf::prefix::common_prefix_len;
use sf::session::{apply_read, next_chunk_len, receiver_plan, survey_step, SurveyAction, SurveyEvent};
use sf::TransferError;

fn entry(path: &str, size: u64) -> FileEntry {
    FileEntry { size, path: path.as_bytes().to_vec() }
}

fn strings(args: &[&str]) -> Vec<String> {
    args.iter().map(|s| s.to_string()).collect()
}

#[test]
fn no_shared_prefix() {
    let files = vec![entry("a/x", 1), entry("b/y", 2)];
    assert_eq!(common_prefix_len(&files, true), 0);
}

#[test]
fn single_file_prefix() {
    let files = vec![entry("dir/file.txt", 1)];
    assert_eq!(common_prefix_len(&files, true), 4);
}

#[test]
fn prefix_never_splits_a_component() {
    let files = vec![entry("abc/x", 1), entry("abd/y", 2)];
    assert_eq!(common_prefix_len(&files, true), 0);
}

#[test]
fn shared_directory_prefix() {
    let files = vec![entry("docs/readme.txt", 1), entry("docs/sub/a.bin", 2)];
    assert_eq!(common_prefix_len(&files, true), 5);
}

#[test]
fn keep_mode_strips_nothing() {
    let files = vec![entry("docs/readme.txt", 1), entry("docs/sub/a.bin", 2)];
    assert_eq!(common_prefix_len(&files, false), 0);
}

#[test]
fn backslash_counts_as_separator() {
    let files = vec![entry("dir\\a", 1), entry("dir\\b", 2)];
    assert_eq!(common_prefix_len(&files, true), 4);
}

#[test]
fn stripping_and_rejoining_reconstructs() {
    let files = vec![entry("top/mid/a.txt", 1), entry("top/mid/deep/b.txt", 2)];
    let n = common_prefix_len(&files, true);
    assert_eq!(n, 8);
    for f in &files {
        let mut rejoined = files[0].path[..n].to_vec();
        rejoined.extend_from_slice(&f.path[n..]);
        assert_eq!(rejoined, f.path);
    }
}

#[test]
fn plan_strips_and_creates_each_directory_once() {
    let files = vec![
        entry("docs/readme.txt", 11),
        entry("docs/sub/a.bin", 0),
        entry("docs/sub/b.bin", 4),
    ];
    let steps = receiver_plan(&files, true);
    assert_eq!(steps.len(), 3);
    assert_eq!(steps[0].dest, b"readme.txt".to_vec());
    assert_eq!(steps[0].size, 11);
    assert!(steps[0].create_dir.is_none());
    assert_eq!(steps[1].dest, b"sub/a.bin".to_vec());
    assert_eq!(steps[1].create_dir, Some(b"sub".to_vec()));
    assert_eq!(steps[2].dest, b"sub/b.bin".to_vec());
    assert!(steps[2].create_dir.is_none());
}

#[test]
fn plan_without_stripping_keeps_paths() {
    let files = vec![entry("docs/readme.txt", 11)];
    let steps = receiver_plan(&files, false);
    assert_eq!(steps[0].dest, b"docs/readme.txt".to_vec());
    assert_eq!(steps[0].create_dir, Some(b"docs".to_vec()));
}

#[test]
fn truncation_is_detected() {
    assert_eq!(apply_read(5, 0), Err(TransferError::TruncatedTransfer));
}

#[test]
fn reads_are_accounted() {
    assert_eq!(apply_read(10, 4), Ok(6));
    assert_eq!(apply_read(4, 4), Ok(0));
}

#[test]
fn chunks_are_bounded() {
    assert_eq!(next_chunk_len(10, 4), 4);
    assert_eq!(next_chunk_len(3, 4), 3);
    assert_eq!(next_chunk_len(0, 4), 0);
}

#[test]
fn survey_decisions() {
    assert_eq!(survey_step(&SurveyEvent::Accepted), SurveyAction::UseConnection);
    assert_eq!(survey_step(&SurveyEvent::AcceptWouldBlock), SurveyAction::Broadcast);
    assert_eq!(
        survey_step(&SurveyEvent::AcceptFailed),
        SurveyAction::FallBackToBlockingAccept
    );
}

#[test]
fn broadcast_failure_falls_back_to_blocking_accept() {
    assert_eq!(
        survey_step(&SurveyEvent::BroadcastFailed),
        SurveyAction::FallBackToBlockingAccept
    );
}

#[test]
fn end_to_end_transfer_over_bytes() {
    // sender side: two files, their manifest, then their bodies back to back
    let bodies: Vec<&[u8]> = vec![b"hello world", b""];
    let files = vec![entry("docs/readme.txt", 11), entry("docs/sub/a.bin", 0)];
    let manifest = encode_manifest(&files).unwrap();
    let mut stream = manifest.clone();
    for b in &bodies {
        stream.extend_from_slice(b);
    }

    // receiver side: decode, plan with stripping, then consume the stream
    let entries = decode_manifest(&stream[..manifest.len()]).unwrap();
    let steps = receiver_plan(&entries, true);
    let mut received: Vec<(Vec<u8>, Vec<u8>)> = Vec::new();
    let mut pos = manifest.len();
    let chunk_capacity = 4;
    for step in &steps {
        let mut contents = Vec::new();
        let mut remaining = step.size;
        while remaining != 0 {
            let want = next_chunk_len(remaining, chunk_capacity);
            let got = (stream.len() - pos).min(want);
            contents.extend_from_slice(&stream[pos..pos + got]);
            pos += got;
            remaining = apply_read(remaining, got).unwrap();
        }
        received.push((step.dest.clone(), contents));
    }
    assert_eq!(
        received,
        vec![
            (b"readme.txt".to_vec(), b"hello world".to_vec()),
            (b"sub/a.bin".to_vec(), Vec::new()),
        ]
    );
}

#[test]
fn truncated_stream_fails_the_session() {
    // the sender closes after 5 of 11 declared bytes
    let files = vec![entry("f.txt", 11)];
    let manifest = encode_manifest(&files).unwrap();
    let mut stream = manifest.clone();
    stream.extend_from_slice(b"hello");

    let entries = decode_manifest(&stream[..manifest.len()]).unwrap();
    let steps = receiver_plan(&entries, true);
    let mut pos = manifest.len();
    let mut remaining = steps[0].size;
    let mut outcome = Ok(());
    while remaining != 0 {
        let want = next_chunk_len(remaining, 4);
        let got = (stream.len() - pos).min(want);
        pos += got;
        match apply_read(remaining, got) {
            Ok(r) => remaining = r,
            Err(e) => {
                outcome = Err(e);
                break;
            },
        }
    }
    assert_eq!(outcome, Err(TransferError::TruncatedTransfer));
}

#[test]
fn parse_no_args_receives_keeping_prefix() {
    match parse(&Vec::new()) {
        ParseOutcome::Run(s) => match s.mode {
            Mode::Receiver { prefix } => assert_eq!(prefix, PathPrefix::Keep),
            Mode::Sender { .. } => panic!("expected receiver"),
        },
        ParseOutcome::Help => panic!("expected run"),
    }
}

#[test]
fn parse_strip_flag() {
    for flag in ["-s", "--strip-prefix"] {
        match parse(&strings(&[flag])) {
            ParseOutcome::Run(s) => match s.mode {
                Mode::Receiver { prefix } => assert_eq!(prefix, PathPrefix::Strip),
                Mode::Sender { .. } => panic!("expected receiver"),
            },
            ParseOutcome::Help => panic!("expected run"),
        }
    }
}

#[test]
fn parse_help_flag() {
    assert!(matches!(parse(&strings(&["-h"])), ParseOutcome::Help));
    assert!(matches!(parse(&strings(&["-s", "--help"])), ParseOutcome::Help));
}

#[test]
fn parse_auto_sender() {
    match parse(&strings(&["auto", "f1", "f2"])) {
        ParseOutcome::Run(s) => match s.mode {
            Mode::Sender { ip, files } => {
                assert!(matches!(ip, ServerAddress::Auto));
                assert_eq!(files, strings(&["f1", "f2"]));
            },
            Mode::Receiver { .. } => panic!("expected sender"),
        },
        ParseOutcome::Help => panic!("expected run"),
    }
}

#[test]
fn parse_direct_sender() {
    match parse(&strings(&["10.0.0.1", "x"])) {
        ParseOutcome::Run(s) => match s.mode {
            Mode::Sender { ip, files } => {
                match ip {
                    ServerAddress::Direct(d) => assert_eq!(d, "10.0.0.1"),
                    ServerAddress::Auto => panic!("expected direct"),
                }
                assert_eq!(files, strings(&["x"]));
            },
            Mode::Receiver { .. } => panic!("expected sender"),
        },
        ParseOutcome::Help => panic!("expected run"),
    }
}

#[test]
fn parse_flags_after_address_are_files() {
    match parse(&strings(&["10.0.0.1", "-s", "-h"])) {
        ParseOutcome::Run(s) => match s.mode {
            Mode::Sender { ip: _, files } => assert_eq!(files, strings(&["-s", "-h"])),
            Mode::Receiver { .. } => panic!("expected sender"),
        },
        ParseOutcome::Help => panic!("expected run"),
    }
}
