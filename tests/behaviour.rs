use clamav_client::protocol::{
    chunk_frame, command_text, end_of_stream, instream_request, is_pong, scan_command,
    single_verdict, stream_step, Command, STREAM_WINDOW,
};
use clamav_client::{ClamError, ScanResult, Signature, Stats, Version};

fn sig(
    platform: Option<&str>,
    category: Option<&str>,
    virus: Option<&str>,
    signum: Option<&str>,
    sigversion: Option<&str>,
    raw: &str,
) -> Signature {
    Signature {
        platform: platform.map(|s| s.to_string()),
        category: category.map(|s| s.to_string()),
        virus: virus.map(|s| s.to_string()),
        signum: signum.map(|s| s.to_string()),
        sigversion: sigversion.map(|s| s.to_string()),
        raw: raw.to_string(),
    }
}

#[test]
fn clean_record() {
    assert_eq!(ScanResult::parse("/tmp/file: OK\0"), vec![ScanResult::Clean]);
}

#[test]
fn found_record() {
    assert_eq!(
        ScanResult::parse("/tmp/file: Win.Test.EICAR_HDB-1 FOUND\0"),
        vec![ScanResult::Found(
            "/tmp/file".to_string(),
            sig(Some("Win"), Some("Test"), Some("EICAR_HDB"), Some("1"), None, "Win.Test.EICAR_HDB-1"),
        )]
    );
}

#[test]
fn error_record() {
    assert_eq!(
        ScanResult::parse("/tmp/file: lstat() failed\0"),
        vec![ScanResult::Error("/tmp/file: lstat() failed".to_string())]
    );
}

#[test]
fn empty_segments_are_skipped() {
    assert_eq!(ScanResult::parse("\0\0"), vec![]);
    assert_eq!(ScanResult::parse(""), vec![]);
    assert_eq!(
        ScanResult::parse("\0/a: OK\0\0/b: oops\0"),
        vec![ScanResult::Clean, ScanResult::Error("/b: oops".to_string())]
    );
}

#[test]
fn record_without_trailing_nul() {
    assert_eq!(ScanResult::parse("/a: OK"), vec![ScanResult::Clean]);
}

#[test]
fn ok_suffix_wins_over_found() {
    assert_eq!(ScanResult::parse("/FOUND/x: OK\0"), vec![ScanResult::Clean]);
}

#[test]
fn found_joins_tokens_and_trims_colons() {
    assert_eq!(
        ScanResult::parse("/p::  Eicar Sig-2-3  FOUND more\0"),
        vec![ScanResult::Found(
            "/p".to_string(),
            sig(Some("EicarSig"), None, None, Some("2"), Some("3"), "EicarSig-2-3"),
        )]
    );
}

#[test]
fn signature_full() {
    assert_eq!(
        Signature::from("Unix.Trojan.Mirai-7100807-0"),
        sig(Some("Unix"), Some("Trojan"), Some("Mirai"), Some("7100807"), Some("0"), "Unix.Trojan.Mirai-7100807-0")
    );
}

#[test]
fn signature_extra_separators_stay_in_last_piece() {
    assert_eq!(
        Signature::from("a.b.c.d-1-2-3"),
        sig(Some("a"), Some("b"), Some("c.d"), Some("1"), Some("2-3"), "a.b.c.d-1-2-3")
    );
}

#[test]
fn signature_empty() {
    assert_eq!(Signature::from(""), sig(Some(""), None, None, None, None, ""));
}

#[test]
fn signature_raw_is_kept() {
    for s in ["", "x", "a.b", "-", "..--..", "Win.Test.EICAR_HDB-1"] {
        assert_eq!(Signature::from(s).raw, s);
    }
}

#[test]
fn version_scenario() {
    let v = Version::parse("ClamAV 0.100.0/24802/Wed Aug  1 08:43:37 2018\0").unwrap();
    assert_eq!(v.version_tag, "ClamAV 0.100.0");
    assert_eq!(v.build_number, 24802);
    assert_eq!(v.release_date, 1533113017);
}

#[test]
fn version_without_nul() {
    let v = Version::parse("ClamAV 1.0.0/1/Thu Jan  1 00:00:00 1970").unwrap();
    assert_eq!(v.build_number, 1);
    assert_eq!(v.release_date, 0);
}

#[test]
fn version_wrong_field_count() {
    match Version::parse("ClamAV 0.100.0/24802\0") {
        Err(ClamError::InvalidData(s)) => assert_eq!(s, "ClamAV 0.100.0/24802\0"),
        other => panic!("unexpected {:?}", other),
    }
    assert!(matches!(Version::parse("a/1/b/c"), Err(ClamError::InvalidData(_))));
}

#[test]
fn version_bad_build() {
    assert!(matches!(
        Version::parse("ClamAV/x24802/Wed Aug  1 08:43:37 2018"),
        Err(ClamError::IntParseError(_))
    ));
}

#[test]
fn version_bad_date() {
    assert!(matches!(
        Version::parse("ClamAV/24802/yesterday"),
        Err(ClamError::DateParseError(_))
    ));
}

const BLOCK: &str = "POOLS: 1\n\nSTATE: VALID PRIMARY\nTHREADS: live 1  idle 0 max 12 idle-timeout 30\nQUEUE: 0 items\n\tSTATS 0.000394\n\nMEMSTATS: heap 9.082M mmap 0.000M used 6.902M free 2.184M releasable 0.129M pools 1 pools_used 565.979M pools_total 565.999M\nEND\0";

#[test]
fn stats_scenario() {
    let st = Stats::parse(BLOCK).unwrap();
    assert_eq!(
        st,
        Stats {
            pools: 1,
            state: "VALID PRIMARY".to_string(),
            threads_live: 1,
            threads_idle: 0,
            threads_max: 12,
            threads_idle_timeout_secs: 30,
            queue: 0,
            mem_heap: "9.082M".to_string(),
            mem_mmap: "0.000M".to_string(),
            mem_used: "6.902M".to_string(),
            mem_free: "2.184M".to_string(),
            mem_releasable: "0.129M".to_string(),
            pools_used: "565.979M".to_string(),
            pools_total: "565.999M".to_string(),
        }
    );
}

#[test]
fn stats_missing_anchor_fails_whole() {
    let without = BLOCK.replace(" idle-timeout ", " timeout ");
    match Stats::parse(&without) {
        Err(ClamError::InvalidData(s)) => assert_eq!(s, without),
        other => panic!("unexpected {:?}", other),
    }
    let no_newline = BLOCK.replace("\nEND\0", "");
    assert!(matches!(Stats::parse(&no_newline), Err(ClamError::InvalidData(_))));
    assert!(matches!(Stats::parse(""), Err(ClamError::InvalidData(_))));
}

#[test]
fn stats_bad_number_fails_whole() {
    let bad = BLOCK.replace("max 12", "max twelve");
    assert!(matches!(Stats::parse(&bad), Err(ClamError::InvalidData(_))));
}

#[test]
fn stats_number_with_plus_sign() {
    let plus = BLOCK.replace("POOLS: 1", "POOLS: +7");
    assert_eq!(Stats::parse(&plus).unwrap().pools, 7);
}

#[test]
fn frame_of_chunk() {
    assert_eq!(chunk_frame(&[9, 8, 7]).unwrap(), vec![0, 0, 0, 3, 9, 8, 7]);
    let big = vec![1u8; 0x0102];
    let f = chunk_frame(&big).unwrap();
    assert_eq!(&f[..4], &[0, 0, 1, 2]);
    assert_eq!(f.len(), 4 + 0x0102);
}

#[test]
fn end_frame_is_zero_length() {
    assert_eq!(end_of_stream(), vec![0, 0, 0, 0]);
}

#[test]
fn instream_request_of_small_payload() {
    let mut expected = b"zINSTREAM\0".to_vec();
    expected.extend_from_slice(&[0, 0, 0, 2, b'h', b'i', 0, 0, 0, 0]);
    assert_eq!(instream_request(b"hi"), expected);
}

#[test]
fn instream_request_of_empty_payload() {
    let mut expected = b"zINSTREAM\0".to_vec();
    expected.extend_from_slice(&[0, 0, 0, 0]);
    assert_eq!(instream_request(&[]), expected);
}

#[test]
fn instream_request_splits_windows() {
    let data = vec![5u8; 5000];
    let r = instream_request(&data);
    assert_eq!(r.len(), 10 + 4 + 4096 + 4 + 904 + 4);
    assert_eq!(&r[10..14], &[0, 0, 0x10, 0]);
    assert_eq!(&r[4110..4114], &[0, 0, 0x03, 0x88]);
    assert_eq!(&r[r.len() - 4..], &[0, 0, 0, 0]);
}

#[test]
fn full_window_then_eof_sends_two_frames() {
    let window = vec![3u8; STREAM_WINDOW];
    let first = stream_step(&window).unwrap();
    assert!(first.more);
    assert_eq!(&first.frame[..4], &[0, 0, 0x10, 0]);
    assert_eq!(first.frame.len(), 4 + 4096);
    let second = stream_step(&[]).unwrap();
    assert!(!second.more);
    assert!(second.frame.is_empty());
    let mut sent = first.frame.clone();
    sent.extend(end_of_stream());
    assert_eq!(sent.len(), 4 + 4096 + 4);
}

#[test]
fn short_read_is_last() {
    let step = stream_step(&[1, 2]).unwrap();
    assert!(!step.more);
    assert_eq!(step.frame, vec![0, 0, 0, 2, 1, 2]);
}

#[test]
fn verdict_is_first_record() {
    assert_eq!(single_verdict("stream: OK\0").unwrap(), ScanResult::Clean);
    assert_eq!(
        single_verdict("stream: Eicar-Test FOUND\0stream: OK\0").unwrap(),
        ScanResult::Found(
            "stream".to_string(),
            sig(Some("Eicar"), None, None, Some("Test"), None, "Eicar-Test")
        )
    );
}

#[test]
fn verdict_of_empty_reply_is_malformed() {
    match single_verdict("\0") {
        Err(ClamError::InvalidData(s)) => assert_eq!(s, "\0"),
        other => panic!("unexpected {:?}", other),
    }
}

#[test]
fn pong() {
    assert!(is_pong("PONG"));
    assert!(!is_pong("PONG\n"));
    assert!(!is_pong(""));
}

#[test]
fn commands() {
    assert_eq!(command_text(Command::Ping), "zPING\0");
    assert_eq!(command_text(Command::Version), "zVERSION\0");
    assert_eq!(command_text(Command::Reload), "zRELOAD\0");
    assert_eq!(command_text(Command::Stats), "zSTATS\0");
    assert_eq!(command_text(Command::Shutdown), "zSHUTDOWN\0");
    assert_eq!(command_text(Command::Instream), "zINSTREAM\0");
    assert_eq!(scan_command("/tmp/x", false), "zSCAN /tmp/x\0");
    assert_eq!(scan_command("/tmp/x", true), "zCONTSCAN /tmp/x\0");
}

#[test]
fn stats_round_trip_of_record() {
    let st = Stats {
        pools: 3,
        state: "VALID PRIMARY".to_string(),
        threads_live: 2,
        threads_idle: 18446744073709551615,
        threads_max: 40,
        threads_idle_timeout_secs: 120,
        queue: 7,
        mem_heap: "1.5M".to_string(),
        mem_mmap: "0.1M".to_string(),
        mem_used: "1.2M".to_string(),
        mem_free: "0.3M".to_string(),
        mem_releasable: "0.0M".to_string(),
        pools_used: "10.0M".to_string(),
        pools_total: "12.0M".to_string(),
    };
    let block = format!(
        "POOLS: {}\n\nSTATE: {}\nTHREADS: live {}  idle {} max {} idle-timeout {}\nQUEUE: {} items\nMEMSTATS: heap {} mmap {} used {} free {} releasable {} pools {} pools_used {} pools_total {}\nEND",
        st.pools,
        st.state,
        st.threads_live,
        st.threads_idle,
        st.threads_max,
        st.threads_idle_timeout_secs,
        st.queue,
        st.mem_heap,
        st.mem_mmap,
        st.mem_used,
        st.mem_free,
        st.mem_releasable,
        st.pools,
        st.pools_used,
        st.pools_total
    );
    assert_eq!(Stats::parse(&block).unwrap(), st);
}

#[test]
fn found_splits_on_unicode_whitespace() {
    assert_eq!(
        ScanResult::parse("/p:\u{a0}Sig.A\u{3000}FOUND\0"),
        vec![ScanResult::Found(
            "/p".to_string(),
            sig(Some("Sig"), Some("A"), None, None, None, "Sig.A"),
        )]
    );
}

#[test]
fn found_marker_inside_token_is_not_a_stop() {
    assert_eq!(
        ScanResult::parse("/p: A NOTFOUND FOUND\0"),
        vec![ScanResult::Found(
            "/p".to_string(),
            sig(Some("ANOTFOUND"), None, None, None, None, "ANOTFOUND"),
        )]
    );
}
