use iptv_speed_test::m3u8_parser::ResolveError;
use iptv_speed_test::speed_test::{
    label_of, read_time_left, segment_outcome, select_segments, tally, throughput,
    DownloadOutcome, FailureKind, SegmentOutcome, SpeedTester, Strategy, StreamProgress,
    MAX_TEST_SEGMENTS, PROBE_TIMEOUT_SECS, REQUEST_TIMEOUT_SECS, STREAM_READ_LIMIT_MICROS,
};
use std::time::Duration;

fn tester() -> SpeedTester {
    SpeedTester::new(Duration::from_secs(10), 5, false)
}

#[test]
fn limits_have_their_values() {
    assert_eq!(MAX_TEST_SEGMENTS, 5);
    assert_eq!(STREAM_READ_LIMIT_MICROS, 3_000_000);
    assert_eq!(PROBE_TIMEOUT_SECS, 1);
    assert_eq!(REQUEST_TIMEOUT_SECS, 3);
}

#[test]
fn throughput_is_kilobits_per_second() {
    assert_eq!(throughput(1024 * 1024, 1_000_000), 8192);
    assert_eq!(throughput(2 * 1024 * 1024, 2_000_000), 8192);
    assert_eq!(throughput(1000, 1), 7_812_500);
    assert_eq!(throughput(128, 1_000_000), 1);
    assert_eq!(throughput(127, 1_000_000), 0);
    assert_eq!(throughput(1, 3_000_000), 0);
    assert_eq!(throughput(0, 5), 0);
}

#[test]
fn throughput_without_elapsed_time_is_zero() {
    assert_eq!(throughput(0, 0), 0);
    assert_eq!(throughput(123_456, 0), 0);
    assert_eq!(throughput(u64::MAX, 0), 0);
}

#[test]
fn throughput_is_held_to_64_bits() {
    assert_eq!(throughput(u64::MAX, 1), u64::MAX);
    assert_eq!(throughput(u64::MAX, u64::MAX), 7812);
}

#[test]
fn labels_of_strategies() {
    assert_eq!(label_of(Strategy::Direct), "HTTP直连");
    assert_eq!(label_of(Strategy::Hls), "HLS/M3U8");
    assert_eq!(label_of(Strategy::Proxy), "UDP代理");
    assert_eq!(label_of(Strategy::Skip), "HEAD失败");
}

#[test]
fn direct_download_reports_latency_and_throughput() {
    let result = tester().download_result(
        "https://h/video.ts",
        Strategy::Direct,
        DownloadOutcome::Completed { latency_ms: 42, bytes: 2_097_152, elapsed_micros: 2_000_000 },
        2_100_000,
    );
    assert_eq!(result.url, "https://h/video.ts");
    assert!(result.success);
    assert_eq!(result.delay_ms, 42);
    assert_eq!(result.speed_kbps, 8192);
    assert_eq!(result.size_bytes, 2_097_152);
    assert_eq!(result.duration_micros, 2_100_000);
    assert_eq!(result.protocol_type, "HTTP直连");
    assert_eq!(result.details, Some("直接下载测速完成".to_string()));
    assert_eq!(result.failure, None);
}

#[test]
fn direct_download_latency_is_held_to_the_field() {
    let result = tester().download_result(
        "u",
        Strategy::Direct,
        DownloadOutcome::Completed { latency_ms: u64::MAX, bytes: 0, elapsed_micros: 0 },
        0,
    );
    assert!(result.success);
    assert_eq!(result.delay_ms, i64::MAX);
    assert_eq!(result.speed_kbps, 0);
}

#[test]
fn proxy_download_never_reports_latency() {
    let t = tester();
    let result = t.download_result(
        "http://h:4022/rtp/239.1.1.1:5000",
        Strategy::Proxy,
        DownloadOutcome::Completed { latency_ms: 42, bytes: 1_048_576, elapsed_micros: 1_000_000 },
        1_000_500,
    );
    assert!(result.success);
    assert_eq!(result.delay_ms, -1);
    assert_eq!(result.speed_kbps, 8192);
    assert_eq!(result.size_bytes, 1_048_576);
    assert_eq!(result.protocol_type, "UDP代理");
    let slow = t.download_result(
        "http://h:4022/rtp/239.1.1.1:5000",
        Strategy::Proxy,
        DownloadOutcome::Completed { latency_ms: 0, bytes: 1, elapsed_micros: 3_000_000 },
        3_000_000,
    );
    assert_eq!(slow.delay_ms, -1);
    assert_eq!(slow.speed_kbps, 0);
    let failed = t.download_result(
        "http://h:4022/rtp/239.1.1.1:5000",
        Strategy::Proxy,
        DownloadOutcome::HttpStatus { code: 503, reason: "Service Unavailable".to_string() },
        10,
    );
    assert_eq!(failed.delay_ms, -1);
    assert_eq!(failed.protocol_type, "UDP代理");
}

#[test]
fn download_with_error_status_fails() {
    let result = tester().download_result(
        "https://h/video.ts",
        Strategy::Direct,
        DownloadOutcome::HttpStatus { code: 404, reason: "Not Found".to_string() },
        123,
    );
    assert!(!result.success);
    assert_eq!(result.failure, Some(FailureKind::HttpStatusError));
    assert_eq!(result.delay_ms, -1);
    assert_eq!(result.speed_kbps, 0);
    assert_eq!(result.size_bytes, 0);
    assert_eq!(result.duration_micros, 123);
    assert_eq!(result.protocol_type, "HTTP直连");
    assert_eq!(result.details, Some("下载失败: HTTP错误: 404 Not Found".to_string()));
}

#[test]
fn download_with_transport_error_fails() {
    let result = tester().download_result(
        "https://h/video.ts",
        Strategy::Direct,
        DownloadOutcome::TransportError { message: "connection refused".to_string() },
        5,
    );
    assert!(!result.success);
    assert_eq!(result.failure, Some(FailureKind::FetchError));
    assert_eq!(result.delay_ms, -1);
    assert_eq!(result.speed_kbps, 0);
    assert_eq!(result.size_bytes, 0);
    assert_eq!(result.details, Some("下载失败: connection refused".to_string()));
}

#[test]
fn download_over_the_time_bound_discards_what_was_read() {
    let t = tester();
    for bytes_read in [0u64, 1, 999_999, u64::MAX] {
        let result = t.download_result(
            "https://h/live.ts",
            Strategy::Direct,
            DownloadOutcome::TimedOut { bytes_read },
            10_000_000,
        );
        assert!(!result.success);
        assert_eq!(result.failure, Some(FailureKind::Timeout));
        assert_eq!(result.delay_ms, -1);
        assert_eq!(result.speed_kbps, 0);
        assert_eq!(result.size_bytes, 0);
        assert_eq!(result.duration_micros, 10_000_000);
        assert_eq!(result.details, Some("请求超时".to_string()));
    }
}

#[test]
fn hls_two_of_five_segments() {
    let outcomes = vec![
        SegmentOutcome::Downloaded { bytes: 1000 },
        SegmentOutcome::Failed,
        SegmentOutcome::Downloaded { bytes: 2000 },
        SegmentOutcome::Failed,
        SegmentOutcome::Failed,
    ];
    let result = tester().hls_result("https://h/index.m3u8", &outcomes, 1_000_000, 1_500_000);
    assert!(result.success);
    assert_eq!(result.failure, None);
    assert_eq!(result.size_bytes, 3000);
    assert_eq!(result.speed_kbps, 23);
    assert_eq!(result.delay_ms, 1000);
    assert_eq!(result.duration_micros, 1_500_000);
    assert_eq!(result.protocol_type, "HLS/M3U8");
    let details = result.details.unwrap();
    assert!(details.contains("2 of 5"));
    assert_eq!(
        details,
        "HLS流测试 - 成功片段: 2 of 5, 平均速度: 23 kbps"
    );
}

#[test]
fn hls_all_segments_failed() {
    let outcomes = vec![SegmentOutcome::Failed; 5];
    let result = tester().hls_result("https://h/index.m3u8", &outcomes, 1_000_000, 1_500_000);
    assert!(!result.success);
    assert_eq!(result.failure, Some(FailureKind::AllSegmentsFailed));
    assert_eq!(result.delay_ms, -1);
    assert_eq!(result.speed_kbps, 0);
    assert_eq!(result.size_bytes, 0);
    assert_eq!(result.duration_micros, 1_500_000);
    assert_eq!(
        result.details,
        Some("HLS测试失败: 所有片段下载失败 (0 of 5)".to_string())
    );
}

#[test]
fn hls_segment_without_bytes_still_succeeded() {
    let outcomes = vec![SegmentOutcome::Downloaded { bytes: 0 }, SegmentOutcome::Failed];
    let result = tester().hls_result("u", &outcomes, 0, 0);
    assert!(result.success);
    assert_eq!(result.size_bytes, 0);
    assert_eq!(result.speed_kbps, 0);
    assert_eq!(result.delay_ms, 0);
    assert_eq!(
        result.details,
        Some("HLS流测试 - 成功片段: 1 of 2, 平均速度: 0 kbps".to_string())
    );
}

#[test]
fn hls_without_outcomes_fails() {
    let result = tester().hls_result("u", &Vec::new(), 10, 20);
    assert!(!result.success);
    assert_eq!(result.failure, Some(FailureKind::AllSegmentsFailed));
}

#[test]
fn tally_sums_downloaded_segments_only() {
    assert_eq!(tally(&Vec::new()), (0, 0));
    assert_eq!(
        tally(&vec![
            SegmentOutcome::Downloaded { bytes: 7 },
            SegmentOutcome::Failed,
            SegmentOutcome::Downloaded { bytes: 8 },
        ]),
        (15, 2)
    );
    assert_eq!(
        tally(&vec![
            SegmentOutcome::Downloaded { bytes: u64::MAX },
            SegmentOutcome::Downloaded { bytes: 8 },
        ]),
        (u64::MAX, 2)
    );
}

#[test]
fn at_most_five_segments_are_selected() {
    let names = |n: usize| (0..n).map(|i| format!("s{}.ts", i)).collect::<Vec<String>>();
    assert_eq!(select_segments(names(7)), names(5));
    assert_eq!(select_segments(names(5)), names(5));
    assert_eq!(select_segments(names(3)), names(3));
    assert_eq!(select_segments(names(0)), names(0));
}

#[test]
fn stream_is_read_until_the_limit() {
    let mut progress = StreamProgress::new();
    assert_eq!(progress.bytes(), 0);
    assert!(progress.on_chunk(100, 1000));
    assert_eq!(progress.bytes(), 100);
    assert!(progress.on_chunk(50, 3_000_000));
    assert_eq!(progress.bytes(), 150);
    assert!(!progress.on_chunk(1, 3_000_001));
    assert_eq!(progress.bytes(), 151);
    assert!(progress.on_chunk(0, 0));
    assert_eq!(progress.bytes(), 151);
}

#[test]
fn skipped_target_is_a_failed_verdict() {
    let result = tester().skipped_result("https://h/index.m3u8");
    assert_eq!(result.url, "https://h/index.m3u8");
    assert!(!result.success);
    assert_eq!(result.failure, Some(FailureKind::ProbeFailed));
    assert_eq!(result.delay_ms, -1);
    assert_eq!(result.speed_kbps, 0);
    assert_eq!(result.size_bytes, 0);
    assert_eq!(result.duration_micros, 0);
    assert_eq!(result.protocol_type, "HEAD失败");
    assert_eq!(
        result.details,
        Some("HEAD请求失败且URL以.m3u8结尾，跳过测试".to_string())
    );
}

#[test]
fn unresolved_playlist_is_a_failed_verdict() {
    let t = tester();
    let cases = [
        (
            ResolveError::MalformedUrl,
            FailureKind::MalformedUrl,
            "HLS测试失败: 播放列表URL无效",
        ),
        (
            ResolveError::FetchError,
            FailureKind::FetchError,
            "HLS测试失败: 无法获取M3U8文件",
        ),
        (
            ResolveError::EmptyPlaylist,
            FailureKind::NoSegments,
            "HLS测试失败: 未找到有效的媒体片段",
        ),
    ];
    for (error, kind, text) in cases {
        let result = t.resolve_failure_result("https://h/index.m3u8", error, 77);
        assert!(!result.success);
        assert_eq!(result.failure, Some(kind));
        assert_eq!(result.delay_ms, -1);
        assert_eq!(result.speed_kbps, 0);
        assert_eq!(result.size_bytes, 0);
        assert_eq!(result.duration_micros, 77);
        assert_eq!(result.protocol_type, "HLS/M3U8");
        assert_eq!(result.details, Some(text.to_string()));
    }
}

#[test]
fn hls_over_the_time_bound() {
    let result = tester().hls_timeout_result("https://h/index.m3u8", 10_000_001);
    assert!(!result.success);
    assert_eq!(result.failure, Some(FailureKind::Timeout));
    assert_eq!(result.delay_ms, -1);
    assert_eq!(result.speed_kbps, 0);
    assert_eq!(result.size_bytes, 0);
    assert_eq!(result.duration_micros, 10_000_001);
    assert_eq!(result.protocol_type, "HLS/M3U8");
    assert_eq!(result.details, Some("HLS测试超时".to_string()));
}

#[test]
fn segment_outcome_of_each_download() {
    assert_eq!(
        segment_outcome(&DownloadOutcome::Completed {
            latency_ms: 3,
            bytes: 77,
            elapsed_micros: 5
        }),
        SegmentOutcome::Downloaded { bytes: 77 }
    );
    assert_eq!(
        segment_outcome(&DownloadOutcome::HttpStatus {
            code: 500,
            reason: "Internal Server Error".to_string()
        }),
        SegmentOutcome::Failed
    );
    assert_eq!(
        segment_outcome(&DownloadOutcome::TransportError { message: "reset".to_string() }),
        SegmentOutcome::Failed
    );
    assert_eq!(
        segment_outcome(&DownloadOutcome::TimedOut { bytes_read: 9 }),
        SegmentOutcome::Failed
    );
}

#[test]
fn only_direct_media_reports_latency() {
    let t = tester();
    for (strategy, delay_ms) in [
        (Strategy::Direct, 42),
        (Strategy::Proxy, -1),
        (Strategy::Hls, -1),
        (Strategy::Skip, -1),
    ] {
        let result = t.download_result(
            "http://h/x",
            strategy,
            DownloadOutcome::Completed { latency_ms: 42, bytes: 1024, elapsed_micros: 1_000_000 },
            1_000_000,
        );
        assert!(result.success);
        assert_eq!(result.delay_ms, delay_ms);
        assert_eq!(result.speed_kbps, 8);
        assert_eq!(result.protocol_type, label_of(strategy));
    }
}

#[test]
fn status_without_known_reason() {
    let result = tester().download_result(
        "https://h/video.ts",
        Strategy::Direct,
        DownloadOutcome::HttpStatus { code: 599, reason: "<unknown status code>".to_string() },
        1,
    );
    assert_eq!(result.failure, Some(FailureKind::HttpStatusError));
    assert_eq!(
        result.details,
        Some("下载失败: HTTP错误: 599 <unknown status code>".to_string())
    );
}

#[test]
fn read_time_runs_out_at_the_limit() {
    assert_eq!(read_time_left(0), 3_000_000);
    assert_eq!(read_time_left(1), 2_999_999);
    assert_eq!(read_time_left(2_999_999), 1);
    assert_eq!(read_time_left(3_000_000), 0);
    assert_eq!(read_time_left(3_000_001), 0);
    assert_eq!(read_time_left(u64::MAX), 0);
}
