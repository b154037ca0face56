//! Export jobs: requests, waiting and downloading.

use rustrade::exchange::ExchangeId;
use rustrade::lse::dataset::LseDataset;
use rustrade::lse::download::{
    api_error, check_job, part_path, verify_resume_offset, Download, DownloadPlan, DownloadStep,
};
use rustrade::lse::error::LseError;
use rustrade::lse::export::{
    poll_export, quota_exceeded, LseExport, LseExportJob, LseExportJobStatus, LseExportRange, LseExportRequest,
    LseExportStatus, LseExportTimeframe, PollStep,
};
use rustrade::lse::quota::QuotaStatus;
use rustrade::time::{parse_rfc3339, CandleInterval, Date};
use sha2::{Digest, Sha256};

fn day(text: &str) -> Date {
    let parts: Vec<&str> = text.split('-').collect();
    Date::new(parts[0].parse().unwrap(), parts[1].parse().unwrap(), parts[2].parse().unwrap()).unwrap()
}

fn range() -> LseExportRange {
    LseExportRange::new(day("2026-07-01"), day("2026-07-02")).unwrap()
}

fn tick_request() -> LseExportRequest {
    LseExportRequest::new(LseDataset::Fx, "EUR/USD", LseExportTimeframe::Tick, range()).unwrap()
}

fn job(status: LseExportStatus) -> LseExportJobStatus {
    LseExportJobStatus {
        id: "job1".to_string(),
        status,
        rows: None,
        bytes: None,
        sha256: None,
        error: None,
        expires_at: None,
        table_name: None,
        dataset: None,
        symbol: None,
        timeframe: None,
        start: None,
        end: None,
    }
}

/// A ready job as the provider records it.
fn ready(payload: &[u8]) -> LseExportJobStatus {
    LseExportJobStatus {
        rows: Some(64958),
        bytes: Some(payload.len() as u64),
        sha256: Some(hex::encode(Sha256::digest(payload))),
        expires_at: parse_rfc3339("2026-07-30T02:07:44.862806+00:00"),
        table_name: Some("ticks_fx".to_string()),
        dataset: Some("fx".to_string()),
        symbol: Some("EUR/USD".to_string()),
        timeframe: Some("tick".to_string()),
        start: Some("2026-07-01".to_string()),
        end: Some("2026-07-02".to_string()),
        ..job(LseExportStatus::Ready)
    }
}

/// A ready job that reports neither a length nor a digest.
fn job_without_integrity_metadata() -> LseExportJobStatus {
    LseExportJobStatus { symbol: Some("EUR/USD".to_string()), ..job(LseExportStatus::Ready) }
}

/// One call of a download: the partial file that is there, and a server that answers the request.
/// Gives the result, the file that is left, and the range that was asked for where anything was.
fn download(
    part: &[u8],
    job: &LseExportJobStatus,
    answer: (u16, Option<&str>, &[u8]),
) -> (Result<LseExport, LseError>, Vec<u8>, Option<Option<String>>) {
    let request = tick_request();
    if let Err(error) = check_job(job, &request) {
        return (Err(error), part.to_vec(), None);
    }
    let mut file = part.to_vec();
    let (mut state, plan) = Download::new().absorb(part).plan(job.bytes);
    let mut asked = None;
    if let DownloadPlan::Fetch { range } = plan {
        asked = Some(range);
        let (status, content_range, body) = answer;
        let (after, step) = state.on_response(status, content_range);
        state = after;
        match step {
            DownloadStep::Append => {}
            DownloadStep::Restart => file.clear(),
            DownloadStep::Verify => {}
            DownloadStep::ReportQuota => return (Err(quota_exceeded(None)), file, asked),
            DownloadStep::ReportStatus => return (Err(api_error(status, "refused")), file, asked),
            DownloadStep::Fail(error) => return (Err(error), file, asked),
        }
        if matches!(step, DownloadStep::Append | DownloadStep::Restart) {
            for chunk in body.chunks(3) {
                file.extend_from_slice(chunk);
                state = state.absorb(chunk);
            }
        }
    }
    assert_eq!(state.len(), file.len() as u64);
    let result = state.finish(job, "out.parquet", &request);
    if let Err(LseError::IntegrityMismatch { discarded: true, .. }) = &result {
        file.clear();
    }
    (result, file, asked)
}

#[test]
fn submit_sends_the_measured_payload_shape() {
    let body = tick_request().to_body();
    assert_eq!(
        (body.dataset.as_str(), body.symbol.as_str(), body.timeframe.as_str()),
        ("fx", "EUR/USD", "tick")
    );
    assert_eq!(
        (body.start.as_str(), body.end.as_str(), body.format.as_str()),
        ("2026-07-01", "2026-07-02", "parquet")
    );
}

#[test]
fn the_answer_to_a_submission_names_the_job() {
    let job = LseExportJob::new("abc123".to_string(), LseExportStatus::from_name("queued"), Some(7_111_419_512));
    assert_eq!(job.job_id, "abc123");
    assert!(matches!(job.status, LseExportStatus::Queued));
    assert_eq!(job.est_bytes, Some(7_111_419_512));
}

#[test]
fn an_exhausted_allowance_is_quota_exceeded_not_rate_limited() {
    let status = QuotaStatus {
        bytes_used_month: 1,
        bytes_cap_month: 2,
        bytes_used_week: 1,
        bytes_cap_week: 2,
        exports_this_hour: 5,
        exports_cap_hour: 5,
        historical_data_months: -1,
        calls_per_minute: 200,
        max_rows_per_request: 5000,
        vault_concurrency: 2,
    };
    let LseError::QuotaExceeded { status } = quota_exceeded(Some(status)) else {
        panic!("expected QuotaExceeded");
    };
    assert_eq!(status.exports_this_hour, 5);
    assert_eq!(status.exports_cap_hour, 5);
}

#[test]
fn a_429_whose_usage_lookup_fails_still_surfaces_observably() {
    assert!(matches!(quota_exceeded(None), LseError::Api { status: 429, .. }));
}

#[test]
fn await_export_returns_the_ready_job() {
    let PollStep::Ready(status) = poll_export("job1", ready(b"payload"), true) else {
        panic!("a ready job is ready whatever the clock says");
    };
    assert!(matches!(status.status, LseExportStatus::Ready));
    assert_eq!(status.rows, Some(64958));
    assert_eq!(status.table_name.as_deref(), Some("ticks_fx"));
    assert!(status.expires_at.is_some());
}

#[test]
fn a_failed_job_is_terminal_and_carries_the_providers_diagnostic() {
    let failed =
        LseExportJobStatus { error: Some("upstream table unavailable".to_string()), ..job(LseExportStatus::Failed) };
    let PollStep::Stop(error) = poll_export("job1", failed, false) else { panic!("a failed job ends the wait") };
    assert!(matches!(error, LseError::ExportFailed { .. }));
    assert!(error.message().contains("upstream table unavailable"));
    assert!(matches!(
        poll_export("job1", job(LseExportStatus::Expired), false),
        PollStep::Stop(LseError::ExportFailed { .. })
    ));
}

#[test]
fn a_job_that_never_readies_times_out_without_cancelling_it() {
    let PollStep::Stop(error) = poll_export("job1", job(LseExportStatus::Queued), true) else {
        panic!("the deadline has passed")
    };
    assert!(matches!(error, LseError::ExportTimeout { .. }));
    assert!(error.message().contains("poll it again"));
    assert!(matches!(poll_export("job1", job(LseExportStatus::Queued), false), PollStep::Wait));
    assert!(matches!(poll_export("job1", job(LseExportStatus::Running), false), PollStep::Wait));
}

#[test]
fn an_unknown_status_is_preserved_rather_than_guessed_at() {
    let status = LseExportStatus::from_name("materialising");
    let LseExportStatus::Other(name) = &status else { panic!("expected Other") };
    assert_eq!(name, "materialising");
    assert!(!status.is_terminal());
    assert_eq!(status.as_str(), "materialising");
}

#[test]
fn statuses_keep_their_spelling() {
    for name in ["queued", "running", "ready", "failed", "expired", "other"] {
        assert_eq!(LseExportStatus::from_name(name).as_str(), name);
    }
    assert!(LseExportStatus::from_name("ready").is_terminal());
    assert!(LseExportStatus::from_name("failed").is_terminal());
    assert!(LseExportStatus::from_name("expired").is_terminal());
    assert!(!LseExportStatus::from_name("queued").is_terminal());
    assert!(!LseExportStatus::from_name("running").is_terminal());
}

#[test]
fn download_verifies_the_sha256_and_renames_atomically() {
    let payload = b"synthetic parquet bytes";
    let (result, file, asked) = download(b"", &ready(payload), (200, None, payload));
    let export = result.unwrap();

    assert_eq!(export.path(), "out.parquet");
    assert_eq!(export.dataset(), LseDataset::Fx);
    assert_eq!(export.exchange_id(), LseDataset::Fx.exchange_id());
    assert_eq!(export.symbol(), "EUR/USD");
    assert_eq!(file, payload);
    assert_eq!(asked, Some(None));
}

#[test]
fn a_corrupt_download_keeps_the_partial_file_and_leaves_the_destination_absent() {
    let (result, file, _) = download(b"", &ready(b"the real payload"), (200, None, b"wrong bytes"));

    let Err(LseError::IntegrityMismatch { path, expected, actual, discarded }) = result else {
        panic!("expected IntegrityMismatch");
    };
    assert!(!discarded);
    assert_eq!(path, "out.parquet.part");
    assert_eq!(expected, "16 bytes");
    assert_eq!(actual, "11 bytes");
    assert_eq!(file, b"wrong bytes");
}

#[test]
fn a_stale_oversized_partial_file_is_discarded_rather_than_failing_forever() {
    let payload = b"the real payload";
    let stale = b"leftovers from a larger job that used this same destination";
    let (result, file, asked) = download(stale, &ready(payload), (200, None, payload));
    assert!(matches!(result, Err(LseError::IntegrityMismatch { discarded: true, .. })));
    assert!(file.is_empty());
    // Nothing was requested, because the stale file looked complete.
    assert_eq!(asked, None);

    let (result, file, _) = download(&file, &ready(payload), (200, None, payload));
    assert!(result.is_ok());
    assert_eq!(file, payload);
}

#[test]
fn an_interrupted_download_resumes_from_the_partial_file() {
    let payload = b"0123456789abcdef";
    let (result, file, asked) =
        download(&payload[..10], &ready(payload), (206, Some("bytes 10-15/16"), &payload[10..]));
    assert!(result.is_ok());
    assert_eq!(file, payload);
    assert_eq!(asked, Some(Some("bytes=10-".to_string())));
}

#[test]
fn a_server_that_ignores_range_restarts_the_download_instead_of_appending() {
    let payload = b"0123456789abcdef";
    let (result, file, _) = download(&payload[..10], &ready(payload), (200, None, payload));
    assert!(result.is_ok());
    assert_eq!(file, payload);
}

#[test]
fn a_206_resuming_from_the_wrong_offset_is_rejected_before_it_reaches_the_file() {
    let payload = b"0123456789abcdef";
    let (result, file, _) = download(
        &payload[..10],
        &job_without_integrity_metadata(),
        (206, Some("bytes 4-15/16"), &payload[4..]),
    );
    assert!(matches!(result, Err(LseError::Api { status: 206, .. })));
    assert_eq!(file, &payload[..10]);
}

#[test]
fn a_206_with_no_usable_content_range_is_rejected_rather_than_assumed_to_resume() {
    let payload = b"0123456789abcdef";
    for content_range in [None, Some("bytes abc-15/16")] {
        let (result, file, _) = download(
            &payload[..10],
            &job_without_integrity_metadata(),
            (206, content_range, &payload[10..]),
        );
        assert!(
            matches!(result, Err(LseError::Api { status: 206, .. })),
            "Content-Range {content_range:?} should be rejected"
        );
        assert_eq!(file, &payload[..10]);
    }
}

#[test]
fn a_content_range_is_read_by_its_first_byte() {
    assert!(verify_resume_offset(Some("bytes 10-15/16"), 10).is_ok());
    assert!(verify_resume_offset(Some(" bytes 10-15/* "), 10).is_ok());
    assert!(verify_resume_offset(Some("bytes 10-15/16"), 11).is_err());
    assert!(verify_resume_offset(Some("items 10-15/16"), 10).is_err());
    assert!(verify_resume_offset(None, 10).is_err());
}

#[test]
fn a_416_on_an_already_complete_part_file_converges_instead_of_failing_forever() {
    let payload = b"0123456789abcdef";
    let (result, file, asked) = download(payload, &job_without_integrity_metadata(), (416, None, b""));
    assert_eq!(result.unwrap().path(), "out.parquet");
    assert_eq!(file, payload);
    assert_eq!(asked, Some(Some("bytes=16-".to_string())));
}

#[test]
fn a_416_on_a_part_file_that_fails_verification_discards_it_and_converges() {
    let payload = b"0123456789abcdef";
    let stale = b"leftovers-from-a";
    let job = LseExportJobStatus {
        sha256: Some(hex::encode(Sha256::digest(payload))),
        ..job_without_integrity_metadata()
    };
    let (result, file, asked) = download(stale, &job, (416, None, b""));
    assert!(matches!(result, Err(LseError::IntegrityMismatch { discarded: true, .. })));
    assert!(file.is_empty());
    assert!(asked.is_some());

    let (result, file, _) = download(&file, &job, (200, None, payload));
    assert!(result.is_ok());
    assert_eq!(file, payload);
}

#[test]
fn a_digest_may_be_written_in_capital_letters() {
    let payload = b"payload";
    let mut job = ready(payload);
    job.sha256 = job.sha256.map(|digest| digest.to_uppercase());
    assert!(download(b"", &job, (200, None, payload)).0.is_ok());
    // The digest of the empty sequence is well known.
    job = ready(b"");
    assert_eq!(
        job.sha256.as_deref(),
        Some("e3b0c44298fc1c149afbf4c8996fb92427ae41e4649b934ca495991b7852b855")
    );
    assert!(download(b"", &job, (200, None, b"")).0.is_ok());
    job.bytes = None;
    assert!(download(b"", &job, (200, None, b"x")).0.is_err());
}

#[test]
fn other_answers_are_reported_and_leave_the_partial_file() {
    let payload = b"0123456789abcdef";
    let (result, file, _) = download(&payload[..10], &ready(payload), (429, None, b""));
    assert!(matches!(result, Err(LseError::Api { status: 429, .. })));
    assert_eq!(file, &payload[..10]);
    let (result, _, _) = download(b"", &ready(payload), (500, None, b""));
    assert!(matches!(result, Err(LseError::Api { status: 500, .. })));
    // Without a partial file a 416 is an error like any other.
    let (result, _, _) = download(b"", &ready(payload), (416, None, b""));
    assert!(matches!(result, Err(LseError::Api { status: 416, .. })));
}

#[test]
fn downloading_a_job_that_is_not_ready_is_rejected_before_a_request_is_sent() {
    let (result, _, asked) = download(b"", &job(LseExportStatus::Queued), (200, None, b""));
    assert!(matches!(result, Err(LseError::InvalidInput { .. })));
    assert_eq!(asked, None);
}

#[test]
fn a_job_that_echoes_another_request_is_refused() {
    for (field, change) in [
        ("dataset", 0),
        ("symbol", 1),
        ("timeframe", 2),
        ("start", 3),
        ("end", 4),
    ] {
        let mut job = ready(b"payload");
        let wrong = Some("other".to_string());
        match change {
            0 => job.dataset = wrong,
            1 => job.symbol = wrong,
            2 => job.timeframe = wrong,
            3 => job.start = wrong,
            _ => job.end = wrong,
        }
        let Err(LseError::ExportJobMismatch { field: named, reported, .. }) = check_job(&job, &tick_request()) else {
            panic!("{field} differs");
        };
        assert_eq!(named, field);
        assert_eq!(reported, "other");
    }
    assert!(check_job(&ready(b"payload"), &tick_request()).is_ok());
    assert!(check_job(&job(LseExportStatus::Ready), &tick_request()).is_ok());
}

#[test]
fn the_partial_file_is_named_after_the_destination() {
    assert_eq!(part_path("out.parquet"), "out.parquet.part");
    assert_eq!(part_path("dir/out"), "dir/out.part");
}

#[test]
fn a_candle_export_naming_all_is_rejected_because_it_silently_returns_nothing() {
    let error = LseExportRequest::new(
        LseDataset::Etf,
        "all",
        LseExportTimeframe::Candle(CandleInterval::Day1),
        range(),
    )
    .unwrap_err();

    assert!(matches!(error, LseError::InvalidInput { .. }));
    assert!(error.message().contains("EMPTY"));
}

#[test]
fn a_tick_export_naming_all_is_rejected_too_because_it_fails_the_same_way() {
    let error =
        LseExportRequest::new(LseDataset::Fx, "all", LseExportTimeframe::Tick, range()).unwrap_err();

    assert!(matches!(error, LseError::InvalidInput { .. }));
    assert!(error.message().contains("EMPTY"));
}

#[test]
fn uppercase_all_is_accepted_because_it_is_allstates_real_ticker() {
    assert!(
        LseExportRequest::new(
            LseDataset::Stocks,
            "ALL",
            LseExportTimeframe::Candle(CandleInterval::Day1),
            range(),
        )
        .is_ok()
    );
}

#[test]
fn a_candle_export_of_a_tick_only_dataset_is_rejected() {
    for dataset in [LseDataset::Volatility, LseDataset::InterestRates, LseDataset::CurrencyIndex] {
        let error = LseExportRequest::new(
            dataset,
            "VIX/USD",
            LseExportTimeframe::Candle(CandleInterval::Day1),
            range(),
        )
        .unwrap_err();

        assert!(matches!(error, LseError::InvalidInput { .. }), "{dataset:?} should be rejected");
        assert!(error.message().contains("tick-only"));
    }

    assert!(
        LseExportRequest::new(LseDataset::Volatility, "VIX/USD", LseExportTimeframe::Tick, range()).is_ok()
    );
}

#[test]
fn a_resolution_the_provider_does_not_serve_is_rejected_before_it_is_billed() {
    let error = LseExportRequest::new(
        LseDataset::Etf,
        "SPY",
        LseExportTimeframe::Candle(CandleInterval::Hour2),
        range(),
    )
    .unwrap_err();

    assert!(matches!(error, LseError::UnsupportedInterval { .. }));
}

#[test]
fn a_blank_symbol_is_rejected_rather_than_earning_a_400() {
    for symbol in ["", "   "] {
        assert!(matches!(
            LseExportRequest::new(LseDataset::Fx, symbol, LseExportTimeframe::Tick, range()),
            Err(LseError::InvalidInput { .. })
        ));
    }
}

#[test]
fn an_inverted_or_empty_range_is_rejected() {
    let first = day("2026-07-01");
    let earlier = day("2026-06-01");

    assert!(matches!(LseExportRange::new(first, first), Err(LseError::InvalidInput { .. })));
    assert!(matches!(LseExportRange::new(first, earlier), Err(LseError::InvalidInput { .. })));
}

#[test]
fn the_export_range_end_is_documented_and_carried_as_exclusive() {
    let range = range();

    assert_eq!(range.start().text(), "2026-07-01");
    assert_eq!(range.end().text(), "2026-07-02");
}

#[test]
fn timeframes_have_the_providers_names() {
    assert_eq!(LseExportTimeframe::Tick.as_lse_str().unwrap(), "tick");
    assert_eq!(LseExportTimeframe::Candle(CandleInterval::Day1).as_lse_str().unwrap(), "1d");
    assert!(LseExportTimeframe::Candle(CandleInterval::Hour2).as_lse_str().is_err());
}

#[test]
fn an_export_carries_its_description() {
    let export = LseExport::new("a.parquet", LseDataset::Etf, "SPY", LseExportTimeframe::Tick, range());
    assert_eq!(export.path(), "a.parquet");
    assert_eq!(export.symbol(), "SPY");
    assert_eq!(export.exchange_id(), ExchangeId::LseEquities);
    assert!(matches!(export.timeframe(), LseExportTimeframe::Tick));
    assert_eq!(export.range().end().text(), "2026-07-02");
    let request = tick_request();
    assert_eq!(request.dataset(), LseDataset::Fx);
    assert_eq!(request.symbol(), "EUR/USD");
    assert!(matches!(request.timeframe(), LseExportTimeframe::Tick));
    assert_eq!(request.range().start().text(), "2026-07-01");
}
