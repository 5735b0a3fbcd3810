use aura_core::fetch::{
    check_transfer_status, chunk_step, classify_failure, classify_status, is_expired_link,
    length_from_head, length_from_probe, range_header, ChunkStep,
    FailureKind, FetchError, HeadVerdict, StatusClass, PROGRESS_UPDATE_THRESHOLD,
};

#[test]
fn statuses_fall_in_three_classes() {
    assert_eq!(classify_status(200), StatusClass::Success);
    assert_eq!(classify_status(206), StatusClass::Success);
    assert_eq!(classify_status(299), StatusClass::Success);
    assert_eq!(classify_status(403), StatusClass::Expired);
    assert_eq!(classify_status(404), StatusClass::Expired);
    assert_eq!(classify_status(410), StatusClass::Expired);
    assert_eq!(classify_status(199), StatusClass::Failure);
    assert_eq!(classify_status(300), StatusClass::Failure);
    assert_eq!(classify_status(401), StatusClass::Failure);
    assert_eq!(classify_status(500), StatusClass::Failure);
}

#[test]
fn head_gives_the_length_where_it_can() {
    assert_eq!(length_from_head(200, Some(1000), None), HeadVerdict::Length(1000));
    assert_eq!(length_from_head(200, None, Some("1000")), HeadVerdict::Length(1000));
    assert_eq!(length_from_head(200, Some(0), Some("8000000")), HeadVerdict::Length(8000000));
    assert_eq!(length_from_head(200, Some(5), Some("9")), HeadVerdict::Length(5));
    assert_eq!(length_from_head(200, None, None), HeadVerdict::Probe);
    assert_eq!(length_from_head(200, Some(0), Some("0")), HeadVerdict::Probe);
    assert_eq!(length_from_head(200, None, Some("abc")), HeadVerdict::Probe);
    assert_eq!(length_from_head(500, Some(1000), Some("1000")), HeadVerdict::Probe);
    assert_eq!(length_from_head(405, None, None), HeadVerdict::Probe);
    assert_eq!(length_from_head(403, Some(1000), None), HeadVerdict::Expired);
    assert_eq!(length_from_head(404, None, None), HeadVerdict::Expired);
    assert_eq!(length_from_head(410, None, Some("10")), HeadVerdict::Expired);
}

#[test]
fn probe_reads_the_total_after_the_last_slash() {
    assert!(matches!(length_from_probe(206, Some("bytes 0-0/1000")), Ok(1000)));
    assert!(matches!(length_from_probe(200, Some("1000")), Ok(1000)));
    assert!(matches!(length_from_probe(206, Some("bytes 0-0/5/77")), Ok(77)));
    assert!(matches!(length_from_probe(206, Some("bytes 0-0/0")), Ok(0)));
    assert!(matches!(
        length_from_probe(206, Some("bytes 0-0/*")),
        Err(FetchError::CannotDetermineSize)
    ));
    assert!(matches!(
        length_from_probe(206, Some("bytes 0-0/")),
        Err(FetchError::CannotDetermineSize)
    ));
    assert!(matches!(length_from_probe(206, None), Err(FetchError::CannotDetermineSize)));
    assert!(matches!(
        length_from_probe(500, Some("bytes 0-0/1000")),
        Err(FetchError::CannotDetermineSize)
    ));
    assert!(matches!(
        length_from_probe(403, Some("bytes 0-0/1000")),
        Err(FetchError::ExpiredLink)
    ));
    assert!(matches!(length_from_probe(404, None), Err(FetchError::ExpiredLink)));
    assert!(matches!(length_from_probe(410, None), Err(FetchError::ExpiredLink)));
}

#[test]
fn range_header_names_both_ends() {
    assert_eq!(range_header(0, 0), "bytes=0-0");
    assert_eq!(range_header(250, 499), "bytes=250-499");
    assert_eq!(range_header(0, u64::MAX), "bytes=0-18446744073709551615");
}

#[test]
fn transfer_statuses_are_checked() {
    assert!(matches!(check_transfer_status(200), Ok(())));
    assert!(matches!(check_transfer_status(206), Ok(())));
    assert!(matches!(check_transfer_status(403), Err(FetchError::ExpiredLink)));
    assert!(matches!(check_transfer_status(404), Err(FetchError::ExpiredLink)));
    assert!(matches!(check_transfer_status(410), Err(FetchError::ExpiredLink)));
    assert!(matches!(check_transfer_status(500), Err(FetchError::Status(500))));
    assert!(matches!(check_transfer_status(302), Err(FetchError::Status(302))));
}

#[test]
fn errors_have_their_messages() {
    assert_eq!(FetchError::CannotDetermineSize.message(), "Could not determine file size");
    assert_eq!(FetchError::ExpiredLink.message(), "ExpiredLink");
    assert_eq!(FetchError::PausedByUser.message(), "PausedByUser");
    assert_eq!(FetchError::Status(503).message(), "Download failed: 503");
    assert_eq!(FetchError::Transport("connection reset".to_string()).message(), "connection reset");
}

#[test]
fn failures_are_told_by_their_messages() {
    assert_eq!(classify_failure("PausedByUser"), FailureKind::Paused);
    assert_eq!(classify_failure("ExpiredLink"), FailureKind::Expired);
    assert_eq!(classify_failure("PausedByUser after ExpiredLink"), FailureKind::Paused);
    assert_eq!(classify_failure("request failed: ExpiredLink (403)"), FailureKind::Expired);
    assert_eq!(classify_failure("connection reset"), FailureKind::Transient);
    assert_eq!(classify_failure(""), FailureKind::Transient);
    assert_eq!(classify_failure("Download failed: 500"), FailureKind::Transient);
    assert_eq!(classify_failure(&FetchError::Status(403).message()), FailureKind::Transient);
    assert!(is_expired_link("x ExpiredLink y"));
    assert!(!is_expired_link("expiredlink"));
}

#[test]
fn progress_is_published_in_batches() {
    assert_eq!(PROGRESS_UPDATE_THRESHOLD, 512 * 1024);
    assert_eq!(chunk_step(0, 1000, false), ChunkStep::Write { publish: 0, carry: 1000 });
    assert_eq!(
        chunk_step(524287, 1, false),
        ChunkStep::Write { publish: 524288, carry: 0 }
    );
    assert_eq!(
        chunk_step(500000, 100000, false),
        ChunkStep::Write { publish: 600000, carry: 0 }
    );
    assert_eq!(chunk_step(0, 524287, false), ChunkStep::Write { publish: 0, carry: 524287 });
    assert_eq!(chunk_step(0, 0, false), ChunkStep::Write { publish: 0, carry: 0 });
}

#[test]
fn a_raised_flag_stops_the_transfer_before_the_write() {
    assert_eq!(chunk_step(0, 1000, true), ChunkStep::Abort);
    assert_eq!(chunk_step(524287, 1, true), ChunkStep::Abort);
}

#[test]
fn every_byte_of_a_transfer_is_published_once() {
    let chunks: [usize; 7] = [16384, 300000, 300000, 1, 524288, 70000, 5];
    let mut carried: u64 = 0;
    let mut published: u64 = 0;
    for len in chunks {
        match chunk_step(carried, len, false) {
            ChunkStep::Write { publish, carry } => {
                published += publish;
                carried = carry;
                assert!(carried < PROGRESS_UPDATE_THRESHOLD);
            }
            ChunkStep::Abort => panic!("no pause was asked for"),
        }
    }
    let total: u64 = chunks.iter().map(|n| *n as u64).sum();
    assert_eq!(published + carried, total);
}
