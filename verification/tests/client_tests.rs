use tile_mosaic::client::HttpReply;
use tile_mosaic::client::ReplyAction;
use tile_mosaic::client::SaveReport;
use tile_mosaic::client::build_tile_url;
use tile_mosaic::client::decide_reply;
use tile_mosaic::client::saved_outcome;
use tile_mosaic::client::status_is_success;
use tile_mosaic::client::tile_file_name;
use tile_mosaic::client::tile_file_path;
use tile_mosaic::client::u64_to_dec;
use tile_mosaic::grid::TileAddress;
use tile_mosaic::scheduler::FetchOutcome;

#[test]
fn decimal_rendering_is_exact() {
    assert_eq!(u64_to_dec(0), "0");
    assert_eq!(u64_to_dec(7), "7");
    assert_eq!(u64_to_dec(10), "10");
    assert_eq!(u64_to_dec(409), "409");
    assert_eq!(u64_to_dec(1234567890), "1234567890");
    assert_eq!(u64_to_dec(u64::MAX), "18446744073709551615");
}

#[test]
fn url_substitutes_zoom_row_and_column() {
    let addr = TileAddress { row: 12, col: 345 };
    let url = build_tile_url("https://tiles.example.test/wmts", addr);
    assert_eq!(
        url,
        "https://tiles.example.test/wmts?layer=ortho&style=default&format=image%2Fpng&tilematrixset=fixed&zoom=9&row=12&col=345"
    );
}

#[test]
fn file_name_is_deterministic_in_row_and_column() {
    let addr = TileAddress { row: 3, col: 41 };
    assert_eq!(tile_file_name(addr), "tile_3_41.png");
    assert_eq!(tile_file_path("out/tiles", addr), "out/tiles/tile_3_41.png");
}

#[test]
fn success_statuses_are_the_2xx_range() {
    assert!(status_is_success(200));
    assert!(status_is_success(204));
    assert!(status_is_success(299));
    assert!(!status_is_success(199));
    assert!(!status_is_success(300));
    assert!(!status_is_success(404));
    assert!(!status_is_success(500));
}

#[test]
fn a_success_reply_is_saved() {
    match decide_reply(HttpReply::Status { code: 200 }) {
        ReplyAction::SaveBody => {},
        ReplyAction::Fail { .. } => panic!("a 200 reply must be saved"),
    }
}

#[test]
fn a_404_reply_fails_with_that_status() {
    match decide_reply(HttpReply::Status { code: 404 }) {
        ReplyAction::Fail { outcome: FetchOutcome::HttpError { status } } => {
            assert_eq!(status, 404);
        },
        _ => panic!("a 404 reply must fail with its status"),
    }
}

#[test]
fn no_response_is_a_transport_failure() {
    let reply = HttpReply::TransportFailed { message: String::from("connection refused") };
    match decide_reply(reply) {
        ReplyAction::Fail { outcome: FetchOutcome::TransportError { message } } => {
            assert_eq!(message, "connection refused");
        },
        _ => panic!("no response must be a transport failure"),
    }
}

#[test]
fn a_saved_body_reports_bytes_and_path() {
    let path = String::from("out/tiles/tile_1_2.png");
    match saved_outcome(path.clone(), SaveReport::Wrote { bytes: 4096 }) {
        FetchOutcome::Fetched { bytes_written, path: p } => {
            assert_eq!(bytes_written, 4096);
            assert_eq!(p, path);
        },
        _ => panic!("a saved body must be a success outcome"),
    }
}

#[test]
fn a_failed_write_reports_the_writer_message() {
    let path = String::from("out/tiles/tile_1_2.png");
    match saved_outcome(path, SaveReport::SaveFailed { message: String::from("no space") }) {
        FetchOutcome::WriteError { message } => assert_eq!(message, "no space"),
        _ => panic!("a failed write must be a write-error outcome"),
    }
}
