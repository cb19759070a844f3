use fget::downloader::{
    build_client, check_content_length, effective_threads, format_byte_length,
    format_header_lines, format_range, get_download_info, make_parts, merge_parts, output_path,
    part_request, pick_addr_index, temp_path, DownloadObserver, DownloadState, DownloadStatus,
    PartWorker,
};
use fget::errors::FetchError;
use fget::httpx::HttpResponse;
use fget::urlinfo::UrlInfo;
use fget::Config;

fn headers(pairs: &[(&str, &str)]) -> Vec<(String, String)> {
    pairs
        .iter()
        .map(|(k, v)| (k.to_string(), v.to_string()))
        .collect()
}

fn config(url: &str) -> Config {
    Config::build(url.to_string(), None, None, 4, false, false, 10).unwrap()
}

#[test]
fn test_config_build_validates_threads() {
    assert!(Config::build("u".into(), None, None, 0, false, false, 10).is_err());
    assert!(Config::build("u".into(), None, None, 33, false, false, 10).is_err());
    let cfg = Config::build("u".into(), None, None, 32, true, true, 5).unwrap();
    assert_eq!(32, cfg.num_threads);
    assert!(cfg.info);
    assert!(cfg.no_redirect);
    assert_eq!(5, cfg.timeout);
}

#[test]
fn test_make_error_keeps_message() {
    let e = fget::make_error("something broke");
    assert_eq!("something broke", e.message().as_str());
}

#[test]
fn test_download_info_extraction() {
    let resp = HttpResponse {
        status: 200,
        headers: headers(&[
            ("Content-Length", "1000"),
            ("Accept-Ranges", "bytes"),
            ("Content-Type", "application/octet-stream"),
        ]),
    };
    let d = get_download_info(&resp).unwrap();
    assert_eq!(1000, d.len);
    assert!(d.range_supported);
    assert_eq!("application/octet-stream", d.content_type.as_str());
}

#[test]
fn test_download_info_keys_ignore_case() {
    let resp = HttpResponse {
        status: 200,
        headers: headers(&[("CONTENT-LENGTH", "42"), ("ACCEPT-RANGES", "bytes")]),
    };
    let d = get_download_info(&resp).unwrap();
    assert_eq!(42, d.len);
    assert!(d.range_supported);
}

#[test]
fn test_download_info_bad_length_is_fatal() {
    let resp = HttpResponse {
        status: 200,
        headers: headers(&[("Content-Length", "ten")]),
    };
    assert!(matches!(get_download_info(&resp), Err(FetchError::MalformedHeader)));
}

// Content-Length: 0, or none at all, refuses the download
#[test]
fn test_empty_content_length() {
    let resp = HttpResponse {
        status: 200,
        headers: headers(&[("Content-Length", "0")]),
    };
    let d = get_download_info(&resp).unwrap();
    assert!(matches!(
        check_content_length(&d),
        Err(FetchError::EmptyContentLength)
    ));
    let resp2 = HttpResponse { status: 200, headers: headers(&[]) };
    let d2 = get_download_info(&resp2).unwrap();
    assert!(check_content_length(&d2).is_err());
}

// without Accept-Ranges: bytes the fan-out collapses to one part
#[test]
fn test_effective_threads_forced_to_one() {
    assert_eq!(1, effective_threads(false, 8));
    assert_eq!(8, effective_threads(true, 8));
    let resp = HttpResponse {
        status: 200,
        headers: headers(&[("Content-Length", "10"), ("Accept-Ranges", "none")]),
    };
    let d = get_download_info(&resp).unwrap();
    assert!(!d.range_supported);
}

// four parts over 1000 bytes: the ranges of the ranged-GET scenario
#[test]
fn test_partition_four_parts() {
    let parts = make_parts(1000, 4);
    assert_eq!(vec![(0, 249), (250, 499), (500, 749), (750, 999)], parts);
    assert_eq!("bytes=0-249", format_range(0, 249).as_str());
    assert_eq!("bytes=750-999", format_range(750, 999).as_str());
}

#[test]
fn test_partition_covers_exactly() {
    for (len, n) in [(10u64, 3u8), (1u64, 1u8), (7u64, 7u8), (1000u64, 32u8)] {
        let parts = make_parts(len, n);
        assert_eq!(n as usize, parts.len());
        assert_eq!(0, parts[0].0);
        assert_eq!(len - 1, parts[n as usize - 1].1);
        let mut count = 0u64;
        for (s, e) in &parts {
            if s <= e {
                count += e - s + 1;
            }
        }
        assert_eq!(len, count);
        for w in parts.windows(2) {
            if w[0].0 <= w[0].1 {
                assert_eq!(w[0].1 + 1, w[1].0);
            }
        }
    }
}

// more parts than bytes: one byte each, then empty ranges
#[test]
fn test_partition_more_parts_than_bytes() {
    let parts = make_parts(3, 5);
    assert_eq!(vec![(0, 0), (1, 1), (2, 2), (3, 2), (4, 2)], parts);
}

// a worker's progress deltas sum to its range length
#[test]
fn test_worker_progress_sums_to_range() {
    let (mut w, started) = PartWorker::start_part(1, 250, 499, "/tmp/f.1".to_string());
    assert!(matches!(started, DownloadStatus::Started(1, 250)));
    let mut reported = Vec::new();
    let mut last = 0u64;
    for chunk in [100u64, 100, 50] {
        match w.on_chunk(chunk) {
            DownloadStatus::Progress(1, pos) => {
                reported.push(pos - last);
                last = pos;
            }
            other => panic!("unexpected event {:?}", other),
        }
    }
    let total: u64 = reported.iter().sum();
    assert_eq!(250u64, total);
    assert!(matches!(w.finish(), DownloadStatus::Done(1, _)));
}

#[test]
fn test_worker_short_read_fails() {
    let (mut w, _) = PartWorker::start_part(0, 0, 9, "/tmp/f.0".to_string());
    w.on_chunk(4);
    assert!(matches!(w.finish(), DownloadStatus::Failed(0, _)));
}

// a zero-byte range completes with no progress events
#[test]
fn test_worker_empty_range() {
    let (w, started) = PartWorker::start_part(4, 3, 2, "/tmp/f.4".to_string());
    assert!(matches!(started, DownloadStatus::Started(4, 0)));
    assert!(matches!(w.finish(), DownloadStatus::Done(4, _)));
}

#[derive(Default)]
struct RecordingObserver {
    calls: Vec<String>,
}

impl DownloadObserver for RecordingObserver {
    fn on_init(&mut self, len: usize) {
        self.calls.push(format!("init {}", len));
    }
    fn on_download_start(&mut self, idx: u8, len: u64) {
        self.calls.push(format!("start {} {}", idx, len));
    }
    fn on_progress(&mut self, idx: u8, pos: u64) {
        self.calls.push(format!("progress {} {}", idx, pos));
    }
    fn on_download_end(&mut self, idx: u8) {
        self.calls.push(format!("end {}", idx));
    }
}

// single-part download, end to end at the event level: started, progressed,
// done, merged output identical to the body
#[test]
fn test_single_part_download_events_and_merge() {
    let body: Vec<u8> = (0u8..10).collect();
    let resp = HttpResponse {
        status: 200,
        headers: headers(&[("Content-Length", "10")]),
    };
    let d = get_download_info(&resp).unwrap();
    assert!(!d.range_supported);
    let n = effective_threads(d.range_supported, 4);
    assert_eq!(1, n);
    let parts = make_parts(d.len, n);
    assert_eq!(vec![(0, 9)], parts);

    let mut ob = RecordingObserver::default();
    ob.on_init(n as usize);
    let mut state = DownloadState::init(n);
    let (mut w, started) = PartWorker::start_part(0, 0, 9, "/tmp/file.bin.0".to_string());
    assert!(!state.on_status(started, &mut ob).unwrap());
    let ev = w.on_chunk(10);
    assert!(!state.on_status(ev, &mut ob).unwrap());
    let done = w.finish();
    assert!(state.on_status(done, &mut ob).unwrap());
    assert_eq!(
        vec!["init 1", "start 0 10", "progress 0 10", "end 0"],
        ob.calls
    );
    assert_eq!("/tmp/file.bin.0", state.parts[0].as_str());

    let merged = merge_parts(&vec![body.clone()]);
    assert_eq!(body, merged);
}

// a failed part aborts the whole download with its index and cause
#[test]
fn test_failed_part_aborts() {
    let mut ob = RecordingObserver::default();
    let mut state = DownloadState::init(4);
    let r = state.on_status(
        DownloadStatus::Failed(2, "server response error: 500".to_string()),
        &mut ob,
    );
    match r {
        Err(FetchError::DownloadFailed(2, cause)) => {
            assert_eq!("server response error: 500", cause.as_str());
        }
        other => panic!("unexpected {:?}", other),
    }
    assert_eq!(vec!["end 2"], ob.calls);
}

// merged output is the concatenation of the parts in index order
#[test]
fn test_merge_concatenates_in_order() {
    let parts = vec![vec![0u8, 1, 2], vec![3, 4], vec![], vec![5]];
    assert_eq!(vec![0u8, 1, 2, 3, 4, 5], merge_parts(&parts));
}

#[test]
fn test_part_request_carries_range_header() {
    let cfg = config("https://host/f");
    let ui = UrlInfo::parse("https://host/f").unwrap();
    let p = part_request(&cfg, &ui, 500, 749).unwrap();
    assert!(p.request_text.contains("Range: bytes=500-749\r\n"));
    assert!(p.request_text.starts_with("GET /f HTTP/1.1\r\n"));
    assert!(p.tls);
}

#[test]
fn test_build_client_honours_config() {
    let mut cfg = config("http://h.test/f");
    cfg.no_redirect = true;
    cfg.timeout = 3;
    cfg.user_agent = Some("agent/2".to_string());
    let ui = UrlInfo::parse("http://h.test/f").unwrap();
    let c = build_client(&cfg, &ui).unwrap();
    assert_eq!(fget::httpx::RedirectPolicy::NoFollow, c.cfg.redirect_policy);
    assert_eq!(3000, c.cfg.timeout_ms);
    assert_eq!("agent/2", c.cfg.user_agent.as_str());
}

// info mode prints each header as `key: value`, one per line
#[test]
fn test_format_header_lines() {
    let hs = headers(&[("Content-Length", "10"), ("Server", "nginx")]);
    let lines = format_header_lines(&hs);
    assert_eq!(vec!["Content-Length: 10", "Server: nginx"], lines);
}

#[test]
fn test_format_byte_length_scales() {
    assert_eq!("5 B", format_byte_length(5).as_str());
    assert_eq!("1 kB", format_byte_length(1024).as_str());
    assert_eq!("243 MB", format_byte_length(243 * 1024 * 1024).as_str());
    assert_eq!("2 GB", format_byte_length(2 * 1024 * 1024 * 1024).as_str());
}

#[test]
fn test_temp_path_layout() {
    assert_eq!("/tmp/file.bin.3", temp_path("/tmp", "file.bin", 3).as_str());
}

#[test]
fn test_output_path_prefers_option() {
    let ui = UrlInfo::parse("http://h.test/f.bin").unwrap();
    let mut cfg = config("http://h.test/f.bin");
    assert_eq!("f.bin", output_path(&cfg, &ui).as_str());
    cfg.output = Some("out.dat".to_string());
    assert_eq!("out.dat", output_path(&cfg, &ui).as_str());
}

// the first IPv4 address wins; otherwise the first of all
#[test]
fn test_pick_addr_prefers_ipv4() {
    assert_eq!(None, pick_addr_index(&vec![]));
    assert_eq!(Some(0), pick_addr_index(&vec![false, false]));
    assert_eq!(Some(1), pick_addr_index(&vec![false, true, true]));
    assert_eq!(Some(0), pick_addr_index(&vec![true, false]));
}

#[test]
fn test_error_messages() {
    assert_eq!(
        "server response error: 500",
        FetchError::ServerError(500).message().as_str()
    );
    assert_eq!(
        "download failed at part 2: boom",
        FetchError::DownloadFailed(2, "boom".to_string()).message().as_str()
    );
    assert_eq!("connection timed out", FetchError::ConnectTimeout.message().as_str());
    assert_eq!("content length is zero", FetchError::EmptyContentLength.message().as_str());
}

// four ranged parts of a 1000-byte resource merge back to the resource
#[test]
fn test_four_part_merge_rebuilds_resource() {
    let resource: Vec<u8> = (0..1000u32).map(|i| (i % 256) as u8).collect();
    let parts = make_parts(1000, 4);
    let contents: Vec<Vec<u8>> = parts
        .iter()
        .map(|(s, e)| resource[*s as usize..=*e as usize].to_vec())
        .collect();
    let merged = merge_parts(&contents);
    assert_eq!(1000, merged.len());
    assert_eq!(resource, merged);
    for (i, b) in merged.iter().enumerate() {
        assert_eq!((i % 256) as u8, *b);
    }
}
