use llmfit_core::header::GgufHeader;
use llmfit_core::scan::{HeaderScan, ScanStep};
use llmfit_core::remote::{
    join_redirect_url, parse_content_range_total, pick_quant_file, resolve_repo_gguf_url,
    resolve_url, RangeReader, RangeRequest, ResponseStep, SeekError, SeekTarget,
    DEFAULT_TRANSFER_CAP_BYTES, INITIAL_CHUNK_BYTES, MAX_CHUNK_BYTES,
};

#[test]
fn content_range_parser_handles_known_shapes() {
    assert_eq!(
        parse_content_range_total("bytes 0-262143/485452288"),
        Ok((0, 485452288))
    );
    assert_eq!(
        parse_content_range_total("bytes 512-767/*"),
        Err("unknown total ('*')".to_string())
    );
    assert!(parse_content_range_total("items 0-1/2").is_err());
}

#[test]
fn content_range_parser_reports_each_failure() {
    assert_eq!(
        parse_content_range_total("items 0-1/2"),
        Err("missing 'bytes ' unit".to_string())
    );
    assert_eq!(
        parse_content_range_total("bytes 0-1"),
        Err("missing '/' separator".to_string())
    );
    assert_eq!(
        parse_content_range_total("bytes 01/2"),
        Err("missing '-' in range".to_string())
    );
    assert_eq!(
        parse_content_range_total("bytes x-1/2"),
        Err("bad range start: invalid digit found in string".to_string())
    );
    assert_eq!(
        parse_content_range_total("bytes -1/2"),
        Err("bad range start: cannot parse integer from empty string".to_string())
    );
    assert_eq!(
        parse_content_range_total("bytes 99999999999999999999-1/2"),
        Err("bad range start: number too large to fit in target type".to_string())
    );
    assert_eq!(
        parse_content_range_total("bytes 5-9/ten"),
        Err("bad total size: invalid digit found in string".to_string())
    );
    assert_eq!(
        parse_content_range_total("  bytes  7 - 9 / 10 \r"),
        Ok((7, 10))
    );
    assert_eq!(
        parse_content_range_total("bytes +3-4/18446744073709551615"),
        Ok((3, u64::MAX))
    );
}

#[test]
fn redirect_urls_are_joined_at_the_root() {
    assert_eq!(
        join_redirect_url("https://hf.co/org/repo/resolve/main/f.gguf", " https://cdn.example/x "),
        Ok("https://cdn.example/x".to_string())
    );
    assert_eq!(
        join_redirect_url("http://a.example:8080/origin/model.gguf", "/weights.bin"),
        Ok("http://a.example:8080/weights.bin".to_string())
    );
    assert_eq!(
        join_redirect_url("http://a.example", "/w"),
        Ok("http://a.example/w".to_string())
    );
    assert_eq!(
        join_redirect_url("http://a.example/x", "   "),
        Err("empty redirect Location".to_string())
    );
    assert_eq!(
        join_redirect_url("no-scheme", "/w"),
        Err("cannot resolve relative redirect '/w' against 'no-scheme'".to_string())
    );
    assert_eq!(
        join_redirect_url("http://a.example/x", "w"),
        Err("unsupported relative redirect 'w' (expected absolute or root-relative)".to_string())
    );
}

#[test]
fn resolve_url_points_at_main() {
    assert_eq!(
        resolve_url("org/repo", "model-Q4_K_M.gguf"),
        "https://huggingface.co/org/repo/resolve/main/model-Q4_K_M.gguf"
    );
}

fn listing() -> Vec<(String, u64)> {
    vec![
        ("big-Q8_0-00002-of-00002.gguf".to_string(), 20),
        ("big-Q8_0-00001-of-00002.gguf".to_string(), 21),
        ("small-q4_k_m.gguf".to_string(), 4),
        ("small-Q8_0.gguf".to_string(), 8),
        ("a-Q8_0.gguf".to_string(), 9),
    ]
}

#[test]
fn quant_variant_prefers_single_files_then_name_order() {
    let files = listing();
    assert_eq!(
        resolve_repo_gguf_url("org/r", Some("q8_0"), &files, None),
        Ok((
            "a-Q8_0.gguf".to_string(),
            "https://huggingface.co/org/r/resolve/main/a-Q8_0.gguf".to_string(),
            9
        ))
    );
    assert_eq!(
        resolve_repo_gguf_url("org/r", Some("Q4_K_M"), &files, None),
        Ok((
            "small-q4_k_m.gguf".to_string(),
            "https://huggingface.co/org/r/resolve/main/small-q4_k_m.gguf".to_string(),
            4
        ))
    );
    let shards = vec![files[0].clone(), files[1].clone()];
    assert_eq!(
        resolve_repo_gguf_url("org/r", Some("Q8_0"), &shards, None).unwrap().0,
        "big-Q8_0-00001-of-00002.gguf"
    );
}

#[test]
fn quant_variant_ties_keep_the_first_listed() {
    let files = vec![("m-Q8_0.gguf".to_string(), 1), ("m-Q8_0.gguf".to_string(), 2)];
    assert_eq!(pick_quant_file(&files, &['Q', '8']), Some(0));
    assert_eq!(resolve_repo_gguf_url("o/r", Some("q8"), &files, None).unwrap().2, 1);
}

#[test]
fn repo_resolution_errors() {
    assert_eq!(
        resolve_repo_gguf_url("org/r", Some("Q4_0"), &Vec::new(), None),
        Err("no GGUF files found in repo 'org/r'".to_string())
    );
    let files = vec![("a.gguf".to_string(), 1), ("b.gguf".to_string(), 2)];
    assert_eq!(
        resolve_repo_gguf_url("org/r", Some("Q4_0"), &files, None),
        Err("no GGUF file matching quant 'Q4_0' in repo 'org/r' (files: a.gguf, b.gguf)".to_string())
    );
    assert_eq!(
        resolve_repo_gguf_url("org/r", None, &files, None),
        Err("no usable GGUF candidate in repo 'org/r'".to_string())
    );
    assert_eq!(
        resolve_repo_gguf_url("org/r", None, &files, Some(("b.gguf".to_string(), 2))),
        Ok((
            "b.gguf".to_string(),
            "https://huggingface.co/org/r/resolve/main/b.gguf".to_string(),
            2
        ))
    );
}

#[test]
fn seek_end_requires_known_total() {
    let mut rr = RangeReader::new("http://127.0.0.1:9/model.gguf");
    assert!(rr.seek(SeekTarget::End(-4)).is_err());
}

#[test]
fn seeks_follow_start_current_and_end() {
    let mut rr = RangeReader::new("http://h/m");
    assert_eq!(rr.seek(SeekTarget::Start(100)), Ok(100));
    assert_eq!(rr.seek(SeekTarget::Current(-40)), Ok(60));
    assert_eq!(rr.seek(SeekTarget::Current(-61)), Err(SeekError::OutOfBounds));
    assert_eq!(rr.seek(SeekTarget::End(-1)), Err(SeekError::NeedsTotalSize));
    assert_eq!(
        SeekError::NeedsTotalSize.message(),
        "SeekFrom::End needs a known total size (fetch first)"
    );
    assert_eq!(rr.seek(SeekTarget::Start(u64::MAX)), Ok(u64::MAX));
    assert_eq!(rr.seek(SeekTarget::Current(1)), Err(SeekError::OutOfBounds));
}

/// Drives one fetch of the reader against a fake server holding `blob`.
fn serve(rr: &mut RangeReader, blob: &[u8], ranges: bool) -> Result<(), String> {
    let mut req: RangeRequest = rr.begin_fetch()?;
    let start = req.start as usize;
    let end = (req.end as usize).min(blob.len().saturating_sub(1).max(start));
    let (status, content_range) = if ranges && start < blob.len() {
        (206u16, Some(format!("bytes {start}-{end}/{}", blob.len())))
    } else if ranges {
        (206u16, None)
    } else {
        (200u16, None)
    };
    let body: &[u8] = if !ranges {
        blob
    } else if start < blob.len() {
        &blob[start..=end]
    } else {
        &[]
    };
    match rr.on_response(&mut req, status, None, content_range.as_deref())? {
        ResponseStep::Redirected => Err("unexpected redirect".to_string()),
        ResponseStep::Body { want, .. } => {
            let take = body.len().min(want as usize);
            rr.finish_fetch(req.start, body[..take].to_vec());
            Ok(())
        }
    }
}

fn read(rr: &mut RangeReader, blob: &[u8], n: usize) -> Result<Vec<u8>, String> {
    read_counting(rr, blob, n, &mut 0)
}

/// Reads `n` bytes (or up to the end), counting the range requests made.
fn read_counting(
    rr: &mut RangeReader,
    blob: &[u8],
    n: usize,
    hits: &mut usize,
) -> Result<Vec<u8>, String> {
    let mut out = Vec::new();
    while out.len() < n {
        if rr.needs_fetch() {
            *hits += 1;
            serve(rr, blob, true)?;
        }
        assert!(rr.window_ready());
        let got = rr.read_buffered(n - out.len());
        if got.is_empty() {
            break;
        }
        out.extend(got);
    }
    Ok(out)
}

fn sample_blob(len: usize) -> Vec<u8> {
    (0..len).map(|i| (i % 251) as u8).collect()
}

#[test]
fn reader_starts_with_the_documented_defaults() {
    let rr = RangeReader::new("http://h/m");
    assert_eq!(rr.transferred(), 0);
    assert_eq!(rr.total_size(), None);
    assert_eq!(rr.want(), INITIAL_CHUNK_BYTES);
    assert_eq!(RangeReader::new("x").chunk_bytes(0).want(), 1);
    assert_eq!(RangeReader::new("x").transfer_cap(10).want(), 10);
    assert_eq!(DEFAULT_TRANSFER_CAP_BYTES, 32 * 1024 * 1024);
}

#[test]
fn sequential_read_spans_multiple_requests_with_growing_chunks() {
    let blob = sample_blob(700_000); // 256 KiB first chunk + a 512 KiB one
    let mut rr = RangeReader::new("http://h/m").chunk_bytes(256 * 1024);
    let mut hits = 0;
    assert_eq!(read_counting(&mut rr, &blob, blob.len(), &mut hits).unwrap(), blob);
    assert_eq!(hits, 2);
    assert_eq!(rr.transferred(), blob.len() as u64);
    assert_eq!(rr.total_size(), Some(blob.len() as u64));
    // The first chunk was full, so the second request asked for 512 KiB;
    // it came back short, so the chunk stays there.
    assert_eq!(rr.want(), 512 * 1024);
}

#[test]
fn chunk_growth_stops_at_the_maximum() {
    let blob = sample_blob(40 * 1024 * 1024);
    let mut rr = RangeReader::new("http://h/m")
        .chunk_bytes(12 * 1024 * 1024)
        .transfer_cap(u64::MAX);
    serve(&mut rr, &blob, true).unwrap();
    assert_eq!(rr.want(), MAX_CHUNK_BYTES);
}

#[test]
fn seek_backward_refetches_correct_window() {
    let blob = sample_blob(300_000);
    let mut rr = RangeReader::new("http://h/m");
    rr.seek(SeekTarget::Start(250_000)).unwrap();
    assert_eq!(read(&mut rr, &blob, 8).unwrap(), &blob[250_000..250_008]);
    rr.seek(SeekTarget::Start(42)).unwrap();
    assert_eq!(read(&mut rr, &blob, 16).unwrap(), &blob[42..58]);
}

#[test]
fn seek_current_skips_without_reading_through() {
    let blob = sample_blob(100_000);
    let mut rr = RangeReader::new("http://h/m").chunk_bytes(64 * 1024);
    let mut hits = 0;
    assert_eq!(read_counting(&mut rr, &blob, 4, &mut hits).unwrap(), &blob[..4]);
    rr.seek(SeekTarget::Current(90_000)).unwrap(); // beyond current window
    assert!(rr.needs_fetch());
    let late = read_counting(&mut rr, &blob, 4, &mut hits).unwrap();
    assert_eq!(late, &blob[90004..90008]);
    // First chunk (64 KiB) + one fetch starting at 90004.
    assert_eq!(hits, 2);
    assert!(rr.transferred() < 140_000);
}

#[test]
fn transfer_budget_is_enforced() {
    let blob = sample_blob(600_000);
    let mut rr = RangeReader::new("http://h/m")
        .chunk_bytes(64 * 1024)
        .transfer_cap(100_000);
    rr.seek(SeekTarget::Start(50_000)).unwrap();
    let err = read(&mut rr, &blob, 500_000).unwrap_err();
    assert!(err.contains("transfer budget"), "{err}");
    assert_eq!(err, "remote header inspection exceeded its 0 MiB transfer budget");
    assert!(rr.take_last_fatal().is_some());
    assert!(rr.take_last_fatal().is_none());
    assert!(rr.transferred() <= 100_000);
}

#[test]
fn server_without_range_support_errors_clearly_after_first_chunk() {
    let blob = sample_blob(400_000);
    let mut rr = RangeReader::new("http://h/m").chunk_bytes(64 * 1024);
    serve(&mut rr, &blob, false).unwrap(); // 200 tolerated at offset 0
    assert_eq!(rr.read_buffered(4), &blob[..4]);
    rr.seek(SeekTarget::Start(200_000)).unwrap();
    assert!(rr.needs_fetch());
    let err = serve(&mut rr, &blob, false).unwrap_err();
    assert!(err.contains("byte ranges"), "{err}");
    assert_eq!(
        err,
        "server did not honor byte ranges (status 200 for bytes=200000-331071)"
    );
}

#[test]
fn redirect_is_resolved_once_then_reused_directly() {
    let mut rr = RangeReader::new("http://origin.example/origin/model.gguf").chunk_bytes(16);
    let mut req = rr.begin_fetch().unwrap();
    assert_eq!(req.url, "http://origin.example/origin/model.gguf");
    assert_eq!((req.start, req.end), (0, 15));
    let step = rr
        .on_response(&mut req, 302, Some("http://cdn.example/weights.bin"), None)
        .unwrap();
    assert!(matches!(step, ResponseStep::Redirected));
    assert_eq!(req.url, "http://cdn.example/weights.bin");
    assert_eq!(req.redirects, 1);
    match rr
        .on_response(&mut req, 206, None, Some("bytes 0-15/100"))
        .unwrap()
    {
        ResponseStep::Body { want, warning } => {
            assert_eq!(want, 16);
            assert_eq!(warning, None);
        }
        ResponseStep::Redirected => panic!("expected a body"),
    }
    rr.finish_fetch(0, vec![7u8; 16]);
    assert_eq!(rr.total_size(), Some(100));
    rr.seek(SeekTarget::Start(50)).unwrap();
    let next = rr.begin_fetch().unwrap();
    assert_eq!(next.url, "http://cdn.example/weights.bin");
    assert_eq!((next.start, next.end), (50, 81));
}

#[test]
fn redirect_failures_are_reported() {
    let mut rr = RangeReader::new("http://o.example/m");
    let mut req = rr.begin_fetch().unwrap();
    let err = rr.on_response(&mut req, 301, None, None).unwrap_err();
    assert_eq!(err, "redirect 301 without a Location header");
    assert_eq!(rr.take_last_fatal(), Some(err));
    for _ in 0..5 {
        assert!(matches!(
            rr.on_response(&mut req, 307, Some("/again"), None),
            Ok(ResponseStep::Redirected)
        ));
    }
    let err = rr.on_response(&mut req, 307, Some("/again"), None).unwrap_err();
    assert_eq!(err, "too many redirects while resolving the file URL");
    let mut req = rr.begin_fetch().unwrap();
    let err = rr.on_response(&mut req, 302, Some("again"), None).unwrap_err();
    assert!(err.starts_with("unsupported relative redirect"));
    assert_eq!(rr.take_last_fatal(), Some("too many redirects while resolving the file URL".to_string()));
}

#[test]
fn wrong_range_start_and_bad_content_range() {
    let mut rr = RangeReader::new("http://o.example/m");
    rr.seek(SeekTarget::Start(10)).unwrap();
    let mut req = rr.begin_fetch().unwrap();
    let err = rr
        .on_response(&mut req, 206, None, Some("bytes 0-9/100"))
        .unwrap_err();
    assert_eq!(err, "server returned wrong range start (0, asked 10)");
    match rr.on_response(&mut req, 206, None, Some("bytes 10-19/*")).unwrap() {
        ResponseStep::Body { warning, .. } => assert_eq!(
            warning,
            Some("warning: unparseable Content-Range 'bytes 10-19/*': unknown total ('*')".to_string())
        ),
        ResponseStep::Redirected => panic!("expected a body"),
    }
    assert_eq!(rr.total_size(), None);
}

#[test]
fn seek_end_uses_the_advertised_total() {
    let blob = sample_blob(1000);
    let mut rr = RangeReader::new("http://h/m");
    assert_eq!(read(&mut rr, &blob, 1).unwrap(), &blob[..1]);
    assert_eq!(rr.seek(SeekTarget::End(-4)), Ok(996));
    assert_eq!(rr.seek(SeekTarget::End(-1001)), Err(SeekError::BeforeStart));
    assert_eq!(read(&mut rr, &blob, 10).unwrap(), &blob[996..]);
}

#[test]
fn transferred_never_exceeds_the_cap_across_reads_and_seeks() {
    let blob = sample_blob(600_000);
    let cap = 150_000;
    let mut rr = RangeReader::new("http://h/m").chunk_bytes(40_000).transfer_cap(cap);
    let mut failed = false;
    for (start, len) in [(0u64, 10usize), (90_000, 30_000), (5, 50_000), (300_000, 200_000), (10, 10)] {
        rr.seek(SeekTarget::Start(start)).unwrap();
        assert!(rr.transferred() <= cap);
        match read(&mut rr, &blob, len) {
            Ok(got) => assert_eq!(got, &blob[start as usize..start as usize + got.len()]),
            Err(e) => {
                assert!(e.contains("transfer budget"), "{e}");
                failed = true;
            }
        }
        assert!(rr.transferred() <= cap);
    }
    assert!(failed);
    assert!(rr.take_last_fatal().is_some());
}

fn lp_string(s: &str) -> Vec<u8> {
    let mut b = (s.len() as u64).to_le_bytes().to_vec();
    b.extend_from_slice(s.as_bytes());
    b
}

fn str_kv(key: &str, value: &str) -> Vec<u8> {
    let mut b = lp_string(key);
    b.extend_from_slice(&8u32.to_le_bytes());
    b.extend_from_slice(&lp_string(value));
    b
}

fn u32_kv(key: &str, value: u32) -> Vec<u8> {
    let mut b = lp_string(key);
    b.extend_from_slice(&4u32.to_le_bytes());
    b.extend_from_slice(&value.to_le_bytes());
    b
}

/// Reads a header through the reader as the runtime does: reading as the
/// scan asks and seeking over passed-over payloads.
fn scan_remote_header(rr: &mut RangeReader, blob: &[u8]) -> Result<GgufHeader, String> {
    let mut scan = HeaderScan::new();
    let mut ended = false;
    loop {
        match scan.step(ended, rr.total_size()) {
            ScanStep::Done(h) => return Ok(h),
            ScanStep::Failed(m) => return Err(m),
            ScanStep::Read { upto } => {
                let want = upto - scan.len();
                let got = read(rr, blob, want)?;
                if got.len() < want {
                    ended = true;
                }
                scan.push(&got);
            }
            ScanStep::SkipTo { offset } => {
                rr.seek(SeekTarget::Start(offset)).map_err(|e| e.message())?;
            }
        }
    }
}

#[test]
fn parses_remote_gguf_header_over_ranges() {
    // Hand-built minimal v3 header whose metadata includes an array big
    // enough to force skips across several range requests.
    let kvs: Vec<Vec<u8>> = vec![
        str_kv("general.architecture", "llama"),
        u32_kv("llama.block_count", 2),
        u32_kv("llama.attention.head_count", 8),
    ];
    let filler: Vec<u8> = (0..150_000u32).flat_map(|i| i.to_le_bytes()).collect();
    let mut array_kv = lp_string("tokenizer.ggml.scores");
    array_kv.extend_from_slice(&9u32.to_le_bytes()); // ARRAY
    array_kv.extend_from_slice(&6u32.to_le_bytes()); // of F32 elements
    array_kv.extend_from_slice(&(filler.len() as u64 / 4).to_le_bytes());
    array_kv.extend_from_slice(&filler);

    let tensor = {
        let name = b"token_embd.weight";
        let mut b = (name.len() as u64).to_le_bytes().to_vec();
        b.extend_from_slice(name);
        b.extend_from_slice(&2u32.to_le_bytes());
        b.extend_from_slice(&256u64.to_le_bytes());
        b.extend_from_slice(&128u64.to_le_bytes());
        b.extend_from_slice(&1u32.to_le_bytes()); // F16
        b.extend_from_slice(&0u64.to_le_bytes());
        b
    };

    let mut blob = b"GGUF".to_vec();
    blob.extend_from_slice(&3u32.to_le_bytes());
    blob.extend_from_slice(&1u64.to_le_bytes()); // tensors
    blob.extend_from_slice(&4u64.to_le_bytes()); // kvs
    for kv in &kvs {
        blob.extend_from_slice(kv);
    }
    blob.extend_from_slice(&array_kv);
    blob.extend_from_slice(&tensor);

    let mut rr = RangeReader::new("http://h/m").chunk_bytes(32 * 1024);
    let header = match scan_remote_header(&mut rr, &blob) {
        Ok(h) => h,
        Err(e) => panic!("parse failed: {e}; transferred={}", rr.transferred()),
    };

    assert_eq!(header.get_str("general.architecture"), Some("llama"));
    assert_eq!(header.get_u64("llama.block_count"), Some(2));
    assert_eq!(header.tensors.len(), 1);
    assert_eq!(header.tensors[0].name, "token_embd.weight");
    // The 150 KB array was skipped, not downloaded.
    assert!(rr.transferred() < blob.len() as u64 / 2);
}
