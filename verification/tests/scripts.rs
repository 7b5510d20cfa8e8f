use passage::{convert_to_utf8, extract_wget_urls, PassageError};

#[test]
fn utf8_bytes_are_kept() {
    let text = "wget https://example.org/a 中文";
    assert_eq!(convert_to_utf8(text.as_bytes()).unwrap(), text);
    assert_eq!(convert_to_utf8(b"").unwrap(), "");
}

#[test]
fn other_encodings_are_detected() {
    let (bytes, _, _) = encoding_rs::GBK.encode("下载配置文件 wget https://example.org/cfg.json 完成后请重新启动客户端程序");
    let bytes = bytes.into_owned();
    assert!(std::str::from_utf8(&bytes).is_err());
    let mut detector = chardetng::EncodingDetector::new(chardetng::Iso2022JpDetection::Deny);
    detector.feed(&bytes, true);
    let enc = detector.guess(None, chardetng::Utf8Detection::Allow);
    let (expected, _, had_errors) = enc.decode(&bytes);
    match convert_to_utf8(&bytes) {
        Ok(text) => {
            assert!(!had_errors);
            assert_eq!(text, expected);
        }
        Err(PassageError::InvalidEncoding(name)) => {
            assert!(had_errors);
            assert_eq!(name, enc.name());
        }
        Err(e) => panic!("unexpected {:?}", e),
    }
}

#[test]
fn urls_after_wget() {
    let script = "@echo off\r\nwget -O a.json https://a.example/x?y=1 \r\nrem wget nothing\nwget http://b.example/z\nwget https:// broken http://c.example/ok\n";
    let urls = extract_wget_urls(script).unwrap();
    assert_eq!(
        urls,
        vec![
            "https://a.example/x?y=1".to_string(),
            "http://b.example/z".to_string(),
            "http://c.example/ok".to_string(),
        ]
    );
}

#[test]
fn urls_agree_with_regex() {
    let re = regex::Regex::new(r"wget.*?(https?://\S+)").unwrap();
    let cases = [
        "wget https://a wget http://b",
        "wgetwget https://x\nhttps://y",
        "wget\nhttps://no-same-line",
        "xwget  -q  http://a/b\u{3000}c https://d",
        "wget https://a.b/c/wgethttps://d",
        "wget httpx://a https://ok",
        "wget http://",
        "",
    ];
    for text in cases {
        let theirs: Vec<String> = re.captures_iter(text).map(|c| c[1].to_string()).collect();
        match extract_wget_urls(text) {
            Ok(ours) => assert_eq!(ours, theirs, "text {:?}", text),
            Err(PassageError::NoUrls) => assert!(theirs.is_empty(), "text {:?}", text),
            Err(e) => panic!("unexpected {:?}", e),
        }
    }
}

#[test]
fn no_urls_is_an_error() {
    assert!(matches!(extract_wget_urls("echo nothing"), Err(PassageError::NoUrls)));
}
