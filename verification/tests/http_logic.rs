use su::range::{parse_range, find_header, ByteRange};
use su::route::{route, Route};
use su::upload::{guess_device, device_from_ua, upload_file_name, content_disposition, rename_candidate,
    parse_expected_count, upload_start_reply, UploadStartReply, user_agent, pending_id, stem_and_extension};
use su::pages::{inject_lang, render_download_page, content_range, font_asset, font_mime, FontAsset, read_page, Page,
    download_url_exec, expired_page, mime_for};

#[test]
fn range_partial_and_whole() {
    assert_eq!(parse_range(Some("bytes=0-99"), 1000), ByteRange { start: 0, end: 99, status: 206, content_len: 100 });
    assert_eq!(parse_range(Some("bytes=500-"), 1000), ByteRange { start: 500, end: 999, status: 206, content_len: 500 });
    assert_eq!(parse_range(Some("bytes=900-5000"), 1000), ByteRange { start: 900, end: 999, status: 206, content_len: 100 });
    let whole = ByteRange { start: 0, end: 999, status: 200, content_len: 1000 };
    assert_eq!(parse_range(None, 1000), whole);
    assert_eq!(parse_range(Some("items=0-1"), 1000), whole);
    assert_eq!(parse_range(Some("bytes=0-1-2"), 1000), whole);
    assert_eq!(parse_range(Some("bytes=1000-"), 1000), whole);
    assert_eq!(parse_range(Some("bytes=5-2"), 1000), whole);
    // An unreadable start counts as 0, an unreadable end as the last byte.
    assert_eq!(parse_range(Some("bytes=x-9"), 1000), ByteRange { start: 0, end: 9, status: 206, content_len: 10 });
    assert_eq!(parse_range(Some("bytes=10-y"), 1000), ByteRange { start: 10, end: 999, status: 206, content_len: 990 });
    assert_eq!(parse_range(Some("bytes=0-0"), 0), ByteRange { start: 0, end: 0, status: 200, content_len: 0 });
}

#[test]
fn header_lookup_ignores_case() {
    let h = vec![("Host".to_string(), "x".to_string()), ("RANGE".to_string(), "bytes=1-2".to_string()),
        ("range".to_string(), "bytes=3-4".to_string())];
    let r: Vec<char> = "range".chars().collect();
    assert_eq!(find_header(&h, &r), Some("bytes=1-2".to_string()));
    let h2 = vec![("user-agent".to_string(), "Mozilla (iPhone)".to_string())];
    assert_eq!(user_agent(&h2), "Mozilla (iPhone)");
    assert_eq!(user_agent(&[]), "");
}

fn route_name(r: Route) -> String {
    match r {
        Route::Preflight => "pre".into(),
        Route::SendPage => "send".into(),
        Route::UploadStart => "upstart".into(),
        Route::Upload => "up".into(),
        Route::CliForward => "cli".into(),
        Route::BundlePage(s) => format!("bundle:{}", s),
        Route::RawFile(s) => format!("raw:{}", s),
        Route::DownloadPage(s) => format!("page:{}", s),
        Route::I18n => "i18n".into(),
        Route::Font(s) => format!("font:{}", s),
        Route::NotFound => "404".into(),
    }
}

#[test]
fn routing_table() {
    assert_eq!(route_name(route("/anything", "OPTIONS")), "pre");
    assert_eq!(route_name(route("/", "GET")), "send");
    assert_eq!(route_name(route("/", "POST")), "404");
    assert_eq!(route_name(route("/upload-start", "POST")), "upstart");
    assert_eq!(route_name(route("/upload?name=a.txt", "POST")), "up");
    assert_eq!(route_name(route("/upload-start", "GET")), "404");
    assert_eq!(route_name(route("/cli", "POST")), "cli");
    assert_eq!(route_name(route("/s/abc//", "GET")), "bundle:abc");
    assert_eq!(route_name(route("/s/abc", "POST")), "404");
    assert_eq!(route_name(route("/d/abc?dl=1", "GET")), "raw:abc");
    assert_eq!(route_name(route("/d/abc?dl=1", "HEAD")), "page:abc");
    assert_eq!(route_name(route("/d/abc", "GET")), "page:abc");
    assert_eq!(route_name(route("/i18n.js", "GET")), "i18n");
    assert_eq!(route_name(route("/fonts/all.min.css", "GET")), "font:all.min.css");
    assert_eq!(route_name(route("/v/abc?x", "GET")), "raw:abc?x");
    assert_eq!(route_name(route("/nope", "GET")), "404");
}

#[test]
fn devices() {
    assert_eq!(guess_device("Mozilla/5.0 (IPHONE; CPU iPhone OS)"), "iPhone");
    assert_eq!(guess_device("Mozilla/5.0 (Linux; Android 14)"), "Android");
    assert_eq!(guess_device("Mozilla/5.0 (Windows NT 10.0)"), "Windows");
    assert_eq!(guess_device("Mozilla/5.0 (Macintosh)"), "Mac");
    assert_eq!(guess_device("X11; Linux x86_64"), "Linux");
    assert_eq!(guess_device(""), "Unknown");
    assert_eq!(device_from_ua("iphone lower case"), "Unknown");
    assert_eq!(device_from_ua("Mozilla (iPad)"), "iPhone");
    assert_eq!(device_from_ua("Mac OS X"), "Mac");
}

#[test]
fn upload_names() {
    assert_eq!(upload_file_name("/upload?name=a%20b.txt"), "a b.txt");
    assert_eq!(upload_file_name("/upload?x=1&name=%E4%BD%A0.png"), "\u{4f60}.png");
    assert_eq!(upload_file_name("/upload"), "received_file");
    assert_eq!(upload_file_name("/upload?x=1"), "received_file");
    assert_eq!(upload_file_name("/upload?name=%FF"), "received_file");
    assert_eq!(upload_file_name("/upload?name=a+b%2"), "a+b%2");
    assert_eq!(upload_file_name("/upload?a?name=z"), "received_file");
}

#[test]
fn dispositions() {
    assert_eq!(content_disposition("report \"final\".pdf"), "attachment; filename=\"report final.pdf\"");
    assert_eq!(content_disposition("\u{4f60}\u{597d}.txt"), "attachment; filename*=UTF-8''%E4%BD%A0%E5%A5%BD.txt");
    assert_eq!(content_disposition("a\tb"), "attachment; filename*=UTF-8''a%09b");
}

#[test]
fn rename_and_counts() {
    assert_eq!(rename_candidate("photo", "jpg", 2), "photo (2).jpg");
    assert_eq!(rename_candidate("README", "", 3), "README (3)");
    assert_eq!(parse_expected_count(" 12\n"), 12);
    assert_eq!(parse_expected_count("abc"), 0);
    assert_eq!(parse_expected_count("\u{3000}5\u{00a0}"), 5);
    assert_eq!(upload_start_reply(true, None), UploadStartReply::Accepted);
    assert_eq!(upload_start_reply(false, Some(true)).status(), 200);
    assert_eq!(upload_start_reply(false, Some(false)).status(), 403);
    assert_eq!(upload_start_reply(false, None), UploadStartReply::Rejected);
    let id = pending_id();
    assert_eq!(id.len(), 10);
    assert!(id.chars().all(|c| c.is_ascii_alphanumeric()));
}

#[test]
fn pages_and_assets() {
    assert_eq!(inject_lang("<html><head></head><head></head>", "en", "auto"),
        "<html><head><script>window.__SU_LANG=\"en\";window.__SU_LANG_MODE=\"auto\"</script></head><head></head>");
    assert_eq!(inject_lang("<p>no head</p>", "en", "auto"), "<p>no head</p>");
    assert_eq!(render_download_page("<head></head>__NAME__|__SIZE__|__URL__|__NAME__", "ja", "server", "a.txt", 2048, "/d/x?dl=1"),
        "<head><script>window.__SU_LANG=\"ja\";window.__SU_LANG_MODE=\"server\"</script></head>a.txt|2.0 KB|/d/x?dl=1|a.txt");
    assert_eq!(content_range(0, 99, 1000), "bytes 0-99/1000");
    assert_eq!(font_asset("all.min.css"), Some(FontAsset::AllMinCss));
    assert_eq!(font_asset("x.css"), None);
    assert_eq!(font_mime("x.css"), "text/css");
    assert_eq!(font_mime("fa-solid-900.woff2"), "font/woff2");
    assert_eq!(font_mime("x.bin"), "application/octet-stream");
    assert_eq!(read_page("settings-receive").unwrap(), Page::SettingsReceive);
    assert_eq!(read_page("nope").unwrap_err(), "Unknown page: nope");
    assert_eq!(download_url_exec("ab12"), "/d/ab12?dl=1");
    assert!(expired_page().contains("Share Expired"));
}

#[test]
fn share_links_route_back() {
    for id in ["k3j9x0qa", "00000000", "zzzzzzzz"] {
        assert_eq!(route_name(route(&format!("/s/{}", id), "GET")), format!("bundle:{}", id));
        assert_eq!(route_name(route(&download_url_exec(id), "GET")), format!("raw:{}", id));
        assert_eq!(route_name(route(&format!("/d/{}", id), "GET")), format!("page:{}", id));
    }
}

#[test]
fn download_mime_types() {
    assert_eq!(mime_for("photo.PNG"), "image/png");
    assert_eq!(mime_for("report.pdf"), "application/pdf");
    assert_eq!(mime_for("notes.txt"), "text/plain");
    assert_eq!(mime_for("clip.mp4"), "video/mp4");
    assert_eq!(mime_for("archive.zzqq"), "application/octet-stream");
    assert_eq!(mime_for("README"), "application/octet-stream");
}

#[test]
fn stems_and_extensions() {
    let se = |n: Option<&str>| {
        let (a, b) = stem_and_extension(n);
        (a, b)
    };
    assert_eq!(se(Some("photo.jpg")), ("photo".to_string(), "jpg".to_string()));
    assert_eq!(se(Some("a.tar.gz")), ("a.tar".to_string(), "gz".to_string()));
    assert_eq!(se(Some(".bashrc")), (".bashrc".to_string(), "".to_string()));
    assert_eq!(se(Some("notes")), ("notes".to_string(), "".to_string()));
    assert_eq!(se(Some("a.")), ("a".to_string(), "".to_string()));
    assert_eq!(se(Some("..")), ("..".to_string(), "".to_string()));
    assert_eq!(se(None), ("file".to_string(), "".to_string()));
    for n in ["x.y.z", "..a", "a..b", ".", "dir/..", "文件.pdf", "d/e.f"] {
        let p = std::path::Path::new(n);
        let want_stem = p.file_stem().map(|s| s.to_string_lossy().to_string()).unwrap_or_else(|| "file".into());
        let want_ext = p.extension().map(|s| s.to_string_lossy().to_string()).unwrap_or_default();
        assert_eq!(se(p.file_name().and_then(|x| x.to_str())), (want_stem, want_ext), "{}", n);
    }
}
