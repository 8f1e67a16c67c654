use su::shares::{ShareStore, LocalFile, get_server_info, random_share_id, process_cli_paths, record_received,
    record_received_checked};
use su::reset::reset_to_defaults;
use su::settings::{AppSettings, close_action, CloseAction, flag_text, flag_set};
use su::batches::{UploadBatches, ReceiveSignal};
use su::pages::{bundle_page_plan, BundlePage, render_bundle_multi, shared_file_for};
use su::cli::{parse_cli_body, CliRequest, forward_request, parse_port_file, port_file_text, first_free_port, choose_port};
use su::netaddr::{choose_lan_ip, Interface};
use su::shellext::{register_shell_ext, clsid_string, RegOp, register_context_menu, unregister_context_menu,
    shortcut_script, E_FAIL, S_OK, Guid, ComObject, query_interface_status, get_class_object_status, extension_class,
    invoke_list, list_file_name_of, E_INVALIDARG, E_NOINTERFACE, CLASS_E_CLASSNOTAVAILABLE};
use su::cli::join_lines;
use std::collections::BTreeMap;

fn lf(path: &str, name: &str, size: u64) -> LocalFile {
    LocalFile { path: path.to_string(), name: name.to_string(), size }
}

#[test]
fn share_with_fixed_ids_then_stop() {
    let mut store = ShareStore::new();
    let files = vec![lf("/a/x.txt", "x.txt", 10), lf("/a/y.bin", "y.bin", 2048)];
    let r = store.share_files_with_ids(&files, "bund0001".to_string(),
        vec!["file0001".to_string(), "file0002".to_string()], "192.168.1.5", 52035);
    assert_eq!(r.id, "bund0001");
    assert_eq!(r.name, "2 files");
    assert_eq!(r.size, 2058);
    assert_eq!(r.url, "http://192.168.1.5:52035/s/bund0001");
    assert_eq!(r.files.len(), 2);
    assert_eq!(r.files[1].name, "y.bin");
    assert_eq!(store.files.len(), 2);
    let active = store.get_active_shares("192.168.1.5", 52035);
    assert_eq!(active.len(), 1);
    assert_eq!(active[0].size, 2058);
    store.stop_share(&"bund0001".to_string());
    assert_eq!(store.files.len(), 0);
    assert_eq!(store.bundles.len(), 0);
}

#[test]
fn single_file_bundle_name_and_page() {
    let mut store = ShareStore::new();
    let files = vec![lf("/a/x.txt", "x.txt", 10)];
    let r = store.share_files_with_ids(&files, "b1".to_string(), vec!["f1".to_string()], "10.0.0.2", 80);
    assert_eq!(r.name, "x.txt");
    match bundle_page_plan(&store, &"b1".to_string()) {
        BundlePage::Single { name, size, url } => {
            assert_eq!(name, "x.txt");
            assert_eq!(size, 10);
            assert_eq!(url, "/d/f1?dl=1");
        }
        _ => panic!("expected a single-file page"),
    }
    match bundle_page_plan(&store, &"zz".to_string()) {
        BundlePage::NotFound => {}
        _ => panic!("expected not found"),
    }
    let e = shared_file_for(&store, "f1//").unwrap();
    assert_eq!(e.path, "/a/x.txt");
    assert!(shared_file_for(&store, "f2").is_none());
}

#[test]
fn multi_bundle_page_skips_stopped_files() {
    let mut store = ShareStore::new();
    let files = vec![lf("/p/a", "a", 1), lf("/p/b", "b", 2)];
    store.share_files_with_ids(&files, "B".to_string(), vec!["fa".to_string(), "fb".to_string()], "10.0.0.2", 80);
    store.files.remove(&"fa".to_string());
    match bundle_page_plan(&store, &"B".to_string()) {
        BundlePage::Multi { items, count } => {
            assert_eq!(count, 2);
            assert_eq!(items.len(), 1);
            assert_eq!(items[0].id, "fb");
            let html = render_bundle_multi("<head></head>{items}|__CNT__", "en", "server", &items, count);
            assert!(html.contains("data-url=\"/d/fb?dl=1\" data-name=\"b\""));
            assert!(html.contains("<div class=\"fcard-size\">2 B</div>"));
            assert!(html.ends_with("|2"));
        }
        _ => panic!("expected a multi-file page"),
    }
    let active = store.get_active_shares("10.0.0.2", 80);
    assert_eq!(active[0].name, "b");
    assert_eq!(active[0].size, 2);
}

#[test]
fn random_shares() {
    let id = random_share_id();
    assert_eq!(id.len(), 8);
    assert!(id.chars().all(|c| c.is_ascii_lowercase() || c.is_ascii_digit()));
    let mut store = ShareStore::new();
    let mut settings = AppSettings::new();
    let files = vec![lf("/a/x.txt", "x.txt", 10)];
    let r = process_cli_paths(&mut store, &mut settings, &files, "192.168.0.9", 52036);
    assert_eq!(r.name, "x.txt");
    assert_eq!(settings.get_popup_data(), (r.url.clone(), "x.txt".to_string()));
    assert!(r.url.starts_with("http://192.168.0.9:52036/s/"));
    let none = process_cli_paths(&mut store, &mut settings, &vec![], "192.168.0.9", 52036);
    assert_eq!(none.name, "0 files");
    store.clear_all_shares();
    assert_eq!(store.bundles.len(), 0);
}

#[test]
fn server_info_and_records() {
    let info = get_server_info(&"192.168.1.2".to_string(), 52035);
    assert_eq!(info.url, "http://192.168.1.2:52035");
    assert_eq!(info.send_url, info.url);
    let rec = record_received("a.txt".into(), 5, 0, "/d/a.txt".into(), 1, "Mac".into());
    assert_eq!(rec.time, "1970-01-01 08:00");
    assert!(rec.exists);
}

#[test]
fn settings_defaults_and_reset() {
    let mut s = AppSettings::new();
    assert_eq!(s.lang, "zh-CN");
    assert_eq!(s.get_popup_data(), (String::new(), String::new()));
    s.tray_mode = true;
    s.set_sound_settings(false, "ding".into());
    s.lang = "en".into();
    s.reset_defaults();
    assert!(!s.tray_mode);
    assert!(s.sound_enabled);
    assert_eq!(s.lang, "en");
    s.pending_cli_paths = vec!["/x".into()];
    assert_eq!(s.get_cli_paths(), vec!["/x".to_string()]);
    assert!(s.get_cli_paths().is_empty());
    assert_eq!(close_action(true), CloseAction::Hide);
    assert_eq!(flag_text(true), "1");
    assert!(flag_set(" 1\n"));
    assert!(!flag_set("0"));
}

#[test]
fn batches_complete_on_last_file() {
    let mut b = UploadBatches::new();
    b.start_batch(3);
    assert_eq!(b.file_received(10), (1, ReceiveSignal::Progress { received: 1, expected: 3 }));
    assert_eq!(b.file_received(0), (1, ReceiveSignal::Progress { received: 2, expected: 3 }));
    assert_eq!(b.file_received(1), (1, ReceiveSignal::BatchComplete { count: 3 }));
    assert_eq!(b.file_received(5), (2, ReceiveSignal::SoundForFile));
    assert_eq!(b.batch_expected, 0);
}

#[test]
fn cli_bodies_and_requests() {
    match parse_cli_body("__focus__\n") {
        CliRequest::Focus => {}
        _ => panic!("focus expected"),
    }
    match parse_cli_body("\n\r\n") {
        CliRequest::Nothing => {}
        _ => panic!("a carriage return before a line feed ends an empty line"),
    }
    for body in ["a\r", "a\rb\n", "x\r\ny\r\n", "\r", "one", "a\n\nb\n\n", "\r\r\n"] {
        let std_lines: Vec<String> = body.lines().map(|s| s.to_string()).filter(|s| !s.is_empty()).collect();
        match parse_cli_body(body) {
            CliRequest::Paths(p) => assert_eq!(p, std_lines, "body {:?}", body),
            CliRequest::Nothing => assert!(std_lines.is_empty(), "body {:?}", body),
            CliRequest::Focus => panic!("no focus line here"),
        }
    }
    match parse_cli_body("\n\n") {
        CliRequest::Nothing => {}
        _ => panic!("nothing expected"),
    }
    match parse_cli_body("C:\\a.txt\r\n\r\nC:\\b.txt") {
        CliRequest::Paths(p) => assert_eq!(p, vec!["C:\\a.txt".to_string(), "C:\\b.txt".to_string()]),
        _ => panic!("paths expected"),
    }
    let req = forward_request(52035, &vec!["a".into(), "\u{4f60}".into()]);
    assert_eq!(req, "POST /cli HTTP/1.1\r\nHost: 127.0.0.1:52035\r\nContent-Type: text/plain\r\nContent-Length: 5\r\nConnection: close\r\n\r\na\n\u{4f60}");
    assert_eq!(parse_port_file(" 52036\n"), Some(52036));
    assert_eq!(parse_port_file("70000"), None);
    assert_eq!(port_file_text(52035), "52035");
    let mut free = vec![false; 11];
    assert_eq!(first_free_port(&free), None);
    free[3] = true;
    assert_eq!(first_free_port(&free), Some(52038));
}

#[test]
fn lan_ip_preference() {
    let ifs = vec![
        Interface { ip: "127.0.0.1".into(), is_loopback: true },
        Interface { ip: "172.20.1.1".into(), is_loopback: false },
        Interface { ip: "10.1.2.3".into(), is_loopback: false },
        Interface { ip: "198.18.0.1".into(), is_loopback: false },
        Interface { ip: "192.168.3.4".into(), is_loopback: false },
        Interface { ip: "192.168.9.9".into(), is_loopback: false },
    ];
    assert_eq!(choose_lan_ip(&ifs, None), "192.168.3.4");
    let first3: Vec<Interface> = ifs.iter().take(3).map(|i| Interface { ip: i.ip.clone(), is_loopback: i.is_loopback }).collect();
    assert_eq!(choose_lan_ip(&first3, None), "10.1.2.3");
    assert_eq!(choose_lan_ip(&vec![], Some("198.19.0.1".into())), "127.0.0.1");
    assert_eq!(choose_lan_ip(&vec![], Some("8.8.8.8".into())), "8.8.8.8");
    assert_eq!(choose_lan_ip(&vec![], None), "127.0.0.1");
}

#[test]
fn shell_extension_registry_plan() {
    assert_eq!(clsid_string(), "{D4E8F1A2-3B5C-4D6E-9F0A-1B2C3D4E5F6A}");
    let fail = register_shell_ext(true, "");
    assert_eq!(fail.status, E_FAIL);
    assert!(fail.ops.is_empty());
    let reg = register_shell_ext(true, "C:\\Su\\su_lib.dll");
    assert_eq!(reg.status, S_OK);
    assert_eq!(reg.ops.len(), 5);
    match &reg.ops[2] {
        RegOp::Write { path, name, value } => {
            assert_eq!(path, "Software\\Classes\\CLSID\\{D4E8F1A2-3B5C-4D6E-9F0A-1B2C3D4E5F6A}\\InprocServer32");
            assert_eq!(name, "");
            assert_eq!(value, "C:\\Su\\su_lib.dll");
        }
        _ => panic!("write expected"),
    }
    let unreg = register_shell_ext(false, "");
    assert_eq!(unreg.status, S_OK);
    assert_eq!(unreg.ops.len(), 2);
    let menu = register_context_menu("C:\\Su\\su.exe");
    assert_eq!(menu.len(), 6);
    match &menu[3] {
        RegOp::Write { value, .. } => assert_eq!(value, "\"C:\\Su\\su.exe\" \"%1\""),
        _ => panic!("write expected"),
    }
    assert_eq!(unregister_context_menu().len(), 3);
    assert_eq!(shortcut_script("C:\\Users\\O'Neil\\Su!.lnk", "C:\\su.exe", "C:\\"),
        "$ws = New-Object -ComObject WScript.Shell; $s = $ws.CreateShortcut('C:\\Users\\O''Neil\\Su!.lnk'); $s.TargetPath = 'C:\\su.exe'; $s.WorkingDirectory = 'C:\\'; $s.Save()");
}

fn iunknown() -> Guid {
    Guid { data1: 0, data2: 0, data3: 0, data4: [0xC0, 0, 0, 0, 0, 0, 0, 0x46] }
}

fn explorer_command() -> Guid {
    Guid { data1: 0xa08ce4d0, data2: 0xfa25, data3: 0x44ab, data4: [0xb5, 0x7c, 0xc7, 0xb1, 0xc3, 0x23, 0xe0, 0xb9] }
}

fn own_class() -> Guid {
    Guid { data1: 0xD4E8F1A2, data2: 0x3B5C, data3: 0x4D6E, data4: [0x9F, 0x0A, 0x1B, 0x2C, 0x3D, 0x4E, 0x5F, 0x6A] }
}

#[test]
fn query_interface_answers() {
    for obj in [ComObject::ClassFactory, ComObject::ExplorerCommand] {
        assert_eq!(query_interface_status(obj, true, Some(iunknown())), S_OK);
        assert_eq!(query_interface_status(obj, true, Some(explorer_command())), S_OK);
        assert_eq!(query_interface_status(obj, true, Some(own_class())), E_NOINTERFACE);
        assert_eq!(query_interface_status(obj, true, None), E_NOINTERFACE);
        assert_eq!(query_interface_status(obj, false, Some(iunknown())), E_INVALIDARG);
    }
}

#[test]
fn class_object_answers() {
    assert!(extension_class(&own_class()));
    let mut other = own_class();
    other.data4[7] = 0x6B;
    assert!(!extension_class(&other));
    assert_eq!(get_class_object_status(Some(own_class()), Some(explorer_command()), true), S_OK);
    let class_factory = Guid { data1: 1, data2: 0, data3: 0, data4: [0xC0, 0, 0, 0, 0, 0, 0, 0x46] };
    assert_eq!(get_class_object_status(Some(own_class()), Some(class_factory), true), S_OK);
    assert_eq!(query_interface_status(ComObject::ClassFactory, true, Some(class_factory)), S_OK);
    assert_eq!(query_interface_status(ComObject::ExplorerCommand, true, Some(class_factory)), E_NOINTERFACE);
    let mut near = class_factory;
    near.data4[7] = 0x47;
    assert_eq!(query_interface_status(ComObject::ClassFactory, true, Some(near)), E_NOINTERFACE);
    assert_eq!(get_class_object_status(Some(own_class()), Some(own_class()), true), E_NOINTERFACE);
    assert_eq!(get_class_object_status(Some(other), Some(iunknown()), true), CLASS_E_CLASSNOTAVAILABLE);
    assert_eq!(get_class_object_status(None, Some(iunknown()), true), E_INVALIDARG);
    assert_eq!(get_class_object_status(Some(own_class()), Some(iunknown()), false), E_INVALIDARG);
}

#[test]
fn explorer_command_list() {
    assert_eq!(invoke_list(&vec![]), None);
    let paths = vec!["C:\\a.txt".to_string(), "D:\\dir".to_string()];
    assert_eq!(invoke_list(&paths), Some("C:\\a.txt\nD:\\dir".to_string()));
    assert_eq!(join_lines(&vec!["one".to_string()]), "one");
    assert_eq!(list_file_name_of(4321), "su_cli_4321.txt");
}

#[test]
fn shared_bundle_listed_as_returned() {
    let mut store = ShareStore::new();
    store.share_files_with_ids(&vec![lf("/o/old", "old", 7)], "old1".to_string(), vec!["fo".to_string()], "10.1.1.1", 9000);
    let files = vec![lf("/a/p.png", "p.png", 300), lf("/a/q.pdf", "q.pdf", 4000), lf("/a/r", "r", 0)];
    let r = store.share_files_with_ids(&files, "new1".to_string(),
        vec!["n1".to_string(), "n2".to_string(), "n3".to_string()], "10.1.1.1", 9000);
    let active = store.get_active_shares("10.1.1.1", 9000);
    assert_eq!(active.len(), 2);
    let listed = &active[1];
    assert_eq!(listed.id, r.id);
    assert_eq!(listed.name, r.name);
    assert_eq!(listed.name, "3 files");
    assert_eq!(listed.size, r.size);
    assert_eq!(listed.size, 4300);
    assert_eq!(listed.url, r.url);
    assert_eq!(listed.files.len(), r.files.len());
    for (a, b) in listed.files.iter().zip(r.files.iter()) {
        assert_eq!(a.name, b.name);
        assert_eq!(a.size, b.size);
    }
}

#[test]
fn port_file_reads_back() {
    for p in [0u16, 9, 10, 52035, 65535] {
        assert_eq!(parse_port_file(&port_file_text(p)), Some(p));
    }
}

#[test]
fn forwarded_paths_read_back() {
    let paths = vec!["C:\\Users\\me\\a b.txt".to_string(), "D:\\x\r".to_string(), "/home/u/文件.pdf".to_string()];
    let paths = vec![paths[0].clone(), paths[2].clone(), paths[1].clone()];
    let req = forward_request(52035, &paths);
    let body = req.split("\r\n\r\n").nth(1).unwrap();
    match parse_cli_body(body) {
        CliRequest::Paths(p) => assert_eq!(p, paths),
        _ => panic!("expected the forwarded paths"),
    }
}

#[test]
fn reset_clears_everything() {
    let mut received = vec![record_received("a".into(), 1, 0, "/a".into(), 1, "Mac".into())];
    let mut store = ShareStore::new();
    store.share_files_with_ids(&vec![lf("/p", "p", 3)], "b".to_string(), vec!["f".to_string()], "10.0.0.1", 80);
    let mut settings = AppSettings::new();
    settings.tray_mode = true;
    settings.lang = "en".into();
    let mut batches = UploadBatches::new();
    batches.start_batch(3);
    batches.file_received(5);
    let removed = reset_to_defaults(&mut received, &mut store, &mut settings, &mut batches);
    assert!(received.is_empty());
    assert_eq!(store.files.len(), 0);
    assert_eq!(store.bundles.len(), 0);
    assert!(!settings.tray_mode);
    assert_eq!(settings.lang, "en");
    assert_eq!(batches, UploadBatches::new());
    assert_eq!(removed, vec!["received.json", "shares.json", "bundles.json"]);
}

#[test]
fn port_choice() {
    let mut free = vec![false; 11];
    free[3] = true;
    free[7] = true;
    assert_eq!(choose_port(&free), 52038);
    let none = vec![false; 11];
    for _ in 0..20 {
        let p = choose_port(&none);
        assert!((49152..65535).contains(&p));
    }
}

#[test]
fn checked_entry_points() {
    let mut b = UploadBatches { upload_batch: u64::MAX, batch_expected: 0, batch_received_count: 0 };
    assert_eq!(b.file_received_checked(5), None);
    assert_eq!(b, UploadBatches { upload_batch: u64::MAX, batch_expected: 0, batch_received_count: 0 });
    assert_eq!(b.file_received_checked(1), Some((u64::MAX, ReceiveSignal::SoundForFile)));
    assert!(record_received_checked("a".into(), 1, u64::MAX, "/a".into(), 1, "x".into()).is_none());
    assert!(record_received_checked("a".into(), 1, 1_700_000_000, "/a".into(), 1, "x".into()).is_some());
    let mut store = ShareStore::new();
    store.share_files_with_ids(&vec![lf("/p", "p", u64::MAX)], "b1".to_string(), vec!["f1".to_string()], "h", 1);
    assert!(store.get_active_shares_checked("h", 1).is_some());
    store.share_files_with_ids(&vec![lf("/q", "q", 1)], "b2".to_string(), vec!["f2".to_string()], "h", 1);
    store.bundles.insert("b3".to_string(), vec!["f1".to_string(), "f2".to_string()]);
    assert!(!store.totals_fit_check());
    assert!(store.get_active_shares_checked("h", 1).is_none());
}

fn apply(reg: &mut BTreeMap<String, BTreeMap<String, String>>, ops: &[RegOp]) {
    for op in ops {
        match op {
            RegOp::Write { path, name, value } => {
                reg.entry(path.to_ascii_lowercase()).or_default().insert(name.clone(), value.clone());
            }
            RegOp::Delete { path } => {
                let p = path.to_ascii_lowercase();
                let below = format!("{}\\", p);
                reg.retain(|k, _| *k != p && !k.starts_with(&below));
            }
        }
    }
}

#[test]
fn register_then_unregister_round_trip() {
    let mut reg: BTreeMap<String, BTreeMap<String, String>> = BTreeMap::new();
    for k in ["Software\\Classes\\CLSID", "Software\\Classes\\*\\shellex\\ContextMenuHandlers", "Software\\Other",
        "Software\\Classes\\*\\shell\\SuShare", "SOFTWARE\\classes\\*\\SHELL\\sushare\\command"] {
        reg.insert(k.to_ascii_lowercase(), BTreeMap::from([("".to_string(), "v".to_string())]));
    }
    let before = reg.clone();
    apply(&mut reg, &register_shell_ext(true, "C:\\su\\su_lib.dll").ops);
    assert_eq!(reg.len(), before.len() - 2 + 3);
    apply(&mut reg, &register_shell_ext(false, "C:\\su\\su_lib.dll").ops);
    let mut expected = before.clone();
    expected.retain(|k, _| !k.starts_with("software\\classes\\*\\shell\\sushare"));
    assert_eq!(expected.len(), 3);
    assert_eq!(reg, expected);
    let mut alone = before.clone();
    apply(&mut alone, &register_shell_ext(false, "").ops);
    assert_eq!(alone, before);
}
